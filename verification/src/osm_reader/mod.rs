//! Reading the raw map data into the records of an import.

pub mod osm_utils;
pub mod street;
pub mod street_key;
pub mod street_laws;
