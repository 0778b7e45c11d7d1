//! Streets and administrative regions out of OpenStreetMap data, for a
//! geocoding service.
//!
//! An import reads the raw map data into a graph ([`osm`]), builds an index of
//! the administrative regions that answers which regions contain a position
//! ([`admin_geofinder`]), merges the segments of each street into one record
//! ([`osm_reader::street`]) and gives each street the weight of its city. The
//! service then hands places out as answers ([`model`]).
//!
//! Positions are whole numbers of 1e-7 degrees, as map files hold them, and
//! all geometry is exact integer arithmetic ([`coord`], [`geometry`]).

pub mod admin;
pub mod admin_geofinder;
pub mod coord;
pub mod geometry;
pub mod labels;
pub mod model;
pub mod objects;
pub mod osm;
pub mod osm_reader;
pub mod scan;
pub mod text;
pub mod utils;
pub mod weight;
