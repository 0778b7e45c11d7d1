//! The records that an import produces.

use crate::admin::{Admin, Code, I18nProperties, Property};
use crate::coord::Coord;
use crate::weight::Weight;
use std::sync::Arc;
use vstd::prelude::*;

verus! {

/// A street: one record for each street of the real world, however many
/// segments the map draws it with.
#[derive(Clone, Debug)]
pub struct Street {
    /// `street:osm:relation:` or `street:osm:way:`, then the number of the
    /// relation or way that the street was made from.
    pub id: String,
    pub name: String,
    pub label: String,
    /// The regions that contain the street, the most specific first.
    pub administrative_regions: Vec<Arc<Admin>>,
    pub weight: Weight,
    pub zip_codes: Vec<String>,
    pub coord: Coord,
    pub approx_coord: Option<Coord>,
    pub distance: Option<u32>,
    pub country_codes: Vec<String>,
}

/// What a street holds, with its texts as sequences of characters.
pub struct StreetView {
    pub id: Seq<char>,
    pub name: Seq<char>,
    pub label: Seq<char>,
    pub administrative_regions: Seq<Arc<Admin>>,
    pub weight: Weight,
    pub zip_codes: Seq<Seq<char>>,
    pub coord: Coord,
    pub approx_coord: Option<Coord>,
    pub distance: Option<u32>,
    pub country_codes: Seq<Seq<char>>,
}

impl DeepView for Street {
    type V = StreetView;

    open spec fn deep_view(&self) -> StreetView {
        StreetView {
            id: self.id@,
            name: self.name@,
            label: self.label@,
            administrative_regions: self.administrative_regions@,
            weight: self.weight,
            zip_codes: self.zip_codes.deep_view(),
            coord: self.coord,
            approx_coord: self.approx_coord,
            distance: self.distance,
            country_codes: self.country_codes.deep_view(),
        }
    }
}

/// An address: a house number on a street.
#[derive(Clone, Debug)]
pub struct Addr {
    pub id: String,
    pub name: String,
    pub house_number: String,
    pub street: Street,
    pub label: String,
    pub coord: Coord,
    pub approx_coord: Option<Coord>,
    pub weight: Weight,
    pub zip_codes: Vec<String>,
    pub distance: Option<u32>,
    pub country_codes: Vec<String>,
}

/// The kind of a point of interest.
#[derive(Clone, Debug)]
pub struct PoiType {
    pub id: String,
    pub name: String,
}

/// Where a point of interest stands: on a street, or at an address.
#[derive(Clone, Debug)]
pub enum Address {
    Street(Street),
    Addr(Addr),
}

/// A point of interest.
#[derive(Clone, Debug)]
pub struct Poi {
    pub id: String,
    pub label: String,
    pub name: String,
    pub coord: Coord,
    pub approx_coord: Option<Coord>,
    pub administrative_regions: Vec<Arc<Admin>>,
    pub weight: Weight,
    pub zip_codes: Vec<String>,
    pub poi_type: PoiType,
    pub properties: Vec<Property>,
    pub address: Option<Address>,
    pub country_codes: Vec<String>,
    pub names: I18nProperties,
    pub labels: I18nProperties,
    pub distance: Option<u32>,
}

#[derive(Clone, Debug)]
pub struct CommercialMode {
    pub id: String,
    pub name: String,
}

#[derive(Clone, Debug)]
pub struct PhysicalMode {
    pub id: String,
    pub name: String,
}

#[derive(Clone, Debug)]
pub struct Comment {
    pub name: String,
}

#[derive(Clone, Debug)]
pub struct FeedPublisher {
    pub id: String,
    pub license: String,
    pub name: String,
    pub url: String,
}

/// A stop of public transport.
#[derive(Clone, Debug)]
pub struct Stop {
    pub id: String,
    pub label: String,
    pub name: String,
    pub coord: Coord,
    pub approx_coord: Option<Coord>,
    pub administrative_regions: Vec<Arc<Admin>>,
    pub weight: Weight,
    pub zip_codes: Vec<String>,
    pub commercial_modes: Vec<CommercialMode>,
    pub physical_modes: Vec<PhysicalMode>,
    pub coverages: Vec<String>,
    pub comments: Vec<Comment>,
    pub timezone: String,
    pub codes: Vec<Code>,
    pub properties: Vec<Property>,
    pub feed_publishers: Vec<FeedPublisher>,
    pub distance: Option<u32>,
}

/// A place of any kind. The kinds are a closed set; each has its own way into
/// an answer.
#[derive(Clone, Debug)]
pub enum Place {
    Admin(Admin),
    Street(Street),
    Addr(Addr),
    Poi(Poi),
    Stop(Stop),
}

} // verus!
