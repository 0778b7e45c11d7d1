//! Administrative regions.

use crate::coord::{BBox, Coord};
use crate::geometry::{multipolygon_contains, MultiPolygon};
use crate::scan::{first_index, lemma_first_index_is};
use crate::text::str_eq;
use crate::weight::Weight;
use std::sync::Arc;
use vstd::prelude::*;

verus! {

/// The kind of zone that an administrative region is.
#[derive(Clone, Copy, PartialEq, Eq, Structural, Debug)]
pub enum ZoneType {
    Suburb,
    CityDistrict,
    City,
    StateDistrict,
    State,
    CountryRegion,
    Country,
    NonAdministrative,
}

/// A code that some authority gave to a region, under the name of its scheme.
#[derive(Clone, Debug)]
pub struct Code {
    pub name: String,
    pub value: String,
}

/// A keyed text.
#[derive(Clone, Debug)]
pub struct Property {
    pub key: String,
    pub value: String,
}

/// Texts keyed by language code.
#[derive(Clone, Debug)]
pub struct I18nProperties(pub Vec<Property>);

/// The condition "is keyed by `key`".
pub open spec fn keyed(key: Seq<char>) -> spec_fn(Property) -> bool {
    |p: Property| p.key@ == key
}

impl I18nProperties {
    /// The text of the first property keyed by `key`.
    pub open spec fn value_of(&self, key: Seq<char>) -> Option<Seq<char>> {
        let k = first_index(self.0@, keyed(key));
        if k < self.0@.len() {
            Some(self.0@[k].value@)
        } else {
            None
        }
    }

    /// Looks up the text for a language.
    pub fn get(&self, lang: &str) -> (r: Option<&str>)
        ensures
            match r {
                Some(v) => self.value_of(lang@) == Some(v@),
                None => self.value_of(lang@) is None,
            },
    {
        let mut i: usize = 0;
        while i < self.0.len()
            invariant
                i <= self.0@.len(),
                forall|j: int| 0 <= j < i ==> !keyed(lang@)(#[trigger] self.0@[j]),
            decreases self.0@.len() - i,
        {
            if str_eq(self.0[i].key.as_str(), lang) {
                proof {
                    lemma_first_index_is(self.0@, keyed(lang@), i as int);
                }
                return Some(self.0[i].value.as_str());
            }
            i += 1;
        }
        proof {
            lemma_first_index_is(self.0@, keyed(lang@), i as int);
        }
        None
    }
}

/// An administrative region: a country, a department, a city and the like.
#[derive(Clone, Debug)]
pub struct Admin {
    /// The stable identity of the region.
    pub id: String,
    /// The official code of the region; may be empty.
    pub insee: String,
    /// The administrative depth: the smaller, the coarser.
    pub level: u32,
    pub label: String,
    pub name: String,
    pub zip_codes: Vec<String>,
    pub weight: Weight,
    /// A position that stands for the region.
    pub coord: Coord,
    pub boundary: Option<MultiPolygon>,
    pub bbox: Option<BBox>,
    pub zone_type: Option<ZoneType>,
    /// The identity of the enclosing region, to look it up by.
    pub parent_id: Option<String>,
    pub codes: Vec<Code>,
    pub names: I18nProperties,
    pub labels: I18nProperties,
}

impl Admin {
    /// Whether the region is a city: derived from its zone type, not stored.
    pub open spec fn spec_is_city(&self) -> bool {
        self.zone_type == Some(ZoneType::City)
    }

    /// Whether the region is a city.
    #[verifier::when_used_as_spec(spec_is_city)]
    pub fn is_city(&self) -> (r: bool)
        ensures
            r == self.spec_is_city(),
    {
        match self.zone_type {
            Some(ZoneType::City) => true,
            _ => false,
        }
    }

    /// Whether the boundary of the region contains `p`. A region without a
    /// boundary contains nothing.
    pub open spec fn covers(&self, p: Coord) -> bool {
        match self.boundary {
            Some(b) => multipolygon_contains(b, p),
            None => false,
        }
    }
}

/// The zone type of a region of an import: the one known of it, or else that
/// of a city for a region of the city level.
pub open spec fn zone_type_at(known: Option<ZoneType>, level: u32, city_level: u32) -> Option<
    ZoneType,
> {
    match known {
        Some(t) => Some(t),
        None => if level == city_level {
            Some(ZoneType::City)
        } else {
            None
        },
    }
}

/// Tells the zone type of a region of an import.
pub fn zone_type_at_level(known: Option<ZoneType>, level: u32, city_level: u32) -> (r: Option<
    ZoneType,
>)
    ensures
        r == zone_type_at(known, level, city_level),
{
    match known {
        Some(t) => Some(t),
        None => if level == city_level {
            Some(ZoneType::City)
        } else {
            None
        },
    }
}

/// Tells whether an import retains a region: its level is one of the levels
/// to retain.
pub fn is_level_kept(levels: &Vec<u32>, level: Option<u32>) -> (r: bool)
    ensures
        r == (level matches Some(l) && levels@.contains(l)),
{
    match level {
        None => false,
        Some(l) => {
            let mut i: usize = 0;
            while i < levels.len()
                invariant
                    i <= levels@.len(),
                    level == Some(l),
                    forall|j: int| 0 <= j < i ==> levels@[j] != l,
                decreases levels@.len() - i,
            {
                if levels[i] == l {
                    assert(levels@[i as int] == l);
                    return true;
                }
                i += 1;
            }
            false
        },
    }
}

/// The condition "is a city".
pub open spec fn city() -> spec_fn(Arc<Admin>) -> bool {
    |a: Arc<Admin>| a.spec_is_city()
}

/// The condition "contains `p`".
pub open spec fn covering(p: Coord) -> spec_fn(Arc<Admin>) -> bool {
    |a: Arc<Admin>| a.covers(p)
}

/// Whether no region comes before a region of a greater level: the most
/// specific regions come first.
pub open spec fn most_specific_first(admins: Seq<Arc<Admin>>) -> bool {
    forall|i: int, j: int|
        0 <= i < j < admins.len() ==> (#[trigger] admins[i]).level >= (#[trigger] admins[j]).level
}

/// Finds the first city among `admins`.
pub fn first_city(admins: &Vec<Arc<Admin>>) -> (r: Option<usize>)
    ensures
        match r {
            Some(k) => k < admins@.len() && k == first_index(admins@, city()),
            None => first_index(admins@, city()) == admins@.len(),
        },
{
    let mut i: usize = 0;
    while i < admins.len()
        invariant
            i <= admins@.len(),
            forall|j: int| 0 <= j < i ==> !city()(#[trigger] admins@[j]),
        decreases admins@.len() - i,
    {
        if admins[i].is_city() {
            proof {
                lemma_first_index_is(admins@, city(), i as int);
            }
            return Some(i);
        }
        i += 1;
    }
    proof {
        lemma_first_index_is(admins@, city(), i as int);
    }
    None
}

/// Hands out another handle to a shared region.
///
/// Wraps `Arc::clone` of the standard library, which makes a new pointer to
/// the same allocation: the handle returned points to the very region that
/// the argument points to.
#[verifier::external_body]
pub(crate) fn share(admin: &Arc<Admin>) -> (r: Arc<Admin>)
    ensures
        r == *admin,
{
    Arc::clone(admin)
}

} // verus!
