//! Positions on the map and axis-aligned boxes.
//!
//! A position is held as OpenStreetMap files hold it: longitude and latitude
//! as whole numbers of 1e-7 degrees. All geometry of the library is exact
//! integer arithmetic on these numbers.

use vstd::prelude::*;

verus! {

/// A position, in units of 1e-7 degrees.
#[derive(Clone, Copy, PartialEq, Eq, Structural, Debug)]
pub struct Coord {
    pub lon: i32,
    pub lat: i32,
}

impl Coord {
    pub fn new(lon: i32, lat: i32) -> (c: Coord)
        ensures
            c == (Coord { lon, lat }),
    {
        Coord { lon, lat }
    }

    /// The position that stands for "unknown": longitude and latitude zero.
    pub open spec fn origin() -> Coord {
        Coord { lon: 0, lat: 0 }
    }
}

impl Default for Coord {
    fn default() -> (c: Coord)
        ensures
            c == Coord::origin(),
    {
        Coord { lon: 0, lat: 0 }
    }
}

/// An axis-aligned box, borders included.
#[derive(Clone, Copy, PartialEq, Eq, Structural, Debug)]
pub struct BBox {
    pub min: Coord,
    pub max: Coord,
}

impl BBox {
    /// Whether `p` lies in the box or on its border.
    pub open spec fn holds(self, p: Coord) -> bool {
        &&& self.min.lon <= p.lon <= self.max.lon
        &&& self.min.lat <= p.lat <= self.max.lat
    }

    /// The box that holds `p` alone.
    pub open spec fn around(p: Coord) -> BBox {
        BBox { min: p, max: p }
    }

    /// The smallest box that holds this box and `p`.
    pub open spec fn grown(self, p: Coord) -> BBox {
        BBox {
            min: Coord {
                lon: if p.lon < self.min.lon {
                    p.lon
                } else {
                    self.min.lon
                },
                lat: if p.lat < self.min.lat {
                    p.lat
                } else {
                    self.min.lat
                },
            },
            max: Coord {
                lon: if p.lon > self.max.lon {
                    p.lon
                } else {
                    self.max.lon
                },
                lat: if p.lat > self.max.lat {
                    p.lat
                } else {
                    self.max.lat
                },
            },
        }
    }

    /// The smallest box that holds both boxes.
    pub open spec fn merged(self, other: BBox) -> BBox {
        self.grown(other.min).grown(other.max)
    }

    pub fn contains(&self, p: &Coord) -> (r: bool)
        ensures
            r == self.holds(*p),
    {
        self.min.lon <= p.lon && p.lon <= self.max.lon && self.min.lat <= p.lat && p.lat
            <= self.max.lat
    }

    pub fn around_point(p: &Coord) -> (b: BBox)
        ensures
            b == BBox::around(*p),
    {
        BBox { min: *p, max: *p }
    }

    pub fn grow(&self, p: &Coord) -> (b: BBox)
        ensures
            b == self.grown(*p),
    {
        BBox {
            min: Coord {
                lon: if p.lon < self.min.lon {
                    p.lon
                } else {
                    self.min.lon
                },
                lat: if p.lat < self.min.lat {
                    p.lat
                } else {
                    self.min.lat
                },
            },
            max: Coord {
                lon: if p.lon > self.max.lon {
                    p.lon
                } else {
                    self.max.lon
                },
                lat: if p.lat > self.max.lat {
                    p.lat
                } else {
                    self.max.lat
                },
            },
        }
    }

    pub fn merge(&self, other: &BBox) -> (b: BBox)
        ensures
            b == self.merged(*other),
    {
        self.grow(&other.min).grow(&other.max)
    }
}

} // verus!
