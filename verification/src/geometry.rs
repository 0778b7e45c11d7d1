//! Planar point-in-polygon tests on integer coordinates.
//!
//! A ring is a closed chain of positions; its last position is joined to its
//! first. A position is inside a ring when a ray from it towards growing
//! longitude crosses the ring an odd number of times. The crossing test is
//! exact: it compares integer products and never divides.
//!
//! The module also computes the bounding box of a boundary and proves that a
//! position outside that box is outside the boundary, which is what makes a
//! bounding-box prefilter safe.

use crate::coord::{BBox, Coord};
use vstd::prelude::*;

verus! {

/// An area bounded by an outer ring, minus the areas of its inner rings.
#[derive(Clone, Debug)]
pub struct Polygon {
    pub exterior: Vec<Coord>,
    pub interiors: Vec<Vec<Coord>>,
}

/// A boundary made of any number of polygons.
#[derive(Clone, Debug)]
pub struct MultiPolygon {
    pub polygons: Vec<Polygon>,
}

/// Whether `a` lies strictly north of `p`.
pub open spec fn north_of(a: Coord, p: Coord) -> bool {
    a.lat > p.lat
}

/// Whether the edge from `a` to `b` passes the latitude of `p`, lower end
/// included and upper end excluded.
pub open spec fn straddles(a: Coord, b: Coord, p: Coord) -> bool {
    north_of(a, p) != north_of(b, p)
}

/// Whether the edge from `a` to `b` crosses the ray that leaves `p` towards
/// growing longitude.
pub open spec fn edge_crosses(a: Coord, b: Coord, p: Coord) -> bool {
    &&& straddles(a, b, p)
    &&& if b.lat > a.lat {
        (p.lon - a.lon) * (b.lat - a.lat) < (p.lat - a.lat) * (b.lon - a.lon)
    } else {
        (p.lon - a.lon) * (b.lat - a.lat) > (p.lat - a.lat) * (b.lon - a.lon)
    }
}

/// The position that follows index `i` on the ring; the first follows the last.
pub open spec fn ring_next(ring: Seq<Coord>, i: int) -> Coord {
    if i + 1 < ring.len() {
        ring[i + 1]
    } else {
        ring[0]
    }
}

/// How many of the first `n` edges of `ring` cross the ray from `p`.
pub open spec fn crossings_upto(ring: Seq<Coord>, p: Coord, n: int) -> int
    decreases n,
{
    if n <= 0 {
        0
    } else {
        crossings_upto(ring, p, n - 1) + if edge_crosses(ring[n - 1], ring_next(ring, n - 1), p) {
            1int
        } else {
            0int
        }
    }
}

/// Whether `p` is inside `ring`: the ray from `p` crosses it an odd number of
/// times.
pub open spec fn ring_contains(ring: Seq<Coord>, p: Coord) -> bool {
    crossings_upto(ring, p, ring.len() as int) % 2 == 1
}

/// Whether `p` is inside the outer ring of `poly` and inside none of its
/// inner rings.
pub open spec fn polygon_contains(poly: Polygon, p: Coord) -> bool {
    &&& ring_contains(poly.exterior@, p)
    &&& forall|k: int|
        0 <= k < poly.interiors@.len() ==> !ring_contains(#[trigger] poly.interiors@[k]@, p)
}

/// Whether `p` is inside one of the first `n` polygons.
pub open spec fn polygons_contain(polys: Seq<Polygon>, p: Coord, n: int) -> bool {
    exists|k: int| 0 <= k < n && k < polys.len() && polygon_contains(#[trigger] polys[k], p)
}

/// Whether `p` is inside the boundary.
pub open spec fn multipolygon_contains(mp: MultiPolygon, p: Coord) -> bool {
    polygons_contain(mp.polygons@, p, mp.polygons@.len() as int)
}

/// The smallest box around the first `n` positions of a ring (`n` at least 1).
pub open spec fn ring_box_upto(ring: Seq<Coord>, n: int) -> BBox
    decreases n,
{
    if n <= 1 {
        BBox::around(ring[0])
    } else {
        ring_box_upto(ring, n - 1).grown(ring[n - 1])
    }
}

/// The smallest box around a ring; none for a ring without positions.
pub open spec fn ring_box(ring: Seq<Coord>) -> Option<BBox> {
    if ring.len() == 0 {
        None
    } else {
        Some(ring_box_upto(ring, ring.len() as int))
    }
}

/// The smallest box around two optional boxes.
pub open spec fn join_boxes(a: Option<BBox>, b: Option<BBox>) -> Option<BBox> {
    match (a, b) {
        (None, _) => b,
        (_, None) => a,
        (Some(x), Some(y)) => Some(x.merged(y)),
    }
}

/// The smallest box around the outer rings of the first `n` polygons.
pub open spec fn outline_box_upto(polys: Seq<Polygon>, n: int) -> Option<BBox>
    decreases n,
{
    if n <= 0 {
        None
    } else {
        join_boxes(outline_box_upto(polys, n - 1), ring_box(polys[n - 1].exterior@))
    }
}

/// The smallest box around the outer rings of a boundary; none when no outer
/// ring has a position.
pub open spec fn outline_box(mp: MultiPolygon) -> Option<BBox> {
    outline_box_upto(mp.polygons@, mp.polygons@.len() as int)
}

proof fn lemma_product_fits(x: int, y: int)
    requires
        -0x1_0000_0000 <= x <= 0x1_0000_0000,
        -0x1_0000_0000 <= y <= 0x1_0000_0000,
    ensures
        -0x1_0000_0000_0000_0000 <= x * y <= 0x1_0000_0000_0000_0000,
{
    assert(-0x1_0000_0000_0000_0000 <= x * y <= 0x1_0000_0000_0000_0000) by (nonlinear_arith)
        requires
            -0x1_0000_0000 <= x <= 0x1_0000_0000,
            -0x1_0000_0000 <= y <= 0x1_0000_0000,
    ;
}

/// Tests whether the edge from `a` to `b` crosses the ray from `p`.
pub fn edge_crosses_ray(a: &Coord, b: &Coord, p: &Coord) -> (r: bool)
    ensures
        r == edge_crosses(*a, *b, *p),
{
    if (a.lat > p.lat) == (b.lat > p.lat) {
        return false;
    }
    let dy: i128 = b.lat as i128 - a.lat as i128;
    let dx: i128 = b.lon as i128 - a.lon as i128;
    let px: i128 = p.lon as i128 - a.lon as i128;
    let py: i128 = p.lat as i128 - a.lat as i128;
    proof {
        lemma_product_fits(px as int, dy as int);
        lemma_product_fits(py as int, dx as int);
    }
    let lhs: i128 = px * dy;
    let rhs: i128 = py * dx;
    if dy > 0 {
        lhs < rhs
    } else {
        lhs > rhs
    }
}

/// Tests whether `p` is inside `ring`.
pub fn ring_contains_point(ring: &Vec<Coord>, p: &Coord) -> (r: bool)
    ensures
        r == ring_contains(ring@, *p),
{
    let n: usize = ring.len();
    let mut inside = false;
    let mut i: usize = 0;
    while i < n
        invariant
            i <= n,
            n == ring@.len(),
            crossings_upto(ring@, *p, i as int) >= 0,
            inside == (crossings_upto(ring@, *p, i as int) % 2 == 1),
        decreases n - i,
    {
        let j: usize = if i + 1 < n {
            i + 1
        } else {
            0
        };
        if edge_crosses_ray(&ring[i], &ring[j], p) {
            inside = !inside;
        }
        i += 1;
    }
    inside
}

/// Tests whether `p` is inside `poly`.
pub fn polygon_contains_point(poly: &Polygon, p: &Coord) -> (r: bool)
    ensures
        r == polygon_contains(*poly, *p),
{
    if !ring_contains_point(&poly.exterior, p) {
        return false;
    }
    let mut k: usize = 0;
    while k < poly.interiors.len()
        invariant
            k <= poly.interiors@.len(),
            ring_contains(poly.exterior@, *p),
            forall|j: int| 0 <= j < k ==> !ring_contains(#[trigger] poly.interiors@[j]@, *p),
        decreases poly.interiors@.len() - k,
    {
        if ring_contains_point(&poly.interiors[k], p) {
            return false;
        }
        k += 1;
    }
    true
}

/// Tests whether `p` is inside the boundary `mp`.
pub fn multipolygon_contains_point(mp: &MultiPolygon, p: &Coord) -> (r: bool)
    ensures
        r == multipolygon_contains(*mp, *p),
{
    let mut k: usize = 0;
    while k < mp.polygons.len()
        invariant
            k <= mp.polygons@.len(),
            !polygons_contain(mp.polygons@, *p, k as int),
        decreases mp.polygons@.len() - k,
    {
        if polygon_contains_point(&mp.polygons[k], p) {
            return true;
        }
        k += 1;
    }
    false
}

/// Computes the smallest box around a ring.
pub fn ring_bounding_box(ring: &Vec<Coord>) -> (r: Option<BBox>)
    ensures
        r == ring_box(ring@),
{
    if ring.len() == 0 {
        return None;
    }
    let mut b = BBox::around_point(&ring[0]);
    let mut i: usize = 1;
    while i < ring.len()
        invariant
            1 <= i <= ring@.len(),
            b == ring_box_upto(ring@, i as int),
        decreases ring@.len() - i,
    {
        b = b.grow(&ring[i]);
        i += 1;
    }
    Some(b)
}

/// Computes the smallest box around the outer rings of a boundary.
pub fn bounding_box(mp: &MultiPolygon) -> (r: Option<BBox>)
    ensures
        r == outline_box(*mp),
{
    let mut acc: Option<BBox> = None;
    let mut k: usize = 0;
    while k < mp.polygons.len()
        invariant
            k <= mp.polygons@.len(),
            acc == outline_box_upto(mp.polygons@, k as int),
        decreases mp.polygons@.len() - k,
    {
        let next = ring_bounding_box(&mp.polygons[k].exterior);
        acc =
        match (acc, next) {
            (None, _) => next,
            (_, None) => acc,
            (Some(x), Some(y)) => Some(x.merge(&y)),
        };
        k += 1;
    }
    acc
}

/// The box around the first `n` positions of a ring holds each of them.
pub proof fn lemma_ring_box_holds(ring: Seq<Coord>, n: int, i: int)
    requires
        0 <= i < n <= ring.len(),
    ensures
        ring_box_upto(ring, n).holds(ring[i]),
    decreases n,
{
    if n > 1 {
        if i < n - 1 {
            lemma_ring_box_holds(ring, n - 1, i);
        }
    }
}

/// The box around the outer rings of the first `n` polygons holds every
/// position of those rings.
pub proof fn lemma_outline_box_holds(polys: Seq<Polygon>, n: int, k: int, i: int)
    requires
        0 <= k < n <= polys.len(),
        0 <= i < polys[k].exterior@.len(),
    ensures
        outline_box_upto(polys, n) is Some,
        outline_box_upto(polys, n)->0.holds(polys[k].exterior@[i]),
    decreases n,
{
    let ring = polys[n - 1].exterior@;
    if k == n - 1 {
        lemma_ring_box_holds(ring, ring.len() as int, i);
    } else {
        lemma_outline_box_holds(polys, n - 1, k, i);
    }
}

/// Without a box, no outer ring among the first `n` polygons has a position.
pub proof fn lemma_no_outline_box(polys: Seq<Polygon>, n: int, k: int)
    requires
        0 <= k < n <= polys.len(),
        outline_box_upto(polys, n) is None,
    ensures
        polys[k].exterior@.len() == 0,
    decreases n,
{
    if k < n - 1 {
        lemma_no_outline_box(polys, n - 1, k);
    }
}

proof fn lemma_edge_west_of(a: Coord, b: Coord, p: Coord)
    requires
        a.lon < p.lon,
        b.lon < p.lon,
    ensures
        !edge_crosses(a, b, p),
{
    if straddles(a, b, p) {
        let dy = b.lat - a.lat;
        let t = p.lat - a.lat;
        let u = p.lon - a.lon;
        let w = b.lon - a.lon;
        if dy > 0 {
            assert(u * dy >= t * w) by (nonlinear_arith)
                requires
                    0 <= t <= dy,
                    u > 0,
                    w <= u,
            {
                if w > 0 {
                    assert(t * w <= dy * w);
                    assert(dy * w <= dy * u);
                } else {
                    assert(t * w <= 0);
                    assert(u * dy >= 0);
                }
            }
        } else {
            assert(u * dy <= t * w) by (nonlinear_arith)
                requires
                    dy <= t <= 0,
                    u > 0,
                    w <= u,
            {
                if w > 0 {
                    assert(t * w >= dy * w);
                    assert(dy * w >= dy * u);
                } else {
                    assert(t * w >= 0);
                    assert(u * dy <= 0);
                }
            }
        }
    }
}

proof fn lemma_edge_east_of(a: Coord, b: Coord, p: Coord)
    requires
        p.lon < a.lon,
        p.lon < b.lon,
        straddles(a, b, p),
    ensures
        edge_crosses(a, b, p),
{
    let dy = b.lat - a.lat;
    let t = p.lat - a.lat;
    let u = p.lon - a.lon;
    let w = b.lon - a.lon;
    if dy > 0 {
        assert(u * dy < t * w) by (nonlinear_arith)
            requires
                0 <= t < dy,
                u < 0,
                u < w,
        {
            if w >= 0 {
                assert(t * w >= 0);
                assert(u * dy < 0);
            } else {
                assert(t * w >= dy * w);
                assert(dy * w > dy * u);
            }
        }
    } else {
        assert(u * dy > t * w) by (nonlinear_arith)
            requires
                dy <= t < 0,
                dy < 0,
                u < 0,
                u < w,
        {
            if w >= 0 {
                assert(t * w <= 0);
                assert(u * dy > 0);
            } else {
                assert(t * w <= dy * w);
                assert(dy * w < dy * u);
            }
        }
    }
}

proof fn lemma_no_edge_crosses(ring: Seq<Coord>, p: Coord, n: int)
    requires
        0 <= n <= ring.len(),
        forall|i: int| 0 <= i < n ==> !edge_crosses(#[trigger] ring[i], ring_next(ring, i), p),
    ensures
        crossings_upto(ring, p, n) == 0,
    decreases n,
{
    if n > 0 {
        lemma_no_edge_crosses(ring, p, n - 1);
    }
}

/// The position reached after `n` edges of the ring.
spec fn ring_at(ring: Seq<Coord>, n: int) -> Coord {
    if n < ring.len() {
        ring[n]
    } else {
        ring[0]
    }
}

proof fn lemma_crossings_parity(ring: Seq<Coord>, p: Coord, n: int)
    requires
        0 <= n <= ring.len(),
        ring.len() > 0,
        forall|i: int|
            0 <= i < ring.len() ==> edge_crosses(#[trigger] ring[i], ring_next(ring, i), p)
                == straddles(ring[i], ring_next(ring, i), p),
    ensures
        crossings_upto(ring, p, n) >= 0,
        (crossings_upto(ring, p, n) % 2 == 1) == (north_of(ring[0], p) != north_of(
            ring_at(ring, n),
            p,
        )),
    decreases n,
{
    if n > 0 {
        lemma_crossings_parity(ring, p, n - 1);
        assert(ring_at(ring, n - 1) == ring[n - 1]);
        assert(ring_next(ring, n - 1) == ring_at(ring, n));
    }
}

/// A position outside a box that holds every position of a ring is outside
/// the ring.
pub proof fn lemma_outside_box_outside_ring(ring: Seq<Coord>, b: BBox, p: Coord)
    requires
        forall|i: int| 0 <= i < ring.len() ==> b.holds(#[trigger] ring[i]),
        !b.holds(p),
    ensures
        !ring_contains(ring, p),
{
    let n = ring.len() as int;
    if n == 0 {
    } else if p.lat < b.min.lat || p.lat > b.max.lat {
        assert forall|i: int| 0 <= i < n implies !edge_crosses(
            #[trigger] ring[i],
            ring_next(ring, i),
            p,
        ) by {
            let j = if i + 1 < n {
                i + 1
            } else {
                0
            };
            assert(b.holds(ring[i]));
            assert(b.holds(ring[j]));
        }
        lemma_no_edge_crosses(ring, p, n);
    } else if p.lon > b.max.lon {
        assert forall|i: int| 0 <= i < n implies !edge_crosses(
            #[trigger] ring[i],
            ring_next(ring, i),
            p,
        ) by {
            let j = if i + 1 < n {
                i + 1
            } else {
                0
            };
            assert(b.holds(ring[i]));
            assert(b.holds(ring[j]));
            lemma_edge_west_of(ring[i], ring_next(ring, i), p);
        }
        lemma_no_edge_crosses(ring, p, n);
    } else {
        assert(p.lon < b.min.lon);
        assert forall|i: int| 0 <= i < n implies edge_crosses(
            #[trigger] ring[i],
            ring_next(ring, i),
            p,
        ) == straddles(ring[i], ring_next(ring, i), p) by {
            let j = if i + 1 < n {
                i + 1
            } else {
                0
            };
            assert(b.holds(ring[i]));
            assert(b.holds(ring[j]));
            if straddles(ring[i], ring_next(ring, i), p) {
                lemma_edge_east_of(ring[i], ring_next(ring, i), p);
            }
        }
        lemma_crossings_parity(ring, p, n);
    }
}

/// A position outside the box around the outer rings of a boundary is outside
/// the boundary; so is every position when there is no such box.
pub proof fn lemma_outside_outline_box(mp: MultiPolygon, p: Coord)
    requires
        match outline_box(mp) {
            Some(b) => !b.holds(p),
            None => true,
        },
    ensures
        !multipolygon_contains(mp, p),
{
    let polys = mp.polygons@;
    let n = polys.len() as int;
    assert forall|k: int| 0 <= k < n implies !polygon_contains(#[trigger] polys[k], p) by {
        let ring = polys[k].exterior@;
        match outline_box(mp) {
            Some(b) => {
                assert forall|i: int| 0 <= i < ring.len() implies b.holds(#[trigger] ring[i]) by {
                    lemma_outline_box_holds(polys, n, k, i);
                }
                lemma_outside_box_outside_ring(ring, b, p);
            },
            None => {
                lemma_no_outline_box(polys, n, k);
            },
        }
    }
}

/// The ring that runs along the border of a box.
pub open spec fn box_ring(b: BBox) -> Seq<Coord> {
    seq![
        b.min,
        Coord { lon: b.max.lon, lat: b.min.lat },
        b.max,
        Coord { lon: b.min.lon, lat: b.max.lat },
    ]
}

/// The ring along the border of a box contains every position strictly inside
/// the box and none outside of it. Of the border itself it contains the
/// lower and the western side, without their far ends.
pub proof fn lemma_box_ring_contains(b: BBox, p: Coord)
    requires
        b.min.lon < b.max.lon,
        b.min.lat < b.max.lat,
    ensures
        ring_contains(box_ring(b), p) <==> b.min.lon <= p.lon < b.max.lon && b.min.lat <= p.lat
            < b.max.lat,
{
    let ring = box_ring(b);
    let dy = b.max.lat - b.min.lat;
    let east = p.lon - b.max.lon;
    let west = p.lon - b.min.lon;
    reveal_with_fuel(crossings_upto, 5);
    assert(ring.len() == 4);
    assert(!edge_crosses(ring[0], ring[1], p));
    assert(!edge_crosses(ring[2], ring[3], p));
    assert((east * dy < 0) == (east < 0)) by (nonlinear_arith)
        requires
            dy > 0,
    ;
    assert((west * (-dy) > 0) == (west < 0)) by (nonlinear_arith)
        requires
            dy > 0,
    ;
    assert((p.lat - b.min.lat) * 0 == 0);
    assert((p.lat - b.max.lat) * 0 == 0);
    assert(edge_crosses(ring[1], ring[2], p) == (straddles(ring[1], ring[2], p) && east < 0));
    assert(edge_crosses(ring[3], ring[0], p) == (straddles(ring[3], ring[0], p) && west < 0));
    assert(crossings_upto(ring, p, 4) == (if edge_crosses(ring[1], ring[2], p) {
        1int
    } else {
        0int
    }) + (if edge_crosses(ring[3], ring[0], p) {
        1int
    } else {
        0int
    }));
}

} // verus!
