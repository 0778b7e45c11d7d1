//! The index that answers which administrative regions contain a position.
//!
//! The index is built once from the regions of an import and is read-only
//! afterwards. It keeps, beside each region, the box around the outer rings of
//! its boundary, and tests a boundary only when that box holds the position.

use crate::admin::{covering, most_specific_first, share, Admin};
use crate::coord::{BBox, Coord};
use crate::geometry::{
    bounding_box, lemma_outside_outline_box, multipolygon_contains_point, outline_box,
};
use crate::scan::{first_index, lemma_first_index_is};
use std::sync::Arc;
use vstd::prelude::*;

verus! {

/// The condition "has a level below `level`".
pub open spec fn coarser_than(level: u32) -> spec_fn(Arc<Admin>) -> bool {
    |a: Arc<Admin>| a.level < level
}

/// Whether a region can be found by position: it has a boundary whose outer
/// rings hold at least one position.
pub open spec fn has_outline(admin: Admin) -> bool {
    admin.boundary matches Some(b) && outline_box(b) is Some
}

/// The regions of an index after `admin` is added to it: a region that can be
/// found by position goes behind the regions of its level or a greater one,
/// and before the coarser ones; any other region is left out.
pub open spec fn with_admin(admins: Seq<Arc<Admin>>, admin: Admin) -> Seq<Arc<Admin>> {
    if has_outline(admin) {
        admins.insert(first_index(admins, coarser_than(admin.level)), Arc::new(admin))
    } else {
        admins
    }
}

/// The regions of an index to which the first `n` of `admins` were added in
/// turn.
pub open spec fn with_admins(admins: Seq<Admin>, n: int) -> Seq<Arc<Admin>>
    decreases n,
{
    if n <= 0 {
        Seq::empty()
    } else {
        with_admin(with_admins(admins, n - 1), admins[n - 1])
    }
}

/// The regions among `admins` that contain `p`, in the order of `admins`.
pub open spec fn admins_at(admins: Seq<Arc<Admin>>, p: Coord) -> Seq<Arc<Admin>> {
    admins.filter(covering(p))
}

/// A spatial index over administrative regions.
pub struct AdminGeoFinder {
    boxes: Vec<BBox>,
    admins: Vec<Arc<Admin>>,
}

impl View for AdminGeoFinder {
    type V = Seq<Arc<Admin>>;

    /// The regions of the index, the most specific first.
    closed spec fn view(&self) -> Seq<Arc<Admin>> {
        self.admins@
    }
}

impl AdminGeoFinder {
    /// Whether the index is consistent: each region has its box beside it, and
    /// the most specific regions come first.
    pub closed spec fn wf(&self) -> bool {
        &&& self.boxes@.len() == self.admins@.len()
        &&& forall|i: int|
            0 <= i < self.admins@.len() ==> (#[trigger] self.admins@[i]).boundary is Some
                && outline_box(self.admins@[i].boundary->0) == Some(self.boxes@[i])
        &&& most_specific_first(self.admins@)
    }

    /// In a consistent index the most specific regions come first, and every
    /// region can be found by position.
    pub proof fn lemma_wf(&self)
        requires
            self.wf(),
        ensures
            most_specific_first(self@),
            forall|i: int| 0 <= i < self@.len() ==> has_outline(*#[trigger] self@[i]),
    {
    }

    /// An index without regions.
    pub fn new() -> (finder: AdminGeoFinder)
        ensures
            finder.wf(),
            finder@ == Seq::<Arc<Admin>>::empty(),
    {
        AdminGeoFinder { boxes: Vec::new(), admins: Vec::new() }
    }

    /// Adds a region to the index. A region without a boundary, or whose
    /// boundary has no position on its outer rings, cannot contain anything
    /// and is left out.
    pub fn insert(&mut self, admin: Admin)
        requires
            old(self).wf(),
        ensures
            final(self).wf(),
            final(self)@ == with_admin(old(self)@, admin),
    {
        let found = match &admin.boundary {
            Some(b) => bounding_box(b),
            None => None,
        };
        match found {
            None => {},
            Some(bbox) => {
                let level: u32 = admin.level;
                let mut slot: usize = 0;
                while slot < self.admins.len() && self.admins[slot].level >= level
                    invariant
                        slot <= self.admins@.len(),
                        forall|j: int|
                            0 <= j < slot ==> !coarser_than(level)(#[trigger] self.admins@[j]),
                    decreases self.admins@.len() - slot,
                {
                    slot += 1;
                }
                proof {
                    lemma_first_index_is(self.admins@, coarser_than(level), slot as int);
                }
                let ghost before = self.admins@;
                proof {
                    lemma_with_admin(before, admin);
                }
                self.boxes.insert(slot, bbox);
                self.admins.insert(slot, Arc::new(admin));
                proof {
                    let after = self.admins@;
                    assert forall|i: int| 0 <= i < after.len() implies (
                    #[trigger] after[i]).boundary is Some && outline_box(after[i].boundary->0)
                        == Some(self.boxes@[i]) by {
                        if i < slot {
                            assert(after[i] == before[i]);
                        } else if i > slot {
                            assert(after[i] == before[i - 1]);
                        }
                    }
                }
            },
        }
    }

    /// Builds an index from the regions of an import, added in turn.
    pub fn from_admins(admins: Vec<Admin>) -> (finder: AdminGeoFinder)
        ensures
            finder.wf(),
            finder@ == with_admins(admins@, admins@.len() as int),
    {
        let mut finder = AdminGeoFinder::new();
        let ghost all = admins@;
        for admin in it: admins
            invariant
                it.seq() == all,
                finder.wf(),
                finder@ == with_admins(all, it.index() as int),
        {
            finder.insert(admin);
        }
        finder
    }

    /// The regions of the index, the most specific first.
    pub fn admins(&self) -> (r: &Vec<Arc<Admin>>)
        ensures
            r@ == self@,
    {
        &self.admins
    }

    /// The regions whose boundary contains `coord`, the most specific first;
    /// none when `coord` is outside every boundary.
    pub fn get(&self, coord: &Coord) -> (r: Vec<Arc<Admin>>)
        requires
            self.wf(),
        ensures
            r@ == admins_at(self@, *coord),
            most_specific_first(r@),
            forall|a: Arc<Admin>| r@.contains(a) <==> self@.contains(a) && a.covers(*coord),
    {
        let mut out: Vec<Arc<Admin>> = Vec::new();
        let mut i: usize = 0;
        proof {
            assert(self.admins@.take(0) =~= Seq::<Arc<Admin>>::empty());
            reveal(Seq::filter);
        }
        while i < self.admins.len()
            invariant
                i <= self.admins@.len(),
                self.wf(),
                out@ == self.admins@.take(i as int).filter(covering(*coord)),
            decreases self.admins@.len() - i,
        {
            let admin = &self.admins[i];
            let inside = self.boxes[i].contains(coord) && match &admin.boundary {
                Some(b) => multipolygon_contains_point(b, coord),
                None => false,
            };
            proof {
                if !self.boxes@[i as int].holds(*coord) {
                    lemma_outside_outline_box(admin.boundary->0, *coord);
                }
                assert(inside == covering(*coord)(*admin));
                assert(self.admins@.take(i as int + 1) =~= self.admins@.take(i as int).push(*admin));
                self.admins@.take(i as int).lemma_filter_push(*admin, covering(*coord));
            }
            if inside {
                out.push(share(admin));
            }
            i += 1;
        }
        proof {
            assert(self.admins@.take(i as int) =~= self.admins@);
            lemma_admins_at_order(self.admins@, *coord);
            assert forall|a: Arc<Admin>| out@.contains(a) <==> self.admins@.contains(a) && a.covers(
                *coord,
            ) by {
                lemma_admins_at_complete(self.admins@, *coord, a);
            }
        }
        out
    }
}

/// A region is among those found at `p` exactly when it is in the index and
/// contains `p`.
pub proof fn lemma_admins_at_complete(admins: Seq<Arc<Admin>>, p: Coord, a: Arc<Admin>)
    ensures
        admins_at(admins, p).contains(a) <==> admins.contains(a) && a.covers(p),
{
    let found = admins_at(admins, p);
    if found.contains(a) {
        let k = choose|k: int| 0 <= k < found.len() && found[k] == a;
        admins.lemma_filter_pred(covering(p), k);
        admins.lemma_filter_contains_rev(covering(p), a);
    }
    if admins.contains(a) && a.covers(p) {
        let k = choose|k: int| 0 <= k < admins.len() && admins[k] == a;
        admins.lemma_filter_contains(covering(p), k);
    }
}

/// Where no region contains `p`, nothing is found at `p`.
pub proof fn lemma_admins_at_outside(admins: Seq<Arc<Admin>>, p: Coord)
    requires
        forall|i: int| 0 <= i < admins.len() ==> !(#[trigger] admins[i]).covers(p),
    ensures
        admins_at(admins, p).len() == 0,
{
    let found = admins_at(admins, p);
    if found.len() > 0 {
        lemma_admins_at_complete(admins, p, found[0]);
        let k = choose|k: int| 0 <= k < admins.len() && admins[k] == found[0];
        assert(!admins[k].covers(p));
    }
}

/// The regions found at a position keep the order of the index: the most
/// specific come first.
pub proof fn lemma_admins_at_order(admins: Seq<Arc<Admin>>, p: Coord)
    requires
        most_specific_first(admins),
    ensures
        most_specific_first(admins_at(admins, p)),
    decreases admins.len(),
{
    reveal(Seq::filter);
    if admins.len() > 0 {
        let front = admins.drop_last();
        let last = admins.last();
        assert forall|i: int, j: int| 0 <= i < j < front.len() implies (#[trigger] front[i]).level
            >= (#[trigger] front[j]).level by {
            assert(front[i] == admins[i] && front[j] == admins[j]);
        }
        lemma_admins_at_order(front, p);
        let found = admins_at(admins, p);
        let found_front = admins_at(front, p);
        if covering(p)(last) {
            assert(found == found_front.push(last));
            assert forall|i: int, j: int| 0 <= i < j < found.len() implies (#[trigger] found[i]).level
                >= (#[trigger] found[j]).level by {
                if j == found.len() - 1 {
                    assert(found[i] == found_front[i]);
                    lemma_admins_at_complete(front, p, found_front[i]);
                    let k = choose|k: int| 0 <= k < front.len() && front[k] == found_front[i];
                    assert(admins[k] == front[k]);
                    assert(admins[k].level >= admins[admins.len() - 1].level);
                } else {
                    assert(found[i] == found_front[i] && found[j] == found_front[j]);
                }
            }
        } else {
            assert(found == found_front);
        }
    }
}

/// A region that contains a position can be found by position.
pub proof fn lemma_covers_has_outline(admin: Admin, p: Coord)
    requires
        admin.covers(p),
    ensures
        has_outline(admin),
{
    let mp = admin.boundary->0;
    if outline_box(mp) is None {
        lemma_outside_outline_box(mp, p);
    }
}

/// Adding a region keeps the most specific regions first and keeps every
/// region of the index; a region that can be found by position is in the
/// index afterwards.
pub proof fn lemma_with_admin(admins: Seq<Arc<Admin>>, admin: Admin)
    requires
        most_specific_first(admins),
    ensures
        most_specific_first(with_admin(admins, admin)),
        forall|i: int| 0 <= i < admins.len() ==> with_admin(admins, admin).contains(
            #[trigger] admins[i],
        ),
        has_outline(admin) ==> with_admin(admins, admin).contains(Arc::new(admin)),
{
    if has_outline(admin) {
        let level = admin.level;
        let slot = first_index(admins, coarser_than(level));
        crate::scan::lemma_first_index(admins, coarser_than(level));
        let after = with_admin(admins, admin);
        assert(after[slot] == Arc::new(admin));
        assert forall|i: int, j: int| 0 <= i < j < after.len() implies (#[trigger] after[i]).level
            >= (#[trigger] after[j]).level by {
            if j < slot {
                assert(after[i] == admins[i] && after[j] == admins[j]);
            } else if j == slot {
                assert(after[i] == admins[i]);
                assert(!coarser_than(level)(admins[i]));
            } else {
                assert(after[j] == admins[j - 1]);
                assert(coarser_than(level)(admins[slot]));
                if slot < j - 1 {
                    assert(admins[slot].level >= admins[j - 1].level);
                }
                if i < slot {
                    assert(after[i] == admins[i]);
                    assert(!coarser_than(level)(admins[i]));
                } else if i > slot {
                    assert(after[i] == admins[i - 1]);
                }
            }
        }
        assert forall|i: int| 0 <= i < admins.len() implies after.contains(
            #[trigger] admins[i],
        ) by {
            if i < slot {
                assert(after[i] == admins[i]);
            } else {
                assert(after[i + 1] == admins[i]);
            }
        }
    } else {
        assert forall|i: int| 0 <= i < admins.len() implies admins.contains(
            #[trigger] admins[i],
        ) by {}
    }
}

/// An index built from regions has its most specific regions first, and holds
/// each of the regions that can be found by position.
pub proof fn lemma_with_admins(admins: Seq<Admin>, n: int)
    requires
        0 <= n <= admins.len(),
    ensures
        most_specific_first(with_admins(admins, n)),
        forall|i: int|
            0 <= i < n && has_outline(#[trigger] admins[i]) ==> with_admins(admins, n).contains(
                Arc::new(admins[i]),
            ),
    decreases n,
{
    if n > 0 {
        lemma_with_admins(admins, n - 1);
        let before = with_admins(admins, n - 1);
        let after = with_admins(admins, n);
        lemma_with_admin(before, admins[n - 1]);
        assert forall|i: int| 0 <= i < n && has_outline(#[trigger] admins[i]) implies after.contains(
            Arc::new(admins[i]),
        ) by {
            if i < n - 1 {
                let a: Arc<Admin> = Arc::new(admins[i]);
                assert(before.contains(a));
                let k = choose|k: int| 0 <= k < before.len() && before[k] == a;
                assert(after.contains(before[k]));
            }
        }
    }
}

/// Every region of an import that contains a position is found at that
/// position in the index built from the import: a position inside a city and
/// inside the department around it finds both.
pub proof fn lemma_found_where_contained(admins: Seq<Admin>, i: int, p: Coord)
    requires
        0 <= i < admins.len(),
        admins[i].covers(p),
    ensures
        admins_at(with_admins(admins, admins.len() as int), p).contains(Arc::new(admins[i])),
{
    lemma_covers_has_outline(admins[i], p);
    lemma_with_admins(admins, admins.len() as int);
    lemma_admins_at_complete(with_admins(admins, admins.len() as int), p, Arc::new(admins[i]));
}

} // verus!
