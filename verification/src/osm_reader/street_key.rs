//! The key under which the segments of one street meet: the name of the
//! street and the set of cities that contain it.

use crate::admin::Admin;
use crate::scan::{first_index, lemma_first_index, lemma_first_index_is};
use crate::text::{
    lemma_text_lt_total, lemma_text_lt_transitive, rank_str, text_lt, words_lt, words_lt_from,
    words_rank, Rank,
};
use std::sync::Arc;
use vstd::prelude::*;

verus! {

/// The condition "has an identity that does not come before `id`".
pub open spec fn id_not_before(id: Seq<char>) -> spec_fn(Arc<Admin>) -> bool {
    |a: Arc<Admin>| !text_lt(a.id@, id)
}

/// Whether the regions stand in the order of their identities, no identity
/// twice.
pub open spec fn admin_ids_increasing(s: Seq<Arc<Admin>>) -> bool {
    forall|i: int, j: int|
        0 <= i < j < s.len() ==> text_lt((#[trigger] s[i]).id@, (#[trigger] s[j]).id@)
}

/// The regions of a set after `a` is added: a region whose identity the set
/// holds already changes nothing, any other goes to its place in the order.
pub open spec fn set_with(s: Seq<Arc<Admin>>, a: Arc<Admin>) -> Seq<Arc<Admin>> {
    let k = first_index(s, id_not_before(a.id@));
    if k < s.len() && s[k].id@ == a.id@ {
        s
    } else {
        s.insert(k, a)
    }
}

/// The identities of regions, in their order.
pub open spec fn admin_ids(s: Seq<Arc<Admin>>) -> Seq<Seq<char>> {
    Seq::new(s.len(), |i: int| s[i].id@)
}

/// Adding a region to an ordered set leaves it ordered and keeps every region
/// of the set. Afterwards the set holds the identity of the region, and
/// nothing that was not in the set before but the region itself.
pub proof fn lemma_set_with_ordered(s: Seq<Arc<Admin>>, a: Arc<Admin>)
    requires
        admin_ids_increasing(s),
    ensures
        admin_ids_increasing(set_with(s, a)),
        forall|k: int| 0 <= k < s.len() ==> set_with(s, a).contains(#[trigger] s[k]),
        forall|k: int|
            0 <= k < set_with(s, a).len() ==> s.contains(#[trigger] set_with(s, a)[k]) || set_with(
                s,
                a,
            )[k] == a,
        exists|k: int| 0 <= k < set_with(s, a).len() && (#[trigger] set_with(s, a)[k]).id@ == a.id@,
{
    let k = first_index(s, id_not_before(a.id@));
    lemma_first_index(s, id_not_before(a.id@));
    let t = set_with(s, a);
    if !(k < s.len() && s[k].id@ == a.id@) {
        assert forall|i: int, j: int| 0 <= i < j < t.len() implies text_lt(
            (#[trigger] t[i]).id@,
            (#[trigger] t[j]).id@,
        ) by {
            if j < k {
                assert(t[i] == s[i] && t[j] == s[j]);
            } else if j == k {
                assert(t[i] == s[i]);
                assert(!id_not_before(a.id@)(s[i]));
            } else {
                assert(t[j] == s[j - 1]);
                assert(id_not_before(a.id@)(s[k]));
                lemma_text_lt_total(s[k].id@, a.id@);
                if k < j - 1 {
                    assert(text_lt(s[k].id@, s[j - 1].id@));
                    lemma_text_lt_transitive(a.id@, s[k].id@, s[j - 1].id@);
                }
                if i < k {
                    assert(t[i] == s[i]);
                    assert(text_lt(s[i].id@, s[j - 1].id@));
                } else if i == k {
                } else {
                    assert(t[i] == s[i - 1]);
                    assert(text_lt(s[i - 1].id@, s[j - 1].id@));
                }
            }
        }
        assert forall|j: int| 0 <= j < s.len() implies t.contains(#[trigger] s[j]) by {
            if j < k {
                assert(t[j] == s[j]);
            } else {
                assert(t[j + 1] == s[j]);
            }
        }
        assert forall|j: int| 0 <= j < t.len() implies s.contains(#[trigger] t[j]) || t[j]
            == a by {
            if j < k {
                assert(t[j] == s[j]);
            } else if j > k {
                assert(t[j] == s[j - 1]);
            }
        }
        assert(t[k].id@ == a.id@);
    } else {
        assert forall|j: int| 0 <= j < s.len() implies t.contains(#[trigger] s[j]) by {}
        assert(t[k].id@ == a.id@);
    }
}

/// A set of shared administrative regions: ordered by identity, no identity
/// twice.
#[derive(Clone, Debug)]
pub struct AdminSet {
    items: Vec<Arc<Admin>>,
}

impl View for AdminSet {
    type V = Seq<Arc<Admin>>;

    /// The regions of the set, in the order of their identities.
    closed spec fn view(&self) -> Seq<Arc<Admin>> {
        self.items@
    }
}

impl AdminSet {
    /// Whether the regions stand in the order of their identities, no
    /// identity twice.
    pub open spec fn wf(&self) -> bool {
        admin_ids_increasing(self@)
    }

    /// The empty set.
    pub fn new() -> (set: AdminSet)
        ensures
            set.wf(),
            set@ == Seq::<Arc<Admin>>::empty(),
    {
        AdminSet { items: Vec::new() }
    }

    /// The number of regions in the set.
    pub fn len(&self) -> (n: usize)
        ensures
            n == self@.len(),
    {
        self.items.len()
    }

    /// The regions of the set, in the order of their identities.
    pub fn as_vec(&self) -> (v: &Vec<Arc<Admin>>)
        ensures
            v@ == self@,
    {
        &self.items
    }

    /// Finds the place of an identity in the set, and whether the set holds
    /// the identity.
    fn find(&self, id: &str) -> (r: (usize, bool))
        ensures
            r.0 <= self@.len(),
            r.0 == first_index(self@, id_not_before(id@)),
            r.1 == (r.0 < self@.len() && self@[r.0 as int].id@ == id@),
    {
        let mut k: usize = 0;
        while k < self.items.len()
            invariant
                k <= self.items@.len(),
                forall|j: int| 0 <= j < k ==> !id_not_before(id@)(#[trigger] self.items@[j]),
            decreases self.items@.len() - k,
        {
            let r = rank_str(self.items[k].id.as_str(), id);
            proof {
                crate::text::lemma_text_lt_irreflexive(id@);
            }
            match r {
                Rank::Before => {},
                Rank::Same => {
                    proof {
                        lemma_first_index_is(self.items@, id_not_before(id@), k as int);
                    }
                    return (k, true);
                },
                Rank::After => {
                    proof {
                        lemma_first_index_is(self.items@, id_not_before(id@), k as int);
                    }
                    return (k, false);
                },
            }
            k += 1;
        }
        proof {
            lemma_first_index_is(self.items@, id_not_before(id@), k as int);
        }
        (k, false)
    }

    /// Adds a region, unless the set holds its identity already. Says whether
    /// the region was added.
    pub fn insert(&mut self, admin: Arc<Admin>) -> (added: bool)
        requires
            old(self).wf(),
        ensures
            final(self).wf(),
            final(self)@ == set_with(old(self)@, admin),
            added == (final(self)@.len() == old(self)@.len() + 1),
    {
        let (k, same) = self.find(admin.id.as_str());
        proof {
            lemma_set_with_ordered(self.items@, admin);
        }
        if same {
            false
        } else {
            self.items.insert(k, admin);
            true
        }
    }
}

/// The key of a street.
#[derive(Clone, Debug)]
pub struct StreetKey {
    pub name: String,
    /// The cities that contain the street.
    pub admins: AdminSet,
}

/// The words that a key is ordered by: the name, then the identities of the
/// cities in their order.
pub open spec fn key_words(name: Seq<char>, admins: Seq<Arc<Admin>>) -> Seq<Seq<char>> {
    seq![name] + admin_ids(admins)
}

/// The words of a key: first the name, then the identity of each city.
pub proof fn lemma_key_words(name: Seq<char>, admins: Seq<Arc<Admin>>)
    ensures
        key_words(name, admins).len() == admins.len() + 1,
        key_words(name, admins)[0] == name,
        forall|i: int|
            0 <= i < admins.len() ==> #[trigger] key_words(name, admins)[i + 1] == admins[i].id@,
{
}

impl StreetKey {
    /// The words that the key is ordered by.
    pub open spec fn words(&self) -> Seq<Seq<char>> {
        key_words(self.name@, self.admins@)
    }

    /// Compares two keys: by name, then by the identities of their cities,
    /// the first difference deciding.
    pub fn rank(&self, other: &StreetKey) -> (r: Rank)
        ensures
            r == words_rank(self.words(), other.words()),
    {
        let ghost a = self.words();
        let ghost b = other.words();
        let first = rank_str(self.name.as_str(), other.name.as_str());
        proof {
            lemma_key_words(self.name@, self.admins@);
            lemma_key_words(other.name@, other.admins@);
            crate::text::lemma_text_lt_irreflexive(self.name@);
        }
        match first {
            Rank::Before => {
                return Rank::Before;
            },
            Rank::After => {
                proof {
                    assert(a[0] != b[0]);
                }
                return Rank::After;
            },
            Rank::Same => {},
        }
        let x = self.admins.as_vec();
        let y = other.admins.as_vec();
        let n: usize = if x.len() < y.len() {
            x.len()
        } else {
            y.len()
        };
        let mut i: usize = 0;
        while i < n
            invariant
                i <= n,
                n <= x@.len(),
                n <= y@.len(),
                n == x@.len() || n == y@.len(),
                a == self.words(),
                b == other.words(),
                x@ == self.admins@,
                y@ == other.admins@,
                a.len() == x@.len() + 1,
                b.len() == y@.len() + 1,
                forall|j: int| 0 <= j < i + 1 ==> a[j] == b[j],
                words_lt(a, b) == words_lt_from(a, b, i as int + 1),
            decreases n - i,
        {
            let r = rank_str(x[i].id.as_str(), y[i].id.as_str());
            proof {
                lemma_key_words(self.name@, x@);
                lemma_key_words(other.name@, y@);
                assert(a[i as int + 1] == x@[i as int].id@);
                assert(b[i as int + 1] == y@[i as int].id@);
                crate::text::lemma_text_lt_irreflexive(x@[i as int].id@);
            }
            match r {
                Rank::Before => {
                    return Rank::Before;
                },
                Rank::After => {
                    proof {
                        assert(a[i as int + 1] != b[i as int + 1]);
                    }
                    return Rank::After;
                },
                Rank::Same => {},
            }
            i += 1;
        }
        if x.len() < y.len() {
            Rank::Before
        } else if x.len() == y.len() {
            assert(a =~= b);
            Rank::Same
        } else {
            assert(a.len() != b.len());
            Rank::After
        }
    }
}

} // verus!
