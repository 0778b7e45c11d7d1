//! The raw map data: nodes, ways and relations with their tags, and the graph
//! that holds them by identity.
//!
//! The graph is an ordered map from identity to object, as a reader of map
//! files hands it over: nodes first, then ways, then relations, each kind by
//! growing number. It is kept as a vector in that order, without two objects
//! of one identity.

use crate::scan::{first_index, lemma_first_index, lemma_first_index_is};
use crate::text::str_eq;
use vstd::prelude::*;

verus! {

/// The identity of an object of the map.
#[derive(Clone, Copy, PartialEq, Eq, Structural, Debug)]
pub enum OsmId {
    Node(i64),
    Way(i64),
    Relation(i64),
}

impl OsmId {
    /// The place of the kind among the kinds: nodes, ways, relations.
    pub open spec fn kind_rank(self) -> int {
        match self {
            OsmId::Node(_) => 0,
            OsmId::Way(_) => 1,
            OsmId::Relation(_) => 2,
        }
    }

    /// The number of the object within its kind.
    pub open spec fn spec_inner_id(self) -> i64 {
        match self {
            OsmId::Node(n) => n,
            OsmId::Way(n) => n,
            OsmId::Relation(n) => n,
        }
    }

    /// The order of identities: by kind, then by number.
    pub open spec fn precedes(self, other: OsmId) -> bool {
        self.kind_rank() < other.kind_rank() || (self.kind_rank() == other.kind_rank()
            && self.spec_inner_id() < other.spec_inner_id())
    }

    pub open spec fn spec_is_way(self) -> bool {
        self is Way
    }

    #[verifier::when_used_as_spec(spec_inner_id)]
    pub fn inner_id(self) -> (n: i64)
        ensures
            n == self.spec_inner_id(),
    {
        match self {
            OsmId::Node(n) => n,
            OsmId::Way(n) => n,
            OsmId::Relation(n) => n,
        }
    }

    #[verifier::when_used_as_spec(spec_is_way)]
    pub fn is_way(self) -> (r: bool)
        ensures
            r == self.spec_is_way(),
    {
        match self {
            OsmId::Way(_) => true,
            _ => false,
        }
    }

    /// Whether this identity comes before `other`.
    pub fn comes_before(self, other: OsmId) -> (r: bool)
        ensures
            r == self.precedes(other),
    {
        let a: u8 = match self {
            OsmId::Node(_) => 0,
            OsmId::Way(_) => 1,
            OsmId::Relation(_) => 2,
        };
        let b: u8 = match other {
            OsmId::Node(_) => 0,
            OsmId::Way(_) => 1,
            OsmId::Relation(_) => 2,
        };
        a < b || (a == b && self.inner_id() < other.inner_id())
    }
}

/// A key with its value.
#[derive(Clone, Debug)]
pub struct Tag {
    pub key: String,
    pub value: String,
}

/// The tags of an object. Where a key stands twice, its first value counts.
#[derive(Clone, Debug)]
pub struct Tags {
    pub entries: Vec<Tag>,
}

/// The condition "has the key `key`".
pub open spec fn tagged(key: Seq<char>) -> spec_fn(Tag) -> bool {
    |t: Tag| t.key@ == key
}

impl Tags {
    /// The value under `key`.
    pub open spec fn value_of(&self, key: Seq<char>) -> Option<Seq<char>> {
        let k = first_index(self.entries@, tagged(key));
        if k < self.entries@.len() {
            Some(self.entries@[k].value@)
        } else {
            None
        }
    }

    /// Whether `key` is there with a value that is not empty.
    pub open spec fn has_text(&self, key: Seq<char>) -> bool {
        self.value_of(key) matches Some(v) && v.len() > 0
    }

    pub fn new() -> (tags: Tags)
        ensures
            tags.entries@.len() == 0,
    {
        Tags { entries: Vec::new() }
    }

    /// Looks up the value under `key`.
    pub fn get(&self, key: &str) -> (r: Option<&String>)
        ensures
            match r {
                Some(v) => self.value_of(key@) == Some(v@),
                None => self.value_of(key@) is None,
            },
    {
        let mut i: usize = 0;
        while i < self.entries.len()
            invariant
                i <= self.entries@.len(),
                forall|j: int| 0 <= j < i ==> !tagged(key@)(#[trigger] self.entries@[j]),
            decreases self.entries@.len() - i,
        {
            if str_eq(self.entries[i].key.as_str(), key) {
                proof {
                    lemma_first_index_is(self.entries@, tagged(key@), i as int);
                }
                return Some(&self.entries[i].value);
            }
            i += 1;
        }
        proof {
            lemma_first_index_is(self.entries@, tagged(key@), i as int);
        }
        None
    }

    /// Whether `key` is there with exactly the value `value`.
    pub fn contains(&self, key: &str, value: &str) -> (r: bool)
        ensures
            r == (self.value_of(key@) == Some(value@)),
    {
        match self.get(key) {
            Some(v) => str_eq(v.as_str(), value),
            None => false,
        }
    }

    /// Whether `key` is there with a value that is not empty.
    pub fn has_value(&self, key: &str) -> (r: bool)
        ensures
            r == self.has_text(key@),
    {
        match self.get(key) {
            Some(v) => !v.as_str().is_empty(),
            None => false,
        }
    }
}

/// A point of the map.
#[derive(Clone, Debug)]
pub struct Node {
    pub id: i64,
    pub tags: Tags,
    /// The latitude, in units of 1e-7 degrees.
    pub decimicro_lat: i32,
    /// The longitude, in units of 1e-7 degrees.
    pub decimicro_lon: i32,
}

/// A line of the map: a chain of nodes, named by their numbers.
#[derive(Clone, Debug)]
pub struct Way {
    pub id: i64,
    pub tags: Tags,
    pub nodes: Vec<i64>,
}

/// A member of a relation, with the role it plays there.
#[derive(Clone, Debug)]
pub struct Ref {
    pub member: OsmId,
    pub role: String,
}

/// A group of objects of the map.
#[derive(Clone, Debug)]
pub struct Relation {
    pub id: i64,
    pub tags: Tags,
    pub refs: Vec<Ref>,
}

/// An object of the map.
#[derive(Clone, Debug)]
pub enum OsmObj {
    Node(Node),
    Way(Way),
    Relation(Relation),
}

impl OsmObj {
    pub open spec fn spec_id(&self) -> OsmId {
        match self {
            OsmObj::Node(n) => OsmId::Node(n.id),
            OsmObj::Way(w) => OsmId::Way(w.id),
            OsmObj::Relation(r) => OsmId::Relation(r.id),
        }
    }

    /// The identity of the object.
    #[verifier::when_used_as_spec(spec_id)]
    pub fn id(&self) -> (id: OsmId)
        ensures
            id == self.spec_id(),
    {
        match self {
            OsmObj::Node(n) => OsmId::Node(n.id),
            OsmObj::Way(w) => OsmId::Way(w.id),
            OsmObj::Relation(r) => OsmId::Relation(r.id),
        }
    }

    /// The tags of the object.
    pub fn tags(&self) -> (tags: &Tags)
        ensures
            *tags == match *self {
                OsmObj::Node(n) => n.tags,
                OsmObj::Way(w) => w.tags,
                OsmObj::Relation(r) => r.tags,
            },
    {
        match self {
            OsmObj::Node(n) => &n.tags,
            OsmObj::Way(w) => &w.tags,
            OsmObj::Relation(r) => &r.tags,
        }
    }
}

/// The condition "does not come before the identity `id`".
pub open spec fn not_before(id: OsmId) -> spec_fn(OsmObj) -> bool {
    |o: OsmObj| !o.spec_id().precedes(id)
}

/// Whether the objects stand in the order of their identities, no identity
/// twice.
pub open spec fn ids_increasing(objs: Seq<OsmObj>) -> bool {
    forall|i: int, j: int|
        0 <= i < j < objs.len() ==> (#[trigger] objs[i]).spec_id().precedes(
            (#[trigger] objs[j]).spec_id(),
        )
}

/// The place of the identity `id` among ordered objects: the index of its
/// object when there is one, else the index where it would go.
pub open spec fn slot_of(objs: Seq<OsmObj>, id: OsmId) -> int {
    first_index(objs, not_before(id))
}

/// The object with the identity `id`.
pub open spec fn lookup(objs: Seq<OsmObj>, id: OsmId) -> Option<OsmObj> {
    let k = slot_of(objs, id);
    if k < objs.len() && objs[k].spec_id() == id {
        Some(objs[k])
    } else {
        None
    }
}

/// The objects after `obj` is put among them: in place of the object with its
/// identity when there is one, else at its place in the order.
pub open spec fn with_obj(objs: Seq<OsmObj>, obj: OsmObj) -> Seq<OsmObj> {
    let k = slot_of(objs, obj.spec_id());
    if k < objs.len() && objs[k].spec_id() == obj.spec_id() {
        objs.update(k, obj)
    } else {
        objs.insert(k, obj)
    }
}

/// Among ordered objects, the object found under an identity is the one
/// object that has it; nothing is found when no object has it.
pub proof fn lemma_lookup(objs: Seq<OsmObj>, id: OsmId)
    requires
        ids_increasing(objs),
    ensures
        match lookup(objs, id) {
            Some(o) => o.spec_id() == id && objs.contains(o),
            None => forall|i: int| 0 <= i < objs.len() ==> (#[trigger] objs[i]).spec_id() != id,
        },
        forall|i: int|
            0 <= i < objs.len() && (#[trigger] objs[i]).spec_id() == id ==> lookup(objs, id)
                == Some(objs[i]),
{
    lemma_first_index(objs, not_before(id));
    let k = slot_of(objs, id);
    assert forall|i: int| 0 <= i < objs.len() && (#[trigger] objs[i]).spec_id() == id implies i
        == k by {
        assert(not_before(id)(objs[i]));
        if k < i {
            assert(objs[k].spec_id().precedes(objs[i].spec_id()));
            assert(not_before(id)(objs[k]));
        }
    }
}

/// Putting an object among ordered objects leaves them ordered. Afterwards
/// the object is found under its identity, and every other identity finds
/// what it found before.
pub proof fn lemma_with_obj(objs: Seq<OsmObj>, obj: OsmObj)
    requires
        ids_increasing(objs),
    ensures
        ids_increasing(with_obj(objs, obj)),
        lookup(with_obj(objs, obj), obj.spec_id()) == Some(obj),
        forall|id: OsmId|
            id != obj.spec_id() ==> #[trigger] lookup(with_obj(objs, obj), id) == lookup(objs, id),
{
    let id = obj.spec_id();
    let k = slot_of(objs, id);
    lemma_first_index(objs, not_before(id));
    let after = with_obj(objs, obj);
    let replaced = k < objs.len() && objs[k].spec_id() == id;
    assert forall|i: int, j: int| 0 <= i < j < after.len() implies (
    #[trigger] after[i]).spec_id().precedes((#[trigger] after[j]).spec_id()) by {
        if replaced {
            assert(objs[i].spec_id().precedes(objs[j].spec_id()));
        } else if j < k {
            assert(objs[i].spec_id().precedes(objs[j].spec_id()));
        } else if j == k {
            assert(!not_before(id)(objs[i]));
        } else if i < k {
            assert(objs[i].spec_id().precedes(objs[j - 1].spec_id()));
        } else if i == k {
            assert(not_before(id)(objs[k]));
            if k < j - 1 {
                assert(objs[k].spec_id().precedes(objs[j - 1].spec_id()));
            }
        } else {
            assert(objs[i - 1].spec_id().precedes(objs[j - 1].spec_id()));
        }
    }
    assert(after[k] == obj);
    lemma_lookup(after, id);
    assert forall|other: OsmId| other != id implies #[trigger] lookup(after, other) == lookup(
        objs,
        other,
    ) by {
        lemma_lookup(objs, other);
        lemma_lookup(after, other);
        match lookup(objs, other) {
            Some(o) => {
                let j = choose|j: int| 0 <= j < objs.len() && objs[j] == o;
                if replaced || j < k {
                    assert(after[j] == o);
                } else {
                    assert(after[j + 1] == o);
                }
            },
            None => {
                match lookup(after, other) {
                    Some(o) => {
                        let j = choose|j: int| 0 <= j < after.len() && after[j] == o;
                        if replaced || j < k {
                            assert(objs[j] == o);
                        } else {
                            assert(objs[j - 1] == o);
                        }
                    },
                    None => {},
                }
            },
        }
    }
}

/// The raw map data of an import: its objects by identity.
pub struct OsmGraph {
    objs: Vec<OsmObj>,
}

impl View for OsmGraph {
    type V = Seq<OsmObj>;

    /// The objects of the graph, in the order of their identities.
    closed spec fn view(&self) -> Seq<OsmObj> {
        self.objs@
    }
}

impl OsmGraph {
    /// Whether the objects stand in the order of their identities, no
    /// identity twice.
    pub open spec fn wf(&self) -> bool {
        ids_increasing(self@)
    }

    /// A graph without objects.
    pub fn new() -> (graph: OsmGraph)
        ensures
            graph.wf(),
            graph@ == Seq::<OsmObj>::empty(),
    {
        OsmGraph { objs: Vec::new() }
    }

    /// The number of objects.
    pub fn len(&self) -> (n: usize)
        ensures
            n == self@.len(),
    {
        self.objs.len()
    }

    /// The object at place `i` in the order of identities.
    pub fn obj(&self, i: usize) -> (o: &OsmObj)
        requires
            i < self@.len(),
        ensures
            *o == self@[i as int],
    {
        &self.objs[i]
    }

    fn find_slot(&self, id: OsmId) -> (k: usize)
        requires
            self.wf(),
        ensures
            k == slot_of(self@, id),
            k <= self@.len(),
    {
        let mut lo: usize = 0;
        let mut hi: usize = self.objs.len();
        while lo < hi
            invariant
                lo <= hi <= self.objs@.len(),
                ids_increasing(self.objs@),
                forall|j: int| 0 <= j < lo ==> !not_before(id)(#[trigger] self.objs@[j]),
                forall|j: int| hi <= j < self.objs@.len() ==> not_before(id)(#[trigger] self.objs@[j]),
            decreases hi - lo,
        {
            let mid: usize = lo + (hi - lo) / 2;
            if self.objs[mid].id().comes_before(id) {
                proof {
                    assert forall|j: int| 0 <= j < mid + 1 implies !not_before(id)(
                        #[trigger] self.objs@[j],
                    ) by {
                        if j < mid {
                            assert(self.objs@[j].spec_id().precedes(self.objs@[mid as int].spec_id()));
                        }
                    }
                }
                lo = mid + 1;
            } else {
                proof {
                    assert forall|j: int| mid <= j < self.objs@.len() implies not_before(id)(
                        #[trigger] self.objs@[j],
                    ) by {
                        if mid < j {
                            assert(self.objs@[mid as int].spec_id().precedes(self.objs@[j].spec_id()));
                        }
                    }
                }
                hi = mid;
            }
        }
        proof {
            lemma_first_index_is(self.objs@, not_before(id), lo as int);
        }
        lo
    }

    /// The object with the identity `id`.
    pub fn get(&self, id: OsmId) -> (r: Option<&OsmObj>)
        requires
            self.wf(),
        ensures
            match r {
                Some(o) => lookup(self@, id) == Some(*o),
                None => lookup(self@, id) is None,
            },
    {
        let k: usize = self.find_slot(id);
        if k < self.objs.len() && self.objs[k].id() == id {
            Some(&self.objs[k])
        } else {
            None
        }
    }

    /// Puts an object into the graph, in place of the object with the same
    /// identity when there is one.
    pub fn insert(&mut self, obj: OsmObj)
        requires
            old(self).wf(),
        ensures
            final(self).wf(),
            final(self)@ == with_obj(old(self)@, obj),
    {
        let id = obj.id();
        let k: usize = self.find_slot(id);
        proof {
            lemma_with_obj(self.objs@, obj);
        }
        if k < self.objs.len() && self.objs[k].id() == id {
            self.objs.set(k, obj);
        } else {
            self.objs.insert(k, obj);
        }
    }
}

} // verus!
