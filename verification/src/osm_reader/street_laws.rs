//! What holds of the streets of every graph: no street twice, no street for
//! a way that a relation has taken, each group stood for by its way of the
//! smallest number, and the streets of the groups in the order of their keys.

use crate::admin::Admin;
use crate::objects::StreetView;
use crate::osm::{ids_increasing, OsmId, OsmObj, Ref};
use crate::osm_reader::osm_utils::midpoint;
use crate::osm_reader::street_key::{admin_ids_increasing, lemma_set_with_ordered};
use crate::osm_reader::street::{
    city_set, excluded_ways, is_associated_street, is_free_segment, member_ways, relation_street_at,
    relation_street_id, relation_streets, street_groups, street_list, way_groups,
    way_street_at, way_street_id, way_streets, way_words_at, with_way, words_not_before, GroupView,
};
use crate::scan::{first_index, lemma_first_index};
use crate::text::{
    decimal, lemma_decimal_injective, lemma_words_lt_irreflexive, lemma_words_lt_total,
    lemma_words_lt_transitive, words_lt,
};
use std::sync::Arc;
use vstd::prelude::*;

verus! {

proof fn lemma_prefix_cancels(p: Seq<char>, a: Seq<char>, b: Seq<char>)
    requires
        p + a == p + b,
    ensures
        a == b,
{
    assert(a =~= (p + a).subrange(p.len() as int, (p + a).len() as int));
    assert(b =~= (p + b).subrange(p.len() as int, (p + b).len() as int));
}

/// Two ways with the same street identity are the same way.
pub proof fn lemma_way_street_id_injective(a: i64, b: i64)
    requires
        way_street_id(a) == way_street_id(b),
    ensures
        a == b,
{
    lemma_prefix_cancels("street:osm:way:"@, decimal(a as int), decimal(b as int));
    lemma_decimal_injective(a as int, b as int);
}

/// Two relations with the same street identity are the same relation.
pub proof fn lemma_relation_street_id_injective(a: i64, b: i64)
    requires
        relation_street_id(a) == relation_street_id(b),
    ensures
        a == b,
{
    lemma_prefix_cancels("street:osm:relation:"@, decimal(a as int), decimal(b as int));
    lemma_decimal_injective(a as int, b as int);
}

/// The street of a relation and the street of a way never share an identity.
pub proof fn lemma_street_id_kinds(a: i64, b: i64)
    ensures
        relation_street_id(a) != way_street_id(b),
{
    reveal_strlit("street:osm:relation:");
    reveal_strlit("street:osm:way:");
    assert(relation_street_id(a)[11] == 'r');
    assert(way_street_id(b)[11] == 'w');
}

/// The number of the object at place `i`.
pub open spec fn number_at(objs: Seq<OsmObj>, i: int) -> i64 {
    objs[i].spec_id().spec_inner_id()
}

/// The places of the relations among the first `n` objects that give a
/// street, in their order.
pub open spec fn relation_sources(objs: Seq<OsmObj>, finder: Seq<Arc<Admin>>, n: int) -> Seq<int>
    decreases n,
{
    if n <= 0 {
        Seq::empty()
    } else {
        let before = relation_sources(objs, finder, n - 1);
        if relation_street_at(objs, finder, n - 1) is Some {
            before.push(n - 1)
        } else {
            before
        }
    }
}

/// Whether `sources` names, for each of `streets`, the relation that gave it.
pub open spec fn sources_match(
    objs: Seq<OsmObj>,
    finder: Seq<Arc<Admin>>,
    sources: Seq<int>,
    streets: Seq<StreetView>,
    n: int,
) -> bool {
    &&& sources.len() == streets.len()
    &&& forall|k: int|
        0 <= k < sources.len() ==> 0 <= #[trigger] sources[k] < n && relation_street_at(
            objs,
            finder,
            sources[k],
        ) == Some(streets[k])
    &&& forall|k1: int, k2: int|
        0 <= k1 < k2 < sources.len() ==> #[trigger] sources[k1] < #[trigger] sources[k2]
    &&& forall|r: int|
        0 <= r < n && #[trigger] relation_street_at(objs, finder, r) is Some ==> sources.contains(
            r,
        )
}

/// Each street of the first phase comes from one relation, the relations in
/// the order of the graph, and each relation that gives a street is there.
pub proof fn lemma_relation_sources(objs: Seq<OsmObj>, finder: Seq<Arc<Admin>>, n: int)
    requires
        0 <= n <= objs.len(),
    ensures
        sources_match(
            objs,
            finder,
            relation_sources(objs, finder, n),
            relation_streets(objs, finder, n),
            n,
        ),
    decreases n,
{
    if n > 0 {
        lemma_relation_sources(objs, finder, n - 1);
        let before = relation_sources(objs, finder, n - 1);
        let after = relation_sources(objs, finder, n);
        assert forall|r: int|
            0 <= r < n && #[trigger] relation_street_at(objs, finder, r) is Some implies after.contains(
            r,
        ) by {
            if r < n - 1 {
                assert(before.contains(r));
                let k = choose|k: int| 0 <= k < before.len() && before[k] == r;
                assert(after[k] == r);
            } else {
                assert(after[after.len() - 1] == r);
            }
        }
    }
}

/// The street of a relation carries the identity of the relation.
pub proof fn lemma_relation_street_id(objs: Seq<OsmObj>, finder: Seq<Arc<Admin>>, r: int)
    requires
        relation_street_at(objs, finder, r) is Some,
    ensures
        objs[r] is Relation,
        relation_street_at(objs, finder, r)->0.id == relation_street_id(number_at(objs, r)),
{
}

/// Whether a group is what it should be: it names a street segment among the
/// first `n` objects that was not set aside, and has the key of that way.
pub open spec fn group_sound(
    objs: Seq<OsmObj>,
    finder: Seq<Arc<Admin>>,
    excluded: Set<i64>,
    g: GroupView,
    n: int,
) -> bool {
    &&& 0 <= g.way < n
    &&& is_free_segment(objs, excluded, g.way)
    &&& g.words == way_words_at(objs, finder, g.way)
}

/// Whether the groups stand in the order of their keys, no key twice.
pub open spec fn groups_increasing(groups: Seq<GroupView>) -> bool {
    forall|i: int, j: int|
        0 <= i < j < groups.len() ==> words_lt((#[trigger] groups[i]).words, (#[trigger] groups[j]).words)
}

/// Whether there is a group with the key `words`, stood for by a way at place
/// `i` or before.
pub open spec fn has_group(groups: Seq<GroupView>, words: Seq<Seq<char>>, i: int) -> bool {
    exists|k: int| 0 <= k < groups.len() && (#[trigger] groups[k]).words == words && groups[k].way <= i
}

/// Whether the groups are those of the street segments among the first `n`
/// objects: each group sound, the groups in the order of their keys, and each
/// segment in the group of its key, behind the way that stands for the group.
pub open spec fn groups_complete(
    objs: Seq<OsmObj>,
    finder: Seq<Arc<Admin>>,
    excluded: Set<i64>,
    groups: Seq<GroupView>,
    n: int,
) -> bool {
    &&& forall|k: int|
        0 <= k < groups.len() ==> group_sound(objs, finder, excluded, #[trigger] groups[k], n)
    &&& groups_increasing(groups)
    &&& forall|i: int|
        0 <= i < n && #[trigger] is_free_segment(objs, excluded, i) ==> has_group(
            groups,
            way_words_at(objs, finder, i),
            i,
        )
}

/// Putting a way into ordered groups leaves them ordered, keeps every group,
/// and adds at most the group that the way founds.
pub proof fn lemma_with_way(groups: Seq<GroupView>, words: Seq<Seq<char>>, way: int)
    requires
        groups_increasing(groups),
    ensures
        groups_increasing(with_way(groups, words, way)),
        forall|k: int|
            0 <= k < groups.len() ==> with_way(groups, words, way).contains(#[trigger] groups[k]),
        forall|k: int|
            0 <= k < with_way(groups, words, way).len() ==> groups.contains(
                #[trigger] with_way(groups, words, way)[k],
            ) || with_way(groups, words, way)[k] == (GroupView { words, way }),
        exists|k: int|
            0 <= k < with_way(groups, words, way).len() && (#[trigger] with_way(
                groups,
                words,
                way,
            )[k]).words == words && (groups.contains(with_way(groups, words, way)[k]) || with_way(
                groups,
                words,
                way,
            )[k].way == way),
{
    let k = first_index(groups, words_not_before(words));
    lemma_first_index(groups, words_not_before(words));
    let after = with_way(groups, words, way);
    if k < groups.len() && groups[k].words == words {
        assert(after[k].words == words && groups.contains(after[k]));
    } else {
        assert forall|i: int, j: int| 0 <= i < j < after.len() implies words_lt(
            (#[trigger] after[i]).words,
            (#[trigger] after[j]).words,
        ) by {
            if j < k {
                assert(after[i] == groups[i] && after[j] == groups[j]);
            } else if j == k {
                assert(after[i] == groups[i]);
                assert(!words_not_before(words)(groups[i]));
            } else {
                assert(after[j] == groups[j - 1]);
                assert(words_not_before(words)(groups[k]));
                lemma_words_lt_total(groups[k].words, words);
                if k < j - 1 {
                    assert(words_lt(groups[k].words, groups[j - 1].words));
                    lemma_words_lt_transitive(words, groups[k].words, groups[j - 1].words);
                }
                if i < k {
                    assert(after[i] == groups[i]);
                    assert(words_lt(groups[i].words, groups[j - 1].words));
                } else if i > k {
                    assert(after[i] == groups[i - 1]);
                    assert(words_lt(groups[i - 1].words, groups[j - 1].words));
                }
            }
        }
        assert forall|j: int| 0 <= j < groups.len() implies after.contains(
            #[trigger] groups[j],
        ) by {
            if j < k {
                assert(after[j] == groups[j]);
            } else {
                assert(after[j + 1] == groups[j]);
            }
        }
        assert forall|j: int| 0 <= j < after.len() implies groups.contains(#[trigger] after[j])
            || after[j] == (GroupView { words, way }) by {
            if j < k {
                assert(after[j] == groups[j]);
            } else if j > k {
                assert(after[j] == groups[j - 1]);
            }
        }
        assert(after[k].words == words && after[k].way == way);
    }
}

/// The groups of the street segments among the first `n` objects are sound,
/// ordered and complete.
#[verifier::rlimit(50)]
pub proof fn lemma_way_groups(
    objs: Seq<OsmObj>,
    finder: Seq<Arc<Admin>>,
    excluded: Set<i64>,
    n: int,
)
    requires
        0 <= n <= objs.len(),
    ensures
        groups_complete(objs, finder, excluded, way_groups(objs, finder, excluded, n), n),
    decreases n,
{
    if n > 0 {
        lemma_way_groups(objs, finder, excluded, n - 1);
        let before = way_groups(objs, finder, excluded, n - 1);
        let after = way_groups(objs, finder, excluded, n);
        if is_free_segment(objs, excluded, n - 1) {
            let words = way_words_at(objs, finder, n - 1);
            lemma_with_way(before, words, n - 1);
            assert forall|k: int| 0 <= k < after.len() implies group_sound(
                objs,
                finder,
                excluded,
                #[trigger] after[k],
                n,
            ) by {
                if before.contains(after[k]) {
                    let j = choose|j: int| 0 <= j < before.len() && before[j] == after[k];
                    assert(group_sound(objs, finder, excluded, before[j], n - 1));
                }
            }
            assert forall|i: int|
                0 <= i < n && #[trigger] is_free_segment(objs, excluded, i) implies has_group(
                after,
                way_words_at(objs, finder, i),
                i,
            ) by {
                if i < n - 1 {
                    assert(has_group(before, way_words_at(objs, finder, i), i));
                    let j = choose|j: int|
                        0 <= j < before.len() && (#[trigger] before[j]).words == way_words_at(
                            objs,
                            finder,
                            i,
                        ) && before[j].way <= i;
                    assert(after.contains(before[j]));
                    let k = choose|k: int| 0 <= k < after.len() && after[k] == before[j];
                    assert(after[k].words == way_words_at(objs, finder, i) && after[k].way <= i);
                } else {
                    let k = choose|k: int|
                        0 <= k < after.len() && (#[trigger] after[k]).words == words && (
                        before.contains(after[k]) || after[k].way == n - 1);
                    if before.contains(after[k]) {
                        let j = choose|j: int| 0 <= j < before.len() && before[j] == after[k];
                        assert(group_sound(objs, finder, excluded, before[j], n - 1));
                    }
                    assert(after[k].way <= i);
                }
            }
        } else {
            assert forall|k: int| 0 <= k < after.len() implies group_sound(
                objs,
                finder,
                excluded,
                #[trigger] after[k],
                n,
            ) by {
                assert(group_sound(objs, finder, excluded, before[k], n - 1));
            }
        }
    }
}

/// Where every group names a way, each group gives one street, in the order
/// of the groups.
pub proof fn lemma_way_streets(
    objs: Seq<OsmObj>,
    finder: Seq<Arc<Admin>>,
    groups: Seq<GroupView>,
    m: int,
)
    requires
        0 <= m <= groups.len(),
        forall|k: int| 0 <= k < groups.len() ==> objs[(#[trigger] groups[k]).way] is Way,
    ensures
        way_streets(objs, finder, groups, m).len() == m,
        forall|k: int|
            0 <= k < m ==> way_street_at(objs, finder, groups[k].way) == Some(
                #[trigger] way_streets(objs, finder, groups, m)[k],
            ),
    decreases m,
{
    if m > 0 {
        lemma_way_streets(objs, finder, groups, m - 1);
        assert(objs[groups[m - 1].way] is Way);
    }
}

/// Whether the streets are made as the builder makes them: first the streets
/// of the relations named by `sources`, then one street for each of `groups`.
pub open spec fn streets_explained(
    objs: Seq<OsmObj>,
    finder: Seq<Arc<Admin>>,
    streets: Seq<StreetView>,
    sources: Seq<int>,
    groups: Seq<GroupView>,
) -> bool {
    &&& streets.len() == sources.len() + groups.len()
    &&& forall|k: int|
        0 <= k < sources.len() ==> relation_street_at(objs, finder, sources[k]) == Some(
            #[trigger] streets[k],
        )
    &&& forall|k: int|
        sources.len() <= k < streets.len() ==> way_street_at(
            objs,
            finder,
            groups[k - sources.len()].way,
        ) == Some(#[trigger] streets[k])
}

/// The streets of a graph are the streets of its relations that give one,
/// followed by one street for each group of its free street segments.
pub proof fn lemma_street_list(objs: Seq<OsmObj>, finder: Seq<Arc<Admin>>)
    ensures
        sources_match(
            objs,
            finder,
            relation_sources(objs, finder, objs.len() as int),
            relation_streets(objs, finder, objs.len() as int),
            objs.len() as int,
        ),
        groups_complete(
            objs,
            finder,
            excluded_ways(objs, objs.len() as int),
            street_groups(objs, finder),
            objs.len() as int,
        ),
        streets_explained(
            objs,
            finder,
            street_list(objs, finder),
            relation_sources(objs, finder, objs.len() as int),
            street_groups(objs, finder),
        ),
{
    let n = objs.len() as int;
    let excluded = excluded_ways(objs, n);
    let groups = street_groups(objs, finder);
    let sources = relation_sources(objs, finder, n);
    let streets = street_list(objs, finder);
    lemma_relation_sources(objs, finder, n);
    lemma_way_groups(objs, finder, excluded, n);
    assert forall|k: int| 0 <= k < groups.len() implies objs[(#[trigger] groups[k]).way] is Way by {
        assert(group_sound(objs, finder, excluded, groups[k], n));
    }
    lemma_way_streets(objs, finder, groups, groups.len() as int);
    let ws = way_streets(objs, finder, groups, groups.len() as int);
    assert forall|k: int| sources.len() <= k < streets.len() implies way_street_at(
        objs,
        finder,
        groups[k - sources.len()].way,
    ) == Some(#[trigger] streets[k]) by {
        assert(streets[k] == ws[k - sources.len()]);
    }
    assert forall|k: int| 0 <= k < sources.len() implies relation_street_at(
        objs,
        finder,
        sources[k],
    ) == Some(#[trigger] streets[k]) by {
        assert(streets[k] == relation_streets(objs, finder, n)[k]);
    }
}

/// The identity of the street made from the object of identity `id`.
pub open spec fn street_id_of(id: OsmId) -> Seq<char> {
    match id {
        OsmId::Node(_) => Seq::empty(),
        OsmId::Way(n) => way_street_id(n),
        OsmId::Relation(n) => relation_street_id(n),
    }
}

/// Two objects that give a street of the same identity are the same object.
pub proof fn lemma_street_id_of_injective(a: OsmId, b: OsmId)
    requires
        !(a is Node),
        !(b is Node),
        street_id_of(a) == street_id_of(b),
    ensures
        a == b,
{
    match (a, b) {
        (OsmId::Way(x), OsmId::Way(y)) => {
            lemma_way_street_id_injective(x, y);
        },
        (OsmId::Relation(x), OsmId::Relation(y)) => {
            lemma_relation_street_id_injective(x, y);
        },
        (OsmId::Relation(x), OsmId::Way(y)) => {
            lemma_street_id_kinds(x, y);
        },
        (OsmId::Way(x), OsmId::Relation(y)) => {
            lemma_street_id_kinds(y, x);
        },
        _ => {},
    }
}

/// The place in the graph of the object that the street at place `k` of the
/// streets was made from: a relation for a street of the first phase, the way
/// that stands for its group for a street of the second.
pub open spec fn origin(objs: Seq<OsmObj>, finder: Seq<Arc<Admin>>, k: int) -> int {
    let sources = relation_sources(objs, finder, objs.len() as int);
    if k < sources.len() {
        sources[k]
    } else {
        street_groups(objs, finder)[k - sources.len()].way
    }
}

/// Each street carries the identity of the object it was made from: a
/// relation that gives that street, or a street segment that no relation has
/// taken and that gives that street.
pub proof fn lemma_origin(objs: Seq<OsmObj>, finder: Seq<Arc<Admin>>, k: int)
    requires
        0 <= k < street_list(objs, finder).len(),
    ensures
        0 <= origin(objs, finder, k) < objs.len(),
        street_list(objs, finder)[k].id == street_id_of(
            objs[origin(objs, finder, k)].spec_id(),
        ),
        !(objs[origin(objs, finder, k)] is Node),
        objs[origin(objs, finder, k)] is Relation ==> relation_street_at(
            objs,
            finder,
            origin(objs, finder, k),
        ) == Some(street_list(objs, finder)[k]),
        objs[origin(objs, finder, k)] is Way ==> is_free_segment(
            objs,
            excluded_ways(objs, objs.len() as int),
            origin(objs, finder, k),
        ) && way_street_at(objs, finder, origin(objs, finder, k)) == Some(
            street_list(objs, finder)[k],
        ),
{
    let n = objs.len() as int;
    let excluded = excluded_ways(objs, n);
    let groups = street_groups(objs, finder);
    let sources = relation_sources(objs, finder, n);
    let streets = street_list(objs, finder);
    lemma_street_list(objs, finder);
    if k < sources.len() {
        assert(relation_street_at(objs, finder, sources[k]) == Some(streets[k]));
        lemma_relation_street_id(objs, finder, sources[k]);
    } else {
        let g = groups[k - sources.len()];
        assert(group_sound(objs, finder, excluded, g, n));
        assert(way_street_at(objs, finder, g.way) == Some(streets[k]));
    }
}

/// Two streets at different places were made from different objects.
pub proof fn lemma_origins_differ(objs: Seq<OsmObj>, finder: Seq<Arc<Admin>>, i: int, j: int)
    requires
        0 <= i < j < street_list(objs, finder).len(),
    ensures
        origin(objs, finder, i) != origin(objs, finder, j),
{
    let n = objs.len() as int;
    let excluded = excluded_ways(objs, n);
    let groups = street_groups(objs, finder);
    let sources = relation_sources(objs, finder, n);
    lemma_street_list(objs, finder);
    let r = sources.len() as int;
    if j < r {
        assert(sources[i] < sources[j]);
    } else if i < r {
        lemma_origin(objs, finder, i);
        lemma_origin(objs, finder, j);
        let g = groups[j - r];
        assert(group_sound(objs, finder, excluded, g, n));
        assert(relation_street_at(objs, finder, sources[i]) is Some);
    } else {
        let g = groups[i - r];
        let h = groups[j - r];
        assert(group_sound(objs, finder, excluded, g, n));
        assert(group_sound(objs, finder, excluded, h, n));
        assert(words_lt(g.words, h.words));
        lemma_words_lt_irreflexive(g.words);
    }
}

/// In an ordered graph, objects at different places have different
/// identities.
pub proof fn lemma_places_differ(objs: Seq<OsmObj>, i: int, j: int)
    requires
        ids_increasing(objs),
        0 <= i < objs.len(),
        0 <= j < objs.len(),
        i != j,
    ensures
        objs[i].spec_id() != objs[j].spec_id(),
{
    if i < j {
        assert(objs[i].spec_id().precedes(objs[j].spec_id()));
    } else {
        assert(objs[j].spec_id().precedes(objs[i].spec_id()));
    }
}

/// No two streets of a graph share an identity: every street of the real
/// world is there once.
pub proof fn lemma_street_ids_distinct(objs: Seq<OsmObj>, finder: Seq<Arc<Admin>>)
    requires
        ids_increasing(objs),
    ensures
        forall|i: int, j: int|
            0 <= i < j < street_list(objs, finder).len() ==> (#[trigger] street_list(
                objs,
                finder,
            )[i]).id != (#[trigger] street_list(objs, finder)[j]).id,
{
    let streets = street_list(objs, finder);
    assert forall|i: int, j: int| 0 <= i < j < streets.len() implies (#[trigger] streets[i]).id != (
    #[trigger] streets[j]).id by {
        lemma_origin(objs, finder, i);
        lemma_origin(objs, finder, j);
        lemma_origins_differ(objs, finder, i, j);
        let a = origin(objs, finder, i);
        let b = origin(objs, finder, j);
        lemma_places_differ(objs, a, b);
        if streets[i].id == streets[j].id {
            lemma_street_id_of_injective(objs[a].spec_id(), objs[b].spec_id());
        }
    }
}

/// Building the streets of one graph twice gives the same streets: as many,
/// with the same identities.
pub proof fn lemma_streets_repeatable(
    objs: Seq<OsmObj>,
    finder: Seq<Arc<Admin>>,
    first: Seq<StreetView>,
    second: Seq<StreetView>,
)
    requires
        first == street_list(objs, finder),
        second == street_list(objs, finder),
    ensures
        first.len() == second.len(),
        forall|k: int| 0 <= k < first.len() ==> (#[trigger] first[k]).id == second[k].id,
{
}

/// Whether the object at place `r` is a relation of type `associatedStreet`
/// whose member at place `m` is the way of number `id`.
pub open spec fn names_way(objs: Seq<OsmObj>, r: int, m: int, id: i64) -> bool {
    &&& 0 <= r < objs.len()
    &&& objs[r] matches OsmObj::Relation(rel) && is_associated_street(rel) && 0 <= m
        < rel.refs@.len() && rel.refs@[m].member == OsmId::Way(id)
}

proof fn lemma_member_ways(refs: Seq<Ref>, n: int, m: int, id: i64)
    requires
        0 <= m < n <= refs.len(),
        refs[m].member == OsmId::Way(id),
    ensures
        member_ways(refs, n).contains(id),
    decreases n,
{
    if m < n - 1 {
        lemma_member_ways(refs, n - 1, m, id);
    }
}

/// A way that a relation of type `associatedStreet` names is set aside.
pub proof fn lemma_named_way_excluded(objs: Seq<OsmObj>, n: int, r: int, m: int, id: i64)
    requires
        names_way(objs, r, m, id),
        r < n <= objs.len(),
    ensures
        excluded_ways(objs, n).contains(id),
    decreases n,
{
    if r < n - 1 {
        lemma_named_way_excluded(objs, n - 1, r, m, id);
    } else {
        match objs[r] {
            OsmObj::Relation(rel) => {
                lemma_member_ways(rel.refs@, rel.refs@.len() as int, m, id);
            },
            _ => {},
        }
    }
}

/// No street is made from a way that a relation of type `associatedStreet`
/// names: no street carries the identity of such a way.
pub proof fn lemma_no_street_for_named_way(
    objs: Seq<OsmObj>,
    finder: Seq<Arc<Admin>>,
    r: int,
    m: int,
    id: i64,
)
    requires
        names_way(objs, r, m, id),
    ensures
        forall|k: int|
            0 <= k < street_list(objs, finder).len() ==> (#[trigger] street_list(objs, finder)[k]).id
                != way_street_id(id),
{
    let n = objs.len() as int;
    let streets = street_list(objs, finder);
    lemma_named_way_excluded(objs, n, r, m, id);
    assert forall|k: int| 0 <= k < streets.len() implies (#[trigger] streets[k]).id
        != way_street_id(id) by {
        lemma_origin(objs, finder, k);
        let a = origin(objs, finder, k);
        if streets[k].id == way_street_id(id) {
            lemma_street_id_of_injective(objs[a].spec_id(), OsmId::Way(id));
        }
    }
}

/// A relation that gives a street gives exactly one: the streets of the graph
/// hold it, under the identity of the relation, and hold no other street
/// under that identity.
pub proof fn lemma_one_street_per_relation(objs: Seq<OsmObj>, finder: Seq<Arc<Admin>>, r: int)
    requires
        ids_increasing(objs),
        0 <= r < objs.len(),
        relation_street_at(objs, finder, r) is Some,
    ensures
        exists|k: int|
            0 <= k < street_list(objs, finder).len() && #[trigger] street_list(objs, finder)[k]
                == relation_street_at(objs, finder, r)->0,
        forall|k1: int, k2: int|
            0 <= k1 < street_list(objs, finder).len() && 0 <= k2 < street_list(objs, finder).len()
                && (#[trigger] street_list(objs, finder)[k1]).id == relation_street_id(
                number_at(objs, r),
            ) && (#[trigger] street_list(objs, finder)[k2]).id == relation_street_id(
                number_at(objs, r),
            ) ==> k1 == k2,
{
    let n = objs.len() as int;
    let sources = relation_sources(objs, finder, n);
    let streets = street_list(objs, finder);
    lemma_street_list(objs, finder);
    lemma_street_ids_distinct(objs, finder);
    assert(sources.contains(r));
    let k = choose|k: int| 0 <= k < sources.len() && sources[k] == r;
    assert(streets[k] == relation_street_at(objs, finder, r)->0);
    assert forall|k1: int, k2: int|
        0 <= k1 < streets.len() && 0 <= k2 < streets.len() && (#[trigger] streets[k1]).id
            == relation_street_id(number_at(objs, r)) && (#[trigger] streets[k2]).id
            == relation_street_id(number_at(objs, r)) implies k1 == k2 by {
        if k1 < k2 {
            assert(streets[k1].id != streets[k2].id);
        } else if k2 < k1 {
            assert(streets[k2].id != streets[k1].id);
        }
    }
}

/// Each street segment that no relation has taken belongs to one group, and
/// the group is stood for by its way of the smallest number: the street of
/// the group carries the identity of a way of the same key whose number is
/// not greater than that of the segment.
pub proof fn lemma_smallest_way_stands_for_group(
    objs: Seq<OsmObj>,
    finder: Seq<Arc<Admin>>,
    i: int,
)
    requires
        ids_increasing(objs),
        0 <= i < objs.len(),
        is_free_segment(objs, excluded_ways(objs, objs.len() as int), i),
    ensures
        exists|k: int|
            0 <= k < street_list(objs, finder).len() && exists|w: int|
                0 <= w <= i && is_free_segment(objs, excluded_ways(objs, objs.len() as int), w)
                    && way_words_at(objs, finder, w) == way_words_at(objs, finder, i)
                    && number_at(objs, w) <= number_at(objs, i) && way_street_at(objs, finder, w)
                    == Some(#[trigger] street_list(objs, finder)[k]) && street_list(
                    objs,
                    finder,
                )[k].id == way_street_id(#[trigger] number_at(objs, w)),
        forall|k: int, j: int|
            0 <= k < street_groups(objs, finder).len() && 0 <= j < objs.len() && is_free_segment(
                objs,
                excluded_ways(objs, objs.len() as int),
                j,
            ) && (#[trigger] street_groups(objs, finder)[k]).words == #[trigger] way_words_at(
                objs,
                finder,
                j,
            ) ==> street_groups(objs, finder)[k].way <= j,
{
    let n = objs.len() as int;
    let excluded = excluded_ways(objs, n);
    let groups = street_groups(objs, finder);
    let sources = relation_sources(objs, finder, n);
    let streets = street_list(objs, finder);
    lemma_street_list(objs, finder);
    assert(has_group(groups, way_words_at(objs, finder, i), i));
    let g = choose|g: int|
        0 <= g < groups.len() && (#[trigger] groups[g]).words == way_words_at(objs, finder, i)
            && groups[g].way <= i;
    let w = groups[g].way;
    assert(group_sound(objs, finder, excluded, groups[g], n));
    if w < i {
        assert(objs[w].spec_id().precedes(objs[i].spec_id()));
    }
    let k = sources.len() + g;
    assert(way_street_at(objs, finder, w) == Some(streets[k]));
    assert(streets[k].id == way_street_id(number_at(objs, w)));
    assert forall|k: int, j: int|
        0 <= k < groups.len() && 0 <= j < objs.len() && is_free_segment(objs, excluded, j) && (
        #[trigger] groups[k]).words == #[trigger] way_words_at(objs, finder, j) implies groups[k].way
        <= j by {
        assert(has_group(groups, way_words_at(objs, finder, j), j));
        let h = choose|h: int|
            0 <= h < groups.len() && (#[trigger] groups[h]).words == way_words_at(objs, finder, j)
                && groups[h].way <= j;
        lemma_words_lt_irreflexive(groups[k].words);
        if h < k {
            assert(words_lt(groups[h].words, groups[k].words));
        } else if k < h {
            assert(words_lt(groups[k].words, groups[h].words));
        }
    }
}

/// The streets of the groups come in the order of their keys, no key twice.
pub proof fn lemma_groups_ordered(objs: Seq<OsmObj>, finder: Seq<Arc<Admin>>)
    ensures
        groups_increasing(street_groups(objs, finder)),
{
    lemma_street_list(objs, finder);
}

/// A street made from a way whose middle node the graph does not hold has no
/// regions, and the weight zero.
pub proof fn lemma_unknown_midpoint(objs: Seq<OsmObj>, finder: Seq<Arc<Admin>>, i: int)
    requires
        objs[i] matches OsmObj::Way(w) && midpoint(objs, w) is None,
    ensures
        way_street_at(objs, finder, i) matches Some(s) && s.administrative_regions.len() == 0
            && s.weight.is_zero(),
{
    crate::weight::Weight::lemma_zero();
}

/// The set of the cities among regions is ordered by identity, holds only
/// cities among the regions, and holds the identity of each city among them.
pub proof fn lemma_city_set(admins: Seq<Arc<Admin>>, n: int)
    requires
        0 <= n <= admins.len(),
    ensures
        admin_ids_increasing(city_set(admins, n)),
        forall|k: int|
            0 <= k < city_set(admins, n).len() ==> (#[trigger] city_set(admins, n)[k]).is_city()
                && admins.contains(city_set(admins, n)[k]),
        forall|i: int|
            0 <= i < n && (#[trigger] admins[i]).is_city() ==> holds_id(
                city_set(admins, n),
                admins[i].id@,
            ),
    decreases n,
{
    if n > 0 {
        lemma_city_set(admins, n - 1);
        let before = city_set(admins, n - 1);
        let after = city_set(admins, n);
        let a = admins[n - 1];
        if a.is_city() {
            lemma_set_with_ordered(before, a);
            assert forall|k: int| 0 <= k < after.len() implies (#[trigger] after[k]).is_city()
                && admins.contains(after[k]) by {
                if before.contains(after[k]) {
                    let j = choose|j: int| 0 <= j < before.len() && before[j] == after[k];
                    assert(before[j].is_city() && admins.contains(before[j]));
                }
            }
            assert forall|i: int| 0 <= i < n && (#[trigger] admins[i]).is_city() implies holds_id(
                after,
                admins[i].id@,
            ) by {
                if i < n - 1 {
                    assert(holds_id(before, admins[i].id@));
                    let j = choose|j: int|
                        0 <= j < before.len() && (#[trigger] before[j]).id@ == admins[i].id@;
                    assert(after.contains(before[j]));
                    let k = choose|k: int| 0 <= k < after.len() && after[k] == before[j];
                    assert(after[k].id@ == admins[i].id@);
                }
            }
        } else {
            assert forall|i: int| 0 <= i < n && (#[trigger] admins[i]).is_city() implies holds_id(
                after,
                admins[i].id@,
            ) by {
                assert(holds_id(before, admins[i].id@));
            }
        }
    }
}

/// Whether one of the regions has the identity `id`.
pub open spec fn holds_id(set: Seq<Arc<Admin>>, id: Seq<char>) -> bool {
    exists|k: int| 0 <= k < set.len() && (#[trigger] set[k]).id@ == id
}

/// A way is set aside only when a relation of type `associatedStreet` names
/// it.
pub proof fn lemma_excluded_way_named(objs: Seq<OsmObj>, n: int, id: i64)
    requires
        0 <= n <= objs.len(),
        excluded_ways(objs, n).contains(id),
    ensures
        exists|r: int, m: int| #[trigger] names_way(objs, r, m, id) && r < n,
    decreases n,
{
    let before = excluded_ways(objs, n - 1);
    if before.contains(id) {
        lemma_excluded_way_named(objs, n - 1, id);
        let (r, m) = choose|r: int, m: int| #[trigger] names_way(objs, r, m, id) && r < n - 1;
        assert(names_way(objs, r, m, id) && r < n);
    } else {
        match objs[n - 1] {
            OsmObj::Relation(rel) => {
                lemma_member_way_found(rel.refs@, rel.refs@.len() as int, id);
                let m = choose|m: int|
                    0 <= m < rel.refs@.len() && (#[trigger] rel.refs@[m]).member == OsmId::Way(id);
                assert(names_way(objs, n - 1, m, id));
            },
            _ => {},
        }
    }
}

proof fn lemma_member_way_found(refs: Seq<Ref>, n: int, id: i64)
    requires
        0 <= n <= refs.len(),
        member_ways(refs, n).contains(id),
    ensures
        exists|m: int| 0 <= m < n && (#[trigger] refs[m]).member == OsmId::Way(id),
    decreases n,
{
    if member_ways(refs, n - 1).contains(id) {
        lemma_member_way_found(refs, n - 1, id);
        let m = choose|m: int| 0 <= m < n - 1 && (#[trigger] refs[m]).member == OsmId::Way(id);
        assert(refs[m].member == OsmId::Way(id));
    } else {
        assert(refs[n - 1].member == OsmId::Way(id));
    }
}

} // verus!
