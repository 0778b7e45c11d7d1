//! Streets.
//!
//! The map draws one street of the real world as several ways, and sometimes
//! groups them in a relation of type `associatedStreet`. The builder merges
//! them into one record per street, in two phases.
//!
//! First the relations: each relation of type `associatedStreet` gives at most
//! one street, made from the first of its members of role `street` that is a
//! way of the graph and for which a name is known: the name of the relation,
//! or else the name of that way. Every way that such a relation names, in any
//! role, is set aside.
//!
//! Then the ways that were not set aside, and that have a `highway` tag and a
//! `name` tag that are not empty: they are grouped by name and by the set of
//! cities around their middle node. Each group gives one street, made from
//! its way of the smallest number. The streets of this phase come in the
//! order of their keys.

use crate::admin::{city, first_city, share, Admin};
use crate::admin_geofinder::{admins_at, AdminGeoFinder};
use crate::coord::Coord;
use crate::labels::{format_street_label, street_label};
use crate::objects::{Street, StreetView};
use crate::osm::{lookup, OsmGraph, OsmId, OsmObj, Ref, Relation, Way};
use crate::osm_reader::osm_utils::{get_way_coord, get_way_midpoint, midpoint, way_coord};
use crate::osm_reader::street_key::{key_words, set_with};
pub use crate::osm_reader::street_key::{AdminSet, StreetKey};
use crate::scan::{first_index, lemma_first_index_is};
use crate::osm_reader::street_laws::{
    groups_increasing, lemma_origin, lemma_street_ids_distinct, lemma_with_way,
};
use crate::text::{decimal, int_to_string, lemma_words_lt_transitive, str_eq, words_lt, Rank};
use crate::utils::{country_codes, find_country_codes, get_zip_codes_from_admins, zip_codes};
use crate::weight::Weight;
use std::collections::BTreeSet;
use std::sync::Arc;
use vstd::prelude::*;
use vstd::string::StringExecFns;

verus! {

pub type StreetsVec = Vec<Street>;

/// Whether a way is a street segment: it has a `highway` tag and a `name`
/// tag, neither of them empty.
pub open spec fn is_street_way(way: Way) -> bool {
    way.tags.has_text("highway"@) && way.tags.has_text("name"@)
}

/// Whether a relation groups the segments of a street.
pub open spec fn is_associated_street(rel: Relation) -> bool {
    rel.tags.value_of("type"@) == Some("associatedStreet"@)
}

/// Whether the builder asks for an object: a street segment or a relation
/// that groups street segments.
pub open spec fn is_wanted(obj: OsmObj) -> bool {
    match obj {
        OsmObj::Node(_) => false,
        OsmObj::Way(w) => is_street_way(w),
        OsmObj::Relation(r) => is_associated_street(r),
    }
}

/// The name of a way; empty when it has none.
pub open spec fn way_name(way: Way) -> Seq<char> {
    match way.tags.value_of("name"@) {
        Some(n) => n,
        None => Seq::empty(),
    }
}

/// The regions around a way: those that contain its middle node, the most
/// specific first; none when the middle node is not known.
pub open spec fn street_admins(objs: Seq<OsmObj>, finder: Seq<Arc<Admin>>, way: Way) -> Seq<
    Arc<Admin>,
> {
    match midpoint(objs, way) {
        Some(c) => admins_at(finder, c),
        None => Seq::empty(),
    }
}

/// The identity of the street made from the relation of number `id`.
pub open spec fn relation_street_id(id: i64) -> Seq<char> {
    "street:osm:relation:"@ + decimal(id as int)
}

/// The identity of the street made from the way of number `id`.
pub open spec fn way_street_id(id: i64) -> Seq<char> {
    "street:osm:way:"@ + decimal(id as int)
}

/// The street with the given identity, name, regions and position. Its label,
/// zip codes and country codes follow from the regions; its weight is zero.
pub open spec fn built_street(
    id: Seq<char>,
    name: Seq<char>,
    admins: Seq<Arc<Admin>>,
    coord: Coord,
) -> StreetView {
    StreetView {
        id,
        name,
        label: street_label(name, admins),
        administrative_regions: admins,
        weight: Weight::zero(),
        zip_codes: zip_codes(admins),
        coord,
        approx_coord: Some(coord),
        distance: None,
        country_codes: country_codes(admins),
    }
}

/// The condition "can stand for the relation": a member of role `street`
/// that is a way of the graph, where the relation is named or the way is.
pub open spec fn represents(objs: Seq<OsmObj>, named: bool) -> spec_fn(Ref) -> bool {
    |r: Ref|
        r.member is Way && r.role@ == "street"@ && (lookup(objs, r.member) matches Some(
            OsmObj::Way(w),
        ) && (named || w.tags.value_of("name"@) is Some))
}

/// The street that a relation gives, if any.
pub open spec fn relation_street(objs: Seq<OsmObj>, finder: Seq<Arc<Admin>>, rel: Relation)
    -> Option<StreetView> {
    let rel_name = rel.tags.value_of("name"@);
    let k = first_index(rel.refs@, represents(objs, rel_name is Some));
    if !is_associated_street(rel) || k >= rel.refs@.len() {
        None
    } else {
        match lookup(objs, rel.refs@[k].member) {
            Some(OsmObj::Way(w)) => Some(
                built_street(
                    relation_street_id(rel.id),
                    match rel_name {
                        Some(n) => n,
                        None => way_name(w),
                    },
                    street_admins(objs, finder, w),
                    way_coord(objs, w),
                ),
            ),
            _ => None,
        }
    }
}

/// The street that the object at place `i` gives as a relation, if any.
pub open spec fn relation_street_at(objs: Seq<OsmObj>, finder: Seq<Arc<Admin>>, i: int) -> Option<
    StreetView,
> {
    match objs[i] {
        OsmObj::Relation(rel) => relation_street(objs, finder, rel),
        _ => None,
    }
}

/// The streets that the relations among the first `n` objects give, in the
/// order of the relations.
pub open spec fn relation_streets(objs: Seq<OsmObj>, finder: Seq<Arc<Admin>>, n: int) -> Seq<
    StreetView,
>
    decreases n,
{
    if n <= 0 {
        Seq::empty()
    } else {
        let before = relation_streets(objs, finder, n - 1);
        match relation_street_at(objs, finder, n - 1) {
            Some(s) => before.push(s),
            None => before,
        }
    }
}

/// The numbers of the ways among the first `m` members.
pub open spec fn member_ways(refs: Seq<Ref>, m: int) -> Set<i64>
    decreases m,
{
    if m <= 0 {
        Set::empty()
    } else {
        let before = member_ways(refs, m - 1);
        match refs[m - 1].member {
            OsmId::Way(id) => before.insert(id),
            _ => before,
        }
    }
}

/// The numbers of the ways that are set aside: those that a relation of type
/// `associatedStreet` among the first `n` objects names as a member.
pub open spec fn excluded_ways(objs: Seq<OsmObj>, n: int) -> Set<i64>
    decreases n,
{
    if n <= 0 {
        Set::empty()
    } else {
        let before = excluded_ways(objs, n - 1);
        match objs[n - 1] {
            OsmObj::Relation(rel) => if is_associated_street(rel) {
                before.union(member_ways(rel.refs@, rel.refs@.len() as int))
            } else {
                before
            },
            _ => before,
        }
    }
}

/// The set of the cities among the first `n` regions.
pub open spec fn city_set(admins: Seq<Arc<Admin>>, n: int) -> Seq<Arc<Admin>>
    decreases n,
{
    if n <= 0 {
        Seq::empty()
    } else {
        let before = city_set(admins, n - 1);
        if admins[n - 1].is_city() {
            set_with(before, admins[n - 1])
        } else {
            before
        }
    }
}

/// The words of the key of a way: its name, then the identities of the cities
/// around it.
pub open spec fn way_words(objs: Seq<OsmObj>, finder: Seq<Arc<Admin>>, way: Way) -> Seq<
    Seq<char>,
> {
    let admins = street_admins(objs, finder, way);
    key_words(way_name(way), city_set(admins, admins.len() as int))
}

/// A group of street segments: the words of its key, and the place in the
/// graph of the way that stands for it.
pub struct GroupView {
    pub words: Seq<Seq<char>>,
    pub way: int,
}

/// The condition "has a key that does not come before `words`".
pub open spec fn words_not_before(words: Seq<Seq<char>>) -> spec_fn(GroupView) -> bool {
    |g: GroupView| !crate::text::words_lt(g.words, words)
}

/// The groups after a way with the key `words` has come: the way joins the
/// group of its key if there is one, else it founds a group at the place of
/// its key in the order.
pub open spec fn with_way(groups: Seq<GroupView>, words: Seq<Seq<char>>, way: int) -> Seq<
    GroupView,
> {
    let k = first_index(groups, words_not_before(words));
    if k < groups.len() && groups[k].words == words {
        groups
    } else {
        groups.insert(k, GroupView { words, way })
    }
}

/// Whether the object at place `i` is a street segment that was not set
/// aside.
pub open spec fn is_free_segment(objs: Seq<OsmObj>, excluded: Set<i64>, i: int) -> bool {
    objs[i] matches OsmObj::Way(w) && is_street_way(w) && !excluded.contains(w.id)
}

/// The words of the key of the way at place `i`.
#[verifier::opaque]
pub open spec fn way_words_at(objs: Seq<OsmObj>, finder: Seq<Arc<Admin>>, i: int) -> Seq<
    Seq<char>,
> {
    match objs[i] {
        OsmObj::Way(w) => way_words(objs, finder, w),
        _ => Seq::empty(),
    }
}

/// The groups that the street segments among the first `n` objects form.
pub open spec fn way_groups(
    objs: Seq<OsmObj>,
    finder: Seq<Arc<Admin>>,
    excluded: Set<i64>,
    n: int,
) -> Seq<GroupView>
    decreases n,
{
    if n <= 0 {
        Seq::empty()
    } else {
        let before = way_groups(objs, finder, excluded, n - 1);
        if is_free_segment(objs, excluded, n - 1) {
            with_way(before, way_words_at(objs, finder, n - 1), n - 1)
        } else {
            before
        }
    }
}

/// The street that a way gives.
pub open spec fn way_street(objs: Seq<OsmObj>, finder: Seq<Arc<Admin>>, way: Way)
    -> StreetView {
    built_street(
        way_street_id(way.id),
        way_name(way),
        street_admins(objs, finder, way),
        way_coord(objs, way),
    )
}

/// The street that the object at place `i` gives as a way, if it is one.
pub open spec fn way_street_at(objs: Seq<OsmObj>, finder: Seq<Arc<Admin>>, i: int) -> Option<
    StreetView,
> {
    match objs[i] {
        OsmObj::Way(w) => Some(way_street(objs, finder, w)),
        _ => None,
    }
}

/// The streets that the first `m` groups give, in the order of the groups.
pub open spec fn way_streets(
    objs: Seq<OsmObj>,
    finder: Seq<Arc<Admin>>,
    groups: Seq<GroupView>,
    m: int,
) -> Seq<StreetView>
    decreases m,
{
    if m <= 0 {
        Seq::empty()
    } else {
        let before = way_streets(objs, finder, groups, m - 1);
        match way_street_at(objs, finder, groups[m - 1].way) {
            Some(s) => before.push(s),
            None => before,
        }
    }
}

/// The groups that the street segments of a graph form.
pub open spec fn street_groups(objs: Seq<OsmObj>, finder: Seq<Arc<Admin>>) -> Seq<GroupView> {
    way_groups(objs, finder, excluded_ways(objs, objs.len() as int), objs.len() as int)
}

/// The streets of a graph: those of its relations, then those of its groups
/// of segments.
pub open spec fn street_list(objs: Seq<OsmObj>, finder: Seq<Arc<Admin>>) -> Seq<StreetView> {
    let groups = street_groups(objs, finder);
    relation_streets(objs, finder, objs.len() as int) + way_streets(
        objs,
        finder,
        groups,
        groups.len() as int,
    )
}

/// Tells whether the builder asks for an object. A reader of map files hands
/// over the objects for which this holds, and what they refer to.
pub fn is_valid_obj(obj: &OsmObj) -> (r: bool)
    ensures
        r == is_wanted(*obj),
{
    match obj {
        OsmObj::Node(_) => false,
        OsmObj::Way(way) => way.tags.has_value("highway") && way.tags.has_value("name"),
        OsmObj::Relation(rel) => rel.tags.contains("type", "associatedStreet"),
    }
}

/// Finds the regions around a way: those that contain its middle node.
pub fn get_street_admin(admins_geofinder: &AdminGeoFinder, graph: &OsmGraph, way: &Way) -> (r:
    Vec<Arc<Admin>>)
    requires
        admins_geofinder.wf(),
        graph.wf(),
    ensures
        r@ == street_admins(graph@, admins_geofinder@, *way),
{
    match get_way_midpoint(graph, way) {
        Some(c) => admins_geofinder.get(&c),
        None => Vec::new(),
    }
}

fn relation_id(id: i64) -> (r: String)
    ensures
        r@ == relation_street_id(id),
{
    let mut s = "street:osm:relation:".to_owned();
    let digits = int_to_string(id);
    s.append(digits.as_str());
    s
}

fn way_id(id: i64) -> (r: String)
    ensures
        r@ == way_street_id(id),
{
    let mut s = "street:osm:way:".to_owned();
    let digits = int_to_string(id);
    s.append(digits.as_str());
    s
}

fn make_street(id: String, name: String, admins: Vec<Arc<Admin>>, coord: Coord) -> (s: Street)
    ensures
        s.deep_view() == built_street(id@, name@, admins@, coord),
{
    let country_codes = find_country_codes(&admins);
    let label = format_street_label(name.as_str(), &admins, &country_codes);
    let zip_codes = get_zip_codes_from_admins(&admins);
    Street {
        id,
        name,
        label,
        administrative_regions: admins,
        weight: Weight::zero(),
        zip_codes,
        coord,
        approx_coord: Some(coord),
        distance: None,
        country_codes,
    }
}

fn street_of_relation(graph: &OsmGraph, admins_geofinder: &AdminGeoFinder, rel: &Relation) -> (r:
    Option<Street>)
    requires
        admins_geofinder.wf(),
        graph.wf(),
    ensures
        match r {
            Some(s) => relation_street(graph@, admins_geofinder@, *rel) == Some(s.deep_view()),
            None => relation_street(graph@, admins_geofinder@, *rel) is None,
        },
{
    if !rel.tags.contains("type", "associatedStreet") {
        return None;
    }
    let rel_name = rel.tags.get("name");
    let named = rel_name.is_some();
    let mut k: usize = 0;
    while k < rel.refs.len()
        invariant
            k <= rel.refs@.len(),
            admins_geofinder.wf(),
            graph.wf(),
            is_associated_street(*rel),
            named == (rel.tags.value_of("name"@) is Some),
            match rel_name {
                Some(n) => rel.tags.value_of("name"@) == Some(n@),
                None => rel.tags.value_of("name"@) is None,
            },
            forall|j: int| 0 <= j < k ==> !represents(graph@, named)(#[trigger] rel.refs@[j]),
        decreases rel.refs@.len() - k,
    {
        let member = &rel.refs[k];
        if member.member.is_way() && str_eq(member.role.as_str(), "street") {
            match graph.get(member.member) {
                Some(OsmObj::Way(way)) => {
                    let name = match rel_name {
                        Some(n) => Some(n),
                        None => way.tags.get("name"),
                    };
                    match name {
                        Some(n) => {
                            proof {
                                lemma_first_index_is(
                                    rel.refs@,
                                    represents(graph@, named),
                                    k as int,
                                );
                            }
                            let admins = get_street_admin(admins_geofinder, graph, way);
                            let coord = get_way_coord(graph, way);
                            return Some(make_street(relation_id(rel.id), n.clone(), admins, coord));
                        },
                        None => {},
                    }
                },
                _ => {},
            }
        }
        k += 1;
    }
    proof {
        lemma_first_index_is(rel.refs@, represents(graph@, named), k as int);
    }
    None
}

fn exclude_members(excluded: &mut BTreeSet<i64>, rel: &Relation)
    ensures
        final(excluded)@ == old(excluded)@.union(member_ways(rel.refs@, rel.refs@.len() as int)),
{
    let ghost start = excluded@;
    let mut m: usize = 0;
    assert(excluded@ =~= start.union(member_ways(rel.refs@, 0)));
    while m < rel.refs.len()
        invariant
            m <= rel.refs@.len(),
            excluded@ == start.union(member_ways(rel.refs@, m as int)),
        decreases rel.refs@.len() - m,
    {
        match rel.refs[m].member {
            OsmId::Way(id) => {
                excluded.insert(id);
                assert(excluded@ =~= start.union(member_ways(rel.refs@, m as int + 1)));
            },
            _ => {},
        }
        m += 1;
    }
}

/// Builds the set of the cities among the regions.
fn cities_of(admins: &Vec<Arc<Admin>>) -> (set: AdminSet)
    ensures
        set.wf(),
        set@ == city_set(admins@, admins@.len() as int),
{
    let mut set = AdminSet::new();
    let mut i: usize = 0;
    while i < admins.len()
        invariant
            i <= admins@.len(),
            set.wf(),
            set@ == city_set(admins@, i as int),
        decreases admins@.len() - i,
    {
        if admins[i].is_city() {
            set.insert(share(&admins[i]));
        }
        i += 1;
    }
    set
}

/// A group of street segments while the builder runs.
struct Group {
    key: StreetKey,
    way: usize,
}

spec fn group_views(groups: Seq<Group>) -> Seq<GroupView> {
    Seq::new(groups.len(), |i: int| GroupView { words: groups[i].key.words(), way: groups[i].way as int })
}

fn find_group(groups: &Vec<Group>, key: &StreetKey) -> (r: (usize, bool))
    requires
        groups_increasing(group_views(groups@)),
    ensures
        r.0 <= groups@.len(),
        r.0 == first_index(group_views(groups@), words_not_before(key.words())),
        r.1 == (r.0 < groups@.len() && group_views(groups@)[r.0 as int].words == key.words()),
{
    let ghost views = group_views(groups@);
    let ghost words = key.words();
    let mut lo: usize = 0;
    let mut hi: usize = groups.len();
    while lo < hi
        invariant
            lo <= hi <= groups@.len(),
            views == group_views(groups@),
            words == key.words(),
            groups_increasing(views),
            forall|j: int| 0 <= j < lo ==> words_lt((#[trigger] views[j]).words, words),
            forall|j: int| hi <= j < views.len() ==> !words_lt((#[trigger] views[j]).words, words),
        decreases hi - lo,
    {
        let mid: usize = lo + (hi - lo) / 2;
        let r = groups[mid].key.rank(key);
        proof {
            assert(views[mid as int].words == groups@[mid as int].key.words());
        }
        match r {
            Rank::Before => {
                proof {
                    assert forall|j: int| 0 <= j < mid + 1 implies words_lt(
                        (#[trigger] views[j]).words,
                        words,
                    ) by {
                        if j < mid {
                            lemma_words_lt_transitive(
                                views[j].words,
                                views[mid as int].words,
                                words,
                            );
                        }
                    }
                }
                lo = mid + 1;
            },
            _ => {
                proof {
                    assert forall|j: int| mid <= j < views.len() implies !words_lt(
                        (#[trigger] views[j]).words,
                        words,
                    ) by {
                        if mid < j && words_lt(views[j].words, words) {
                            lemma_words_lt_transitive(
                                views[mid as int].words,
                                views[j].words,
                                words,
                            );
                        }
                    }
                }
                hi = mid;
            },
        }
    }
    proof {
        lemma_first_index_is(views, words_not_before(words), lo as int);
    }
    if lo < groups.len() {
        let r = groups[lo].key.rank(key);
        proof {
            assert(views[lo as int].words == groups@[lo as int].key.words());
        }
        (lo, r == Rank::Same)
    } else {
        (lo, false)
    }
}

/// Builds the streets of a graph: one for each relation of type
/// `associatedStreet` for which a way and a name are found, then one for each
/// group of street segments that no such relation names, made from the way of
/// the smallest number in the group. Every street has the weight zero.
#[verifier::rlimit(50)]
pub fn streets(graph: &OsmGraph, admins_geofinder: &AdminGeoFinder) -> (street_list: StreetsVec)
    requires
        graph.wf(),
        admins_geofinder.wf(),
    ensures
        street_list.deep_view() == self::street_list(graph@, admins_geofinder@),
        forall|i: int, j: int|
            0 <= i < j < street_list@.len() ==> (#[trigger] street_list@[i]).id@ != (
            #[trigger] street_list@[j]).id@,
        forall|i: int| 0 <= i < street_list@.len() ==> (#[trigger] street_list@[i]).weight.is_zero(),
{
    let n: usize = graph.len();
    let mut out: Vec<Street> = Vec::new();
    let mut excluded: BTreeSet<i64> = BTreeSet::new();
    let mut i: usize = 0;
    assert(out.deep_view() =~= Seq::<StreetView>::empty());
    while i < n
        invariant
            i <= n,
            n == graph@.len(),
            graph.wf(),
            admins_geofinder.wf(),
            out.deep_view() == relation_streets(graph@, admins_geofinder@, i as int),
            excluded@ == excluded_ways(graph@, i as int),
        decreases n - i,
    {
        match graph.obj(i) {
            OsmObj::Relation(rel) => {
                match street_of_relation(graph, admins_geofinder, rel) {
                    Some(street) => {
                        let ghost prev = out.deep_view();
                        let ghost view = street.deep_view();
                        out.push(street);
                        assert(out.deep_view() =~= prev.push(view));
                    },
                    None => {},
                }
                if rel.tags.contains("type", "associatedStreet") {
                    exclude_members(&mut excluded, rel);
                }
            },
            _ => {},
        }
        i += 1;
    }
    let ghost from_relations = out.deep_view();
    let mut groups: Vec<Group> = Vec::new();
    let mut i: usize = 0;
    assert(group_views(groups@) =~= Seq::<GroupView>::empty());
    while i < n
        invariant
            i <= n,
            n == graph@.len(),
            graph.wf(),
            admins_geofinder.wf(),
            forall|j: int| 0 <= j < groups@.len() ==> (#[trigger] groups@[j]).way < i,
            group_views(groups@) == way_groups(graph@, admins_geofinder@, excluded@, i as int),
            groups_increasing(group_views(groups@)),
        decreases n - i,
    {
        match graph.obj(i) {
            OsmObj::Way(way) => {
                if is_valid_obj(graph.obj(i)) && !excluded.contains(&way.id) {
                    match way.tags.get("name") {
                        Some(name) => {
                            let admins = get_street_admin(admins_geofinder, graph, way);
                            let key = StreetKey { name: name.clone(), admins: cities_of(&admins) };
                            let (k, same) = find_group(&groups, &key);
                            proof {
                                reveal(way_words_at);
                                lemma_with_way(group_views(groups@), key.words(), i as int);
                            }
                            if !same {
                                let ghost prev = group_views(groups@);
                                let ghost view = GroupView { words: key.words(), way: i as int };
                                groups.insert(k, Group { key, way: i });
                                assert(group_views(groups@) =~= prev.insert(k as int, view));
                            }
                        },
                        None => {},
                    }
                }
            },
            _ => {},
        }
        i += 1;
    }
    let mut m: usize = 0;
    assert(out.deep_view() =~= from_relations + Seq::<StreetView>::empty());
    while m < groups.len()
        invariant
            m <= groups@.len(),
            graph.wf(),
            admins_geofinder.wf(),
            forall|j: int| 0 <= j < groups@.len() ==> (#[trigger] groups@[j]).way < graph@.len(),
            out.deep_view() == from_relations + way_streets(
                graph@,
                admins_geofinder@,
                group_views(groups@),
                m as int,
            ),
        decreases groups@.len() - m,
    {
        proof {
            assert(group_views(groups@)[m as int].way == groups@[m as int].way);
        }
        match graph.obj(groups[m].way) {
            OsmObj::Way(way) => {
                let name = match way.tags.get("name") {
                    Some(n) => n.clone(),
                    None => String::new(),
                };
                let admins = get_street_admin(admins_geofinder, graph, way);
                let coord = get_way_coord(graph, way);
                let street = make_street(way_id(way.id), name, admins, coord);
                let ghost prev = out.deep_view();
                let ghost view = street.deep_view();
                out.push(street);
                assert(out.deep_view() =~= prev.push(view));
            },
            _ => {},
        }
        m += 1;
    }
    proof {
        let views = self::street_list(graph@, admins_geofinder@);
        lemma_street_ids_distinct(graph@, admins_geofinder@);
        Weight::lemma_zero();
        assert forall|i: int, j: int| 0 <= i < j < out@.len() implies (#[trigger] out@[i]).id@ != (
        #[trigger] out@[j]).id@ by {
            assert(out@[i].id@ == views[i].id && out@[j].id@ == views[j].id);
        }
        assert forall|i: int| 0 <= i < out@.len() implies (#[trigger] out@[i]).weight.is_zero() by {
            lemma_origin(graph@, admins_geofinder@, i);
            assert(out@[i].weight == views[i].weight);
        }
    }
    out
}

/// A street with the weight of its city: the weight of the first city among
/// its regions, in their stored order. A street without a city keeps its
/// weight.
pub open spec fn weighted(street: StreetView) -> StreetView {
    let k = first_index(street.administrative_regions, city());
    StreetView {
        weight: if k < street.administrative_regions.len() {
            street.administrative_regions[k].weight
        } else {
            street.weight
        },
        ..street
    }
}

/// The streets, each with the weight of its city.
pub open spec fn weighted_all(streets: Seq<StreetView>) -> Seq<StreetView> {
    Seq::new(streets.len(), |i: int| weighted(streets[i]))
}

/// Gives each street the weight of its city: the weight of the first city
/// among its regions. No weight is negative afterwards.
pub fn compute_street_weight(streets: &mut StreetsVec)
    ensures
        final(streets).deep_view() == weighted_all(old(streets).deep_view()),
        forall|i: int|
            0 <= i < final(streets)@.len() ==> (#[trigger] final(streets)@[i]).weight.is_non_negative(),
{
    let n: usize = streets.len();
    let mut i: usize = 0;
    while i < n
        invariant
            i <= n,
            n == streets@.len(),
            n == old(streets)@.len(),
            forall|j: int|
                0 <= j < i ==> (#[trigger] streets@[j]).deep_view() == weighted(
                    old(streets)@[j].deep_view(),
                ),
            forall|j: int| 0 <= j < i ==> (#[trigger] streets@[j]).weight.is_non_negative(),
            forall|j: int| i <= j < n ==> streets@[j] == old(streets)@[j],
        decreases n - i,
    {
        let found = first_city(&streets[i].administrative_regions);
        let weight = match found {
            Some(k) => streets[i].administrative_regions[k].weight,
            None => streets[i].weight,
        };
        let bits: u64 = weight.bits();
        let ghost before = streets@;
        streets[i].weight = weight;
        proof {
            assert(forall|j: int| 0 <= j < n && j != i ==> streets@[j] == before[j]);
        }
        i += 1;
    }
    assert(streets.deep_view() =~= weighted_all(old(streets).deep_view()));
}

} // verus!
