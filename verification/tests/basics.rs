use mimirsbrunn::admin::{Admin, Code, I18nProperties, ZoneType};
use mimirsbrunn::coord::Coord;
use mimirsbrunn::labels::format_street_label;
use mimirsbrunn::osm::{Node, OsmGraph, OsmId, OsmObj, Relation, Tag, Tags, Way};
use mimirsbrunn::osm_reader::street_key::{AdminSet, StreetKey};
use mimirsbrunn::text::{
    clone_strings, int_to_string, join_strings, nat_to_string, rank_bytes, rank_str, str_eq, Rank,
};
use mimirsbrunn::utils::{find_country_code, find_country_codes, get_zip_codes_from_admins};
use mimirsbrunn::weight::Weight;
use std::sync::Arc;

fn tags(pairs: &[(&str, &str)]) -> Tags {
    Tags {
        entries: pairs
            .iter()
            .map(|(k, v)| Tag { key: k.to_string(), value: v.to_string() })
            .collect(),
    }
}

fn admin(id: &str, name: &str, zone: Option<ZoneType>, zips: &[&str], codes: &[(&str, &str)]) -> Arc<Admin> {
    Arc::new(Admin {
        id: id.to_string(),
        insee: String::new(),
        level: 8,
        label: name.to_string(),
        name: name.to_string(),
        zip_codes: zips.iter().map(|z| z.to_string()).collect(),
        weight: Weight::zero(),
        coord: Coord::new(0, 0),
        boundary: None,
        bbox: None,
        zone_type: zone,
        parent_id: None,
        codes: codes
            .iter()
            .map(|(n, v)| Code { name: n.to_string(), value: v.to_string() })
            .collect(),
        names: I18nProperties(vec![]),
        labels: I18nProperties(vec![]),
    })
}

fn strings(v: &[&str]) -> Vec<String> {
    v.iter().map(|s| s.to_string()).collect()
}

#[test]
fn strings_are_ordered_by_their_bytes() {
    assert_eq!(rank_str("abc", "abd"), Rank::Before);
    assert_eq!(rank_str("abd", "abc"), Rank::After);
    assert_eq!(rank_str("abc", "abc"), Rank::Same);
    assert_eq!(rank_str("", ""), Rank::Same);
    assert_eq!(rank_str("", "a"), Rank::Before);
    assert_eq!(rank_str("ab", "abc"), Rank::Before);
    assert_eq!(rank_str("abc", "ab"), Rank::After);
    assert_eq!(rank_str("Z", "a"), Rank::Before);
    assert_eq!(rank_str("z", "é"), Rank::Before);
    assert_eq!(rank_str("é", "€"), Rank::Before);
    assert_eq!(rank_str("\u{FFFF}", "\u{10000}"), Rank::Before);
    for (a, b) in [("Rue", "Avenue"), ("é", "e"), ("x", "xy"), ("", "")] {
        let std_order = match a.cmp(b) {
            std::cmp::Ordering::Less => Rank::Before,
            std::cmp::Ordering::Equal => Rank::Same,
            std::cmp::Ordering::Greater => Rank::After,
        };
        assert_eq!(rank_str(a, b), std_order);
    }
    assert_eq!(rank_bytes(&[1, 2, 3], &[1, 2, 4]), Rank::Before);
    assert_eq!(rank_bytes(&[200], &[100, 1]), Rank::After);
    assert_eq!(rank_bytes(&[], &[]), Rank::Same);
    assert!(str_eq("été", "été"));
    assert!(!str_eq("été", "ete"));
    assert!(!str_eq("a", "ab"));
}

#[test]
fn integers_are_written_in_decimal() {
    assert_eq!(nat_to_string(0), "0");
    assert_eq!(nat_to_string(7), "7");
    assert_eq!(nat_to_string(10), "10");
    assert_eq!(nat_to_string(1234567890), "1234567890");
    assert_eq!(nat_to_string(u64::MAX), "18446744073709551615");
    assert_eq!(int_to_string(0), "0");
    assert_eq!(int_to_string(42), "42");
    assert_eq!(int_to_string(-1), "-1");
    assert_eq!(int_to_string(-9070), "-9070");
    assert_eq!(int_to_string(i64::MAX), "9223372036854775807");
    assert_eq!(int_to_string(i64::MIN), "-9223372036854775808");
}

#[test]
fn strings_are_joined_with_a_separator_between_them() {
    assert_eq!(join_strings(&strings(&[]), ";"), "");
    assert_eq!(join_strings(&strings(&["75001"]), ";"), "75001");
    assert_eq!(join_strings(&strings(&["75001", "75002", "75003"]), ";"), "75001;75002;75003");
    assert_eq!(join_strings(&strings(&["", "a", ""]), ", "), ", a, ");
    assert_eq!(clone_strings(&strings(&["a", "b"])), strings(&["a", "b"]));
}

#[test]
fn the_first_value_of_a_key_counts() {
    let t = tags(&[("name", "Rue A"), ("highway", ""), ("name", "Rue B")]);
    assert_eq!(t.get("name").map(|s| s.as_str()), Some("Rue A"));
    assert_eq!(t.get("highway").map(|s| s.as_str()), Some(""));
    assert_eq!(t.get("type"), None);
    assert!(t.contains("name", "Rue A"));
    assert!(!t.contains("name", "Rue B"));
    assert!(!t.contains("type", ""));
    assert!(t.has_value("name"));
    assert!(!t.has_value("highway"));
    assert!(!t.has_value("type"));
    assert_eq!(Tags::new().get("name"), None);
}

#[test]
fn a_graph_holds_its_objects_in_the_order_of_their_identities() {
    let mut g = OsmGraph::new();
    assert_eq!(g.len(), 0);
    assert!(g.get(OsmId::Node(1)).is_none());
    let node = |id: i64| OsmObj::Node(Node { id, tags: tags(&[]), decimicro_lat: 0, decimicro_lon: 0 });
    let way = |id: i64, name: &str| OsmObj::Way(Way { id, tags: tags(&[("name", name)]), nodes: vec![] });
    let rel = |id: i64| OsmObj::Relation(Relation { id, tags: tags(&[]), refs: vec![] });
    for o in [rel(1), way(5, "five"), node(9), way(-3, "minus"), node(-9), rel(-4), node(2)] {
        g.insert(o);
    }
    let order: Vec<OsmId> = (0..g.len()).map(|i| g.obj(i).id()).collect();
    assert_eq!(
        order,
        vec![
            OsmId::Node(-9),
            OsmId::Node(2),
            OsmId::Node(9),
            OsmId::Way(-3),
            OsmId::Way(5),
            OsmId::Relation(-4),
            OsmId::Relation(1),
        ]
    );
    assert!(matches!(g.get(OsmId::Way(5)), Some(OsmObj::Way(w)) if w.tags.contains("name", "five")));
    assert!(g.get(OsmId::Way(9)).is_none());
    assert!(g.get(OsmId::Node(5)).is_none());
    assert!(g.get(OsmId::Relation(5)).is_none());
    g.insert(way(5, "cinq"));
    assert_eq!(g.len(), 7);
    assert!(matches!(g.get(OsmId::Way(5)), Some(OsmObj::Way(w)) if w.tags.contains("name", "cinq")));
    assert_eq!(g.obj(4).tags().get("name").map(|s| s.as_str()), Some("cinq"));
}

#[test]
fn identities_are_ordered_by_kind_then_by_number() {
    assert!(OsmId::Node(100).comes_before(OsmId::Way(1)));
    assert!(OsmId::Way(100).comes_before(OsmId::Relation(-1)));
    assert!(OsmId::Way(1).comes_before(OsmId::Way(2)));
    assert!(!OsmId::Way(2).comes_before(OsmId::Way(2)));
    assert!(!OsmId::Relation(0).comes_before(OsmId::Node(5)));
    assert!(OsmId::Way(3).is_way());
    assert!(!OsmId::Node(3).is_way());
    assert_eq!(OsmId::Relation(-8).inner_id(), -8);
}

#[test]
fn a_set_of_regions_holds_each_identity_once_in_order() {
    let mut set = AdminSet::new();
    assert_eq!(set.len(), 0);
    assert!(set.insert(admin("m", "first m", None, &[], &[])));
    assert!(set.insert(admin("b", "b", None, &[], &[])));
    assert!(set.insert(admin("z", "z", None, &[], &[])));
    assert!(!set.insert(admin("m", "second m", None, &[], &[])));
    assert!(set.insert(admin("c", "c", None, &[], &[])));
    let names: Vec<&str> = set.as_vec().iter().map(|a| a.name.as_str()).collect();
    assert_eq!(names, vec!["b", "c", "first m", "z"]);
    assert_eq!(set.len(), 4);
}

#[test]
fn keys_are_ordered_by_name_then_by_cities() {
    let key = |name: &str, cities: &[&str]| {
        let mut admins = AdminSet::new();
        for c in cities {
            admins.insert(admin(c, c, Some(ZoneType::City), &[], &[]));
        }
        StreetKey { name: name.to_string(), admins }
    };
    assert_eq!(key("Rue A", &["x"]).rank(&key("Rue B", &[])), Rank::Before);
    assert_eq!(key("Rue B", &[]).rank(&key("Rue A", &["x"])), Rank::After);
    assert_eq!(key("Rue A", &[]).rank(&key("Rue A", &["x"])), Rank::Before);
    assert_eq!(key("Rue A", &["x"]).rank(&key("Rue A", &["y"])), Rank::Before);
    assert_eq!(key("Rue A", &["y", "x"]).rank(&key("Rue A", &["x", "y"])), Rank::Same);
    assert_eq!(key("Rue A", &["x", "z"]).rank(&key("Rue A", &["x", "y"])), Rank::After);
    assert_eq!(key("Rue A", &["x", "y"]).rank(&key("Rue A", &["x"])), Rank::After);
    assert_eq!(key("", &[]).rank(&key("", &[])), Rank::Same);
}

#[test]
fn a_label_names_the_first_city() {
    let none: Vec<Arc<Admin>> = vec![];
    assert_eq!(format_street_label("Rue de la Paix", &none, &vec![]), "Rue de la Paix");
    let around = vec![
        admin("q", "Quartier", Some(ZoneType::Suburb), &[], &[]),
        admin("p", "Paris", Some(ZoneType::City), &[], &[]),
        admin("v", "Versailles", Some(ZoneType::City), &[], &[]),
    ];
    assert_eq!(
        format_street_label("Rue de la Paix", &around, &strings(&["FR"])),
        "Rue de la Paix (Paris)"
    );
    assert_eq!(format_street_label("Rue", &around[..1].to_vec(), &vec![]), "Rue");
    assert_eq!(format_street_label("", &around, &vec![]), " (Paris)");
}

#[test]
fn zip_codes_are_the_union_over_the_regions() {
    let around = vec![
        admin("a", "A", None, &["75001", "75002"], &[]),
        admin("b", "B", None, &[], &[]),
        admin("c", "C", None, &["75002", "75003", "75001", "75003"], &[]),
    ];
    assert_eq!(get_zip_codes_from_admins(&around), strings(&["75001", "75002", "75003"]));
    assert_eq!(get_zip_codes_from_admins(&vec![]).len(), 0);
    assert_eq!(get_zip_codes_from_admins(&around[1..2].to_vec()).len(), 0);
}

#[test]
fn country_codes_come_from_the_codes_of_the_regions() {
    let around = vec![
        admin("a", "A", None, &[], &[("wikidata", "Q1"), ("ISO3166-1:alpha2", "FR"), ("ISO3166-1:alpha2", "XX")]),
        admin("b", "B", None, &[], &[("ISO3166-1:alpha3", "FRA")]),
        admin("c", "C", None, &[], &[("ISO3166-1:alpha2", "FR")]),
        admin("d", "D", None, &[], &[("ISO3166-1:alpha2", "BE")]),
    ];
    assert_eq!(find_country_codes(&around), strings(&["FR", "FR", "BE"]));
    assert_eq!(find_country_codes(&vec![]).len(), 0);
    assert_eq!(find_country_code(&around[0]).map(|s| s.as_str()), Some("FR"));
    assert_eq!(find_country_code(&around[1]), None);
}
