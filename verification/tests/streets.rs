use mimirsbrunn::admin::{Admin, Code, I18nProperties, ZoneType};
use mimirsbrunn::admin_geofinder::AdminGeoFinder;
use mimirsbrunn::coord::Coord;
use mimirsbrunn::geometry::{MultiPolygon, Polygon};
use mimirsbrunn::objects::Street;
use mimirsbrunn::osm::{Node, OsmGraph, OsmId, OsmObj, Ref, Relation, Tag, Tags, Way};
use mimirsbrunn::osm_reader::osm_utils::{get_way_coord, get_way_midpoint};
use mimirsbrunn::osm_reader::street::{
    compute_street_weight, get_street_admin, is_valid_obj, streets,
};
use mimirsbrunn::weight::Weight;
use std::sync::Arc;

fn tags(pairs: &[(&str, &str)]) -> Tags {
    Tags {
        entries: pairs
            .iter()
            .map(|(k, v)| Tag { key: k.to_string(), value: v.to_string() })
            .collect(),
    }
}

fn node(id: i64, lon: i32, lat: i32) -> OsmObj {
    OsmObj::Node(Node { id, tags: tags(&[]), decimicro_lat: lat, decimicro_lon: lon })
}

fn way(id: i64, pairs: &[(&str, &str)], nodes: &[i64]) -> OsmObj {
    OsmObj::Way(Way { id, tags: tags(pairs), nodes: nodes.to_vec() })
}

fn street_way(id: i64, name: &str, nodes: &[i64]) -> OsmObj {
    way(id, &[("highway", "residential"), ("name", name)], nodes)
}

fn relation(id: i64, pairs: &[(&str, &str)], refs: &[(OsmId, &str)]) -> OsmObj {
    OsmObj::Relation(Relation {
        id,
        tags: tags(pairs),
        refs: refs.iter().map(|(m, r)| Ref { member: *m, role: r.to_string() }).collect(),
    })
}

fn graph(objs: Vec<OsmObj>) -> OsmGraph {
    let mut g = OsmGraph::new();
    for o in objs {
        g.insert(o);
    }
    g
}

fn square(min: i32, max: i32) -> MultiPolygon {
    MultiPolygon {
        polygons: vec![Polygon {
            exterior: vec![
                Coord::new(min, min),
                Coord::new(max, min),
                Coord::new(max, max),
                Coord::new(min, max),
            ],
            interiors: vec![],
        }],
    }
}

fn admin(id: &str, name: &str, level: u32, zone: Option<ZoneType>, weight: f64, min: i32, max: i32) -> Admin {
    Admin {
        id: id.to_string(),
        insee: String::new(),
        level,
        label: name.to_string(),
        name: name.to_string(),
        zip_codes: vec![],
        weight: Weight::from_bits(weight.to_bits()).unwrap(),
        coord: Coord::new((min + max) / 2, (min + max) / 2),
        boundary: Some(square(min, max)),
        bbox: None,
        zone_type: zone,
        parent_id: None,
        codes: vec![],
        names: I18nProperties(vec![]),
        labels: I18nProperties(vec![]),
    }
}

fn paris() -> Admin {
    let mut a = admin("admin:fr:75056", "Paris", 8, Some(ZoneType::City), 0.5, 0, 1000);
    a.zip_codes = vec!["75001".to_string(), "75002".to_string()];
    a.codes = vec![
        Code { name: "wikidata".to_string(), value: "Q90".to_string() },
        Code { name: "ISO3166-1:alpha2".to_string(), value: "FR".to_string() },
    ];
    a
}

fn lyon() -> Admin {
    admin("admin:fr:69123", "Lyon", 8, Some(ZoneType::City), 0.25, 2000, 3000)
}

fn france() -> Admin {
    let mut a = admin("admin:fr", "France", 2, Some(ZoneType::Country), 1.0, -5000, 5000);
    a.zip_codes = vec!["75001".to_string(), "00000".to_string()];
    a
}

fn finder() -> AdminGeoFinder {
    AdminGeoFinder::from_admins(vec![france(), paris(), lyon()])
}

fn ids(found: &[Street]) -> Vec<String> {
    found.iter().map(|s| s.id.clone()).collect()
}

fn bits(s: &Street) -> u64 {
    s.weight.bits()
}

#[test]
fn two_ways_of_one_name_in_one_city_give_one_street() {
    let g = graph(vec![
        node(1, 100, 100),
        node(2, 200, 200),
        node(3, 300, 300),
        node(4, 400, 400),
        street_way(20, "Rue de la Paix", &[3, 4]),
        street_way(10, "Rue de la Paix", &[1, 2]),
    ]);
    let found = streets(&g, &finder());
    assert_eq!(found.len(), 1);
    assert_eq!(found[0].name, "Rue de la Paix");
    assert_eq!(found[0].id, "street:osm:way:10");
    assert_eq!(found[0].label, "Rue de la Paix (Paris)");
    let names: Vec<&str> =
        found[0].administrative_regions.iter().map(|a| a.name.as_str()).collect();
    assert_eq!(names, vec!["Paris", "France"]);
    assert_eq!(found[0].coord, Coord::new(200, 200));
    assert_eq!(found[0].approx_coord, Some(Coord::new(200, 200)));
    assert_eq!(found[0].distance, None);
    assert_eq!(found[0].zip_codes, vec!["75001", "75002", "00000"]);
    assert_eq!(found[0].country_codes, vec!["FR"]);
    assert_eq!(bits(&found[0]), 0);
}

#[test]
fn unnamed_relation_takes_the_name_of_its_way() {
    let g = graph(vec![
        node(1, 100, 100),
        node(2, 200, 200),
        way(10, &[("highway", "primary"), ("name", "Avenue des Champs")], &[1, 2]),
        way(11, &[("highway", "primary"), ("name", "Avenue des Champs")], &[2, 1]),
        relation(
            7,
            &[("type", "associatedStreet")],
            &[(OsmId::Way(10), "street"), (OsmId::Way(11), "street")],
        ),
    ]);
    let found = streets(&g, &finder());
    assert_eq!(found.len(), 1);
    assert_eq!(found[0].id, "street:osm:relation:7");
    assert_eq!(found[0].name, "Avenue des Champs");
    assert_eq!(found[0].label, "Avenue des Champs (Paris)");
    assert_eq!(found[0].coord, Coord::new(200, 200));
}

#[test]
fn way_without_name_gives_no_street() {
    let g = graph(vec![
        node(1, 100, 100),
        node(2, 200, 200),
        way(10, &[("highway", "residential")], &[1, 2]),
    ]);
    assert_eq!(streets(&g, &finder()).len(), 0);
}

#[test]
fn way_with_empty_name_or_empty_highway_gives_no_street() {
    let g = graph(vec![
        node(1, 100, 100),
        way(10, &[("highway", "residential"), ("name", "")], &[1]),
        way(11, &[("highway", ""), ("name", "Rue Vide")], &[1]),
        way(12, &[("name", "Rue Sans Voie")], &[1]),
    ]);
    assert_eq!(streets(&g, &finder()).len(), 0);
}

#[test]
fn missing_middle_node_gives_a_street_without_regions() {
    let g = graph(vec![
        node(1, 100, 100),
        node(3, 300, 300),
        street_way(10, "Rue Perdue", &[1, 2, 3]),
    ]);
    let mut found = streets(&g, &finder());
    compute_street_weight(&mut found);
    assert_eq!(found.len(), 1);
    assert_eq!(found[0].id, "street:osm:way:10");
    assert_eq!(found[0].administrative_regions.len(), 0);
    assert_eq!(bits(&found[0]), 0);
    assert_eq!(found[0].label, "Rue Perdue");
    assert_eq!(found[0].coord, Coord::new(0, 0));
    assert_eq!(found[0].zip_codes.len(), 0);
    assert_eq!(found[0].country_codes.len(), 0);
}

#[test]
fn way_without_nodes_gives_a_street_without_regions() {
    let g = graph(vec![street_way(10, "Rue Nue", &[])]);
    let found = streets(&g, &finder());
    assert_eq!(ids(&found), vec!["street:osm:way:10"]);
    assert_eq!(found[0].administrative_regions.len(), 0);
}

#[test]
fn building_twice_gives_the_same_streets() {
    let objs = vec![
        node(1, 100, 100),
        node(2, 2500, 2500),
        street_way(10, "Rue A", &[1]),
        street_way(11, "Rue A", &[2]),
        street_way(12, "Rue B", &[1]),
        relation(5, &[("type", "associatedStreet"), ("name", "Rue C")], &[(OsmId::Way(12), "street")]),
    ];
    let g = graph(objs.clone());
    let h = graph(objs.into_iter().rev().collect());
    let f = finder();
    let first = ids(&streets(&g, &f));
    let second = ids(&streets(&g, &f));
    let third = ids(&streets(&h, &f));
    assert_eq!(first, second);
    assert_eq!(first, third);
    assert_eq!(first, vec!["street:osm:relation:5", "street:osm:way:11", "street:osm:way:10"]);
}

#[test]
fn ways_of_a_relation_give_no_street_of_their_own() {
    let g = graph(vec![
        node(1, 100, 100),
        street_way(10, "Rue Haute", &[1]),
        street_way(11, "Rue Haute", &[1]),
        street_way(12, "Rue Basse", &[1]),
        relation(
            7,
            &[("type", "associatedStreet"), ("name", "Rue Haute")],
            &[(OsmId::Node(1), "house"), (OsmId::Way(10), "street"), (OsmId::Way(11), "house")],
        ),
    ]);
    let found = ids(&streets(&g, &finder()));
    assert_eq!(found, vec!["street:osm:relation:7", "street:osm:way:12"]);
    assert_eq!(found.iter().filter(|id| id.as_str() == "street:osm:relation:7").count(), 1);
    assert!(!found.contains(&"street:osm:way:10".to_string()));
    assert!(!found.contains(&"street:osm:way:11".to_string()));
}

#[test]
fn relation_without_a_street_member_gives_nothing_and_takes_its_ways() {
    let g = graph(vec![
        node(1, 100, 100),
        street_way(10, "Rue Haute", &[1]),
        relation(7, &[("type", "associatedStreet"), ("name", "Rue Haute")], &[(OsmId::Way(10), "house")]),
    ]);
    assert_eq!(streets(&g, &finder()).len(), 0);
}

#[test]
fn relation_of_another_type_takes_no_way() {
    let g = graph(vec![
        node(1, 100, 100),
        street_way(10, "Rue Haute", &[1]),
        relation(7, &[("type", "route"), ("name", "Ligne 7")], &[(OsmId::Way(10), "street")]),
    ]);
    assert_eq!(ids(&streets(&g, &finder())), vec!["street:osm:way:10"]);
}

#[test]
fn named_relation_keeps_its_own_name() {
    let g = graph(vec![
        node(1, 2500, 2500),
        way(10, &[("highway", "primary")], &[1]),
        relation(
            7,
            &[("name", "Cours Lafayette"), ("type", "associatedStreet")],
            &[(OsmId::Way(99), "street"), (OsmId::Way(10), "street")],
        ),
    ]);
    let found = streets(&g, &finder());
    assert_eq!(found.len(), 1);
    assert_eq!(found[0].name, "Cours Lafayette");
    assert_eq!(found[0].label, "Cours Lafayette (Lyon)");
    assert_eq!(found[0].coord, Coord::new(2500, 2500));
}

#[test]
fn unnamed_relation_skips_members_without_a_name() {
    let g = graph(vec![
        node(1, 100, 100),
        node(2, 2500, 2500),
        way(10, &[("highway", "primary")], &[1]),
        way(11, &[("highway", "primary"), ("name", "Quai Sud")], &[2]),
        relation(
            7,
            &[("type", "associatedStreet")],
            &[(OsmId::Way(10), "street"), (OsmId::Way(11), "street")],
        ),
    ]);
    let found = streets(&g, &finder());
    assert_eq!(found.len(), 1);
    assert_eq!(found[0].name, "Quai Sud");
    assert_eq!(found[0].coord, Coord::new(2500, 2500));
}

#[test]
fn the_smallest_way_stands_for_its_group() {
    let forward = graph(vec![
        node(1, 100, 100),
        street_way(30, "Rue A", &[1]),
        street_way(7, "Rue A", &[1]),
        street_way(19, "Rue A", &[1]),
    ]);
    let backward = graph(vec![
        street_way(19, "Rue A", &[1]),
        street_way(7, "Rue A", &[1]),
        street_way(30, "Rue A", &[1]),
        node(1, 100, 100),
    ]);
    assert_eq!(ids(&streets(&forward, &finder())), vec!["street:osm:way:7"]);
    assert_eq!(ids(&streets(&backward, &finder())), vec!["street:osm:way:7"]);
}

#[test]
fn one_name_in_two_cities_gives_two_streets_in_the_order_of_their_keys() {
    let g = graph(vec![
        node(1, 100, 100),
        node(2, 2500, 2500),
        node(3, 4000, 4000),
        street_way(10, "Rue Victor Hugo", &[1]),
        street_way(11, "Rue Victor Hugo", &[2]),
        street_way(12, "Rue Victor Hugo", &[3]),
        street_way(13, "Avenue Foch", &[1]),
    ]);
    let found = streets(&g, &finder());
    assert_eq!(
        ids(&found),
        vec!["street:osm:way:13", "street:osm:way:12", "street:osm:way:11", "street:osm:way:10"]
    );
    assert_eq!(found[1].label, "Rue Victor Hugo");
    assert_eq!(found[2].label, "Rue Victor Hugo (Lyon)");
    assert_eq!(found[3].label, "Rue Victor Hugo (Paris)");
}

#[test]
fn negative_numbers_are_written_with_a_sign() {
    let g = graph(vec![
        street_way(-5, "Rue Moins", &[]),
        relation(-12, &[("type", "associatedStreet"), ("name", "Rue Douze")], &[(OsmId::Way(-5), "street")]),
    ]);
    assert_eq!(ids(&streets(&g, &finder())), vec!["street:osm:relation:-12"]);
    let h = graph(vec![street_way(-5, "Rue Moins", &[])]);
    assert_eq!(ids(&streets(&h, &finder())), vec!["street:osm:way:-5"]);
}

#[test]
fn no_two_streets_share_an_identity() {
    let g = graph(vec![
        node(1, 100, 100),
        street_way(7, "Rue A", &[1]),
        street_way(8, "Rue B", &[1]),
        relation(7, &[("type", "associatedStreet"), ("name", "Rue Sept")], &[(OsmId::Way(9), "street")]),
        street_way(9, "Rue C", &[1]),
    ]);
    let mut found = ids(&streets(&g, &finder()));
    assert_eq!(found.len(), 3);
    found.sort();
    found.dedup();
    assert_eq!(found.len(), 3);
}

#[test]
fn a_street_takes_the_weight_of_its_first_city() {
    let g = graph(vec![
        node(1, 100, 100),
        node(2, 4000, 4000),
        street_way(10, "Rue A", &[1]),
        street_way(11, "Rue B", &[2]),
    ]);
    let mut found = streets(&g, &finder());
    assert_eq!(bits(&found[0]), 0);
    compute_street_weight(&mut found);
    assert_eq!(ids(&found), vec!["street:osm:way:10", "street:osm:way:11"]);
    assert_eq!(bits(&found[0]), 0.5f64.to_bits());
    assert_eq!(f64::from_bits(bits(&found[0])), 0.5);
    assert_eq!(bits(&found[1]), 0);
    assert!(found.iter().all(|s| f64::from_bits(bits(s)) >= 0.0));
}

#[test]
fn the_first_city_in_stored_order_gives_the_weight() {
    let first = Arc::new(admin("a", "A", 8, Some(ZoneType::City), 0.125, 0, 10));
    let second = Arc::new(admin("b", "B", 8, Some(ZoneType::City), 0.75, 0, 10));
    let land = Arc::new(admin("c", "C", 2, Some(ZoneType::Country), 1.0, 0, 10));
    let mut found = vec![Street {
        id: "street:osm:way:1".to_string(),
        name: "Rue".to_string(),
        label: "Rue".to_string(),
        administrative_regions: vec![land.clone(), second, first, land],
        weight: Weight::from_bits(3.0f64.to_bits()).unwrap(),
        zip_codes: vec![],
        coord: Coord::new(0, 0),
        approx_coord: None,
        distance: None,
        country_codes: vec![],
    }];
    compute_street_weight(&mut found);
    assert_eq!(f64::from_bits(bits(&found[0])), 0.75);
    found[0].administrative_regions.truncate(1);
    found[0].weight = Weight::from_bits(3.0f64.to_bits()).unwrap();
    compute_street_weight(&mut found);
    assert_eq!(f64::from_bits(bits(&found[0])), 3.0);
}

#[test]
fn the_reader_is_asked_for_street_ways_and_street_relations() {
    assert!(is_valid_obj(&street_way(1, "Rue", &[])));
    assert!(!is_valid_obj(&way(1, &[("highway", "residential")], &[])));
    assert!(!is_valid_obj(&way(1, &[("name", "Rue")], &[])));
    assert!(!is_valid_obj(&way(1, &[("highway", "residential"), ("name", "")], &[])));
    assert!(is_valid_obj(&relation(1, &[("type", "associatedStreet")], &[])));
    assert!(!is_valid_obj(&relation(1, &[("type", "multipolygon")], &[])));
    assert!(!is_valid_obj(&relation(1, &[], &[])));
    assert!(!is_valid_obj(&node(1, 0, 0)));
}

#[test]
fn the_middle_node_stands_for_the_way() {
    let g = graph(vec![
        node(1, 100, 110),
        node(2, 200, 210),
        node(3, 2500, 2510),
        node(4, 400, 410),
    ]);
    let w = |nodes: &[i64]| Way { id: 9, tags: tags(&[]), nodes: nodes.to_vec() };
    assert_eq!(get_way_midpoint(&g, &w(&[1, 2, 3, 4])), Some(Coord::new(2500, 2510)));
    assert_eq!(get_way_midpoint(&g, &w(&[1, 2, 3])), Some(Coord::new(200, 210)));
    assert_eq!(get_way_midpoint(&g, &w(&[1])), Some(Coord::new(100, 110)));
    assert_eq!(get_way_midpoint(&g, &w(&[1, 2, 77, 4])), None);
    assert_eq!(get_way_midpoint(&g, &w(&[])), None);
    assert_eq!(get_way_coord(&g, &w(&[1, 2, 77, 4])), Coord::new(0, 0));
    assert_eq!(get_way_coord(&g, &w(&[1, 2])), Coord::new(200, 210));
    let f = finder();
    let around: Vec<String> =
        get_street_admin(&f, &g, &w(&[1, 2, 3, 4])).iter().map(|a| a.name.clone()).collect();
    assert_eq!(around, vec!["Lyon", "France"]);
    assert_eq!(get_street_admin(&f, &g, &w(&[1, 2, 77, 4])).len(), 0);
}
