use mimirsbrunn::admin::{Admin, Code, I18nProperties, Property, ZoneType};
use mimirsbrunn::coord::{BBox, Coord};
use mimirsbrunn::model::v1::{
    AutocompleteResponse, CustomError, EndPoint, HasStatus, HttpStatus, Status,
};
use mimirsbrunn::model::{
    get_admin_type, get_city_name, get_citycode, response_on_typed_admin, AssociatedAdmin,
    Autocomplete, BragiError, EsError, Feature, FromWithLang, GeocodingResponse, Geometry, ToGeom,
};
use mimirsbrunn::objects::{
    Addr, Address, Comment, CommercialMode, FeedPublisher, PhysicalMode, Place, Poi, PoiType,
    Stop, Street,
};
use mimirsbrunn::weight::Weight;
use std::sync::Arc;

fn text(s: &str) -> String {
    s.to_string()
}

fn admin(id: &str, name: &str, zone: Option<ZoneType>) -> Admin {
    Admin {
        id: text(id),
        insee: format!("insee-{}", id),
        level: 8,
        label: format!("{} (label)", name),
        name: text(name),
        zip_codes: vec![text("75001"), text("75002")],
        weight: Weight::zero(),
        coord: Coord::new(23_000_000, 488_000_000),
        boundary: None,
        bbox: Some(BBox { min: Coord::new(1, 2), max: Coord::new(3, 4) }),
        zone_type: zone,
        parent_id: Some(text("admin:parent")),
        codes: vec![Code { name: text("wikidata"), value: text("Q90") }],
        names: I18nProperties(vec![Property { key: text("it"), value: text("Parigi") }]),
        labels: I18nProperties(vec![Property { key: text("it"), value: text("Parigi (Francia)") }]),
    }
}

fn around() -> Vec<Arc<Admin>> {
    vec![
        Arc::new(admin("suburb", "Montmartre", Some(ZoneType::Suburb))),
        Arc::new(admin("paris", "Paris", Some(ZoneType::City))),
        Arc::new(admin("france", "France", Some(ZoneType::Country))),
    ]
}

fn street() -> Street {
    Street {
        id: text("street:osm:way:10"),
        name: text("Rue de la Paix"),
        label: text("Rue de la Paix (Paris)"),
        administrative_regions: around(),
        weight: Weight::zero(),
        zip_codes: vec![text("75002")],
        coord: Coord::new(10, 20),
        approx_coord: None,
        distance: None,
        country_codes: vec![text("FR")],
    }
}

fn addr() -> Addr {
    Addr {
        id: text("addr:1"),
        name: text("12 Rue de la Paix"),
        house_number: text("12"),
        street: street(),
        label: text("12 Rue de la Paix (Paris)"),
        coord: Coord::new(11, 21),
        approx_coord: None,
        weight: Weight::zero(),
        zip_codes: vec![],
        distance: None,
        country_codes: vec![],
    }
}

fn poi(address: Option<Address>) -> Poi {
    Poi {
        id: text("poi:1"),
        label: text("Louvre (Paris)"),
        name: text("Louvre"),
        coord: Coord::new(12, 22),
        approx_coord: None,
        administrative_regions: around(),
        weight: Weight::zero(),
        zip_codes: vec![text("75001")],
        poi_type: PoiType { id: text("poi_type:museum"), name: text("Museum") },
        properties: vec![Property { key: text("wheelchair"), value: text("yes") }],
        address,
        country_codes: vec![],
        names: I18nProperties(vec![]),
        labels: I18nProperties(vec![]),
        distance: None,
    }
}

fn stop() -> Stop {
    Stop {
        id: text("stop:1"),
        label: text("Opéra (Paris)"),
        name: text("Opéra"),
        coord: Coord::new(13, 23),
        approx_coord: None,
        administrative_regions: vec![Arc::new(admin("france", "France", Some(ZoneType::Country)))],
        weight: Weight::zero(),
        zip_codes: vec![text("75009"), text("75002")],
        commercial_modes: vec![CommercialMode { id: text("cm:metro"), name: text("Métro") }],
        physical_modes: vec![PhysicalMode { id: text("pm:metro"), name: text("Metro") }],
        coverages: vec![text("fr-idf")],
        comments: vec![Comment { name: text("escalator") }],
        timezone: text("Europe/Paris"),
        codes: vec![Code { name: text("source"), value: text("S1") }],
        properties: vec![Property { key: text("k"), value: text("v") }],
        feed_publishers: vec![FeedPublisher {
            id: text("fp"),
            license: text("ODbL"),
            name: text("publisher"),
            url: text("http://example.org"),
        }],
        distance: None,
    }
}

fn opt(s: &Option<String>) -> Option<&str> {
    s.as_ref().map(|s| s.as_str())
}

#[test]
fn a_zone_type_is_named_in_snake_case() {
    assert_eq!(get_admin_type(&admin("a", "A", Some(ZoneType::City))), "city");
    assert_eq!(get_admin_type(&admin("a", "A", Some(ZoneType::CityDistrict))), "city_district");
    assert_eq!(get_admin_type(&admin("a", "A", Some(ZoneType::Suburb))), "suburb");
    assert_eq!(get_admin_type(&admin("a", "A", Some(ZoneType::StateDistrict))), "state_district");
    assert_eq!(get_admin_type(&admin("a", "A", Some(ZoneType::State))), "state");
    assert_eq!(get_admin_type(&admin("a", "A", Some(ZoneType::CountryRegion))), "country_region");
    assert_eq!(get_admin_type(&admin("a", "A", Some(ZoneType::Country))), "country");
    assert_eq!(
        get_admin_type(&admin("a", "A", Some(ZoneType::NonAdministrative))),
        "non_administrative"
    );
    assert_eq!(get_admin_type(&admin("a", "A", None)), "administrative_region");
}

#[test]
fn the_first_city_gives_its_name_and_code() {
    assert_eq!(get_city_name(&around()), Some(text("Paris")));
    assert_eq!(get_citycode(&around()), Some(text("insee-paris")));
    assert_eq!(get_city_name(&around()[..1].to_vec()), None);
    assert_eq!(get_citycode(&vec![]), None);
}

#[test]
fn a_region_is_shown_in_the_language_asked_for() {
    let a = admin("paris", "Paris", Some(ZoneType::City));
    let plain = AssociatedAdmin::from_with_lang(&a, None);
    assert_eq!(plain.id, "paris");
    assert_eq!(plain.insee, "insee-paris");
    assert_eq!(plain.level, 8);
    assert_eq!(plain.name, "Paris");
    assert_eq!(plain.label, "Paris (label)");
    assert_eq!(plain.zip_codes, vec!["75001", "75002"]);
    assert_eq!(plain.coord, Coord::new(23_000_000, 488_000_000));
    assert_eq!(plain.bbox, Some(BBox { min: Coord::new(1, 2), max: Coord::new(3, 4) }));
    assert_eq!(plain.zone_type, Some(ZoneType::City));
    assert_eq!(opt(&plain.parent_id), Some("admin:parent"));
    assert_eq!(plain.codes.len(), 1);
    assert_eq!(plain.codes[0].value, "Q90");
    let italian = AssociatedAdmin::from_with_lang(&a, Some("it"));
    assert_eq!(italian.name, "Parigi");
    assert_eq!(italian.label, "Parigi (Francia)");
    let german = AssociatedAdmin::from_with_lang(&a, Some("de"));
    assert_eq!(german.name, "Paris");
    assert_eq!(german.label, "Paris (label)");
}

#[test]
fn the_answer_on_a_region() {
    let r = GeocodingResponse::from_with_lang(admin("paris", "Paris", Some(ZoneType::City)), Some("it"));
    assert_eq!(r.id, "paris");
    assert_eq!(r.place_type, "city");
    assert_eq!(opt(&r.name), Some("Parigi"));
    assert_eq!(opt(&r.label), Some("Parigi (Francia)"));
    assert_eq!(opt(&r.citycode), Some("insee-paris"));
    assert_eq!(r.level, Some(8));
    assert_eq!(opt(&r.postcode), Some("75001;75002"));
    assert_eq!(r.bbox, Some(BBox { min: Coord::new(1, 2), max: Coord::new(3, 4) }));
    assert_eq!(r.codes.len(), 1);
    assert_eq!(r.housenumber, None);
    assert_eq!(r.street, None);
    assert_eq!(r.city, None);
    assert_eq!(r.administrative_regions.len(), 0);
    assert!(r.address.is_none());
    assert_eq!(r.timezone, None);
    let mut bare = admin("x", "X", None);
    bare.zip_codes = vec![];
    let r = GeocodingResponse::from_with_lang(bare, None);
    assert_eq!(r.place_type, "administrative_region");
    assert_eq!(r.postcode, None);
    assert_eq!(opt(&r.name), Some("X"));
}

#[test]
fn the_answer_on_a_region_of_a_given_kind() {
    let r = response_on_typed_admin(
        admin("paris", "Paris", Some(ZoneType::City)),
        None,
        text("any_kind"),
    );
    assert_eq!(r.id, "paris");
    assert_eq!(r.place_type, "any_kind");
    assert_eq!(opt(&r.name), Some("Paris"));
    assert_eq!(opt(&r.label), Some("Paris (label)"));
    assert_eq!(opt(&r.citycode), Some("insee-paris"));
    assert_eq!(r.level, Some(8));
    assert_eq!(opt(&r.postcode), Some("75001;75002"));
    assert_eq!(r.codes.len(), 1);
    assert_eq!(r.city, None);
}

#[test]
fn the_answer_on_a_street() {
    let r = GeocodingResponse::from_with_lang(street(), Some("it"));
    assert_eq!(r.id, "street:osm:way:10");
    assert_eq!(r.place_type, "street");
    assert_eq!(opt(&r.name), Some("Rue de la Paix"));
    assert_eq!(opt(&r.street), Some("Rue de la Paix"));
    assert_eq!(opt(&r.label), Some("Rue de la Paix (Paris)"));
    assert_eq!(opt(&r.city), Some("Paris"));
    assert_eq!(opt(&r.citycode), Some("insee-paris"));
    assert_eq!(opt(&r.postcode), Some("75002"));
    assert_eq!(r.housenumber, None);
    assert_eq!(r.level, None);
    assert_eq!(r.bbox, None);
    let names: Vec<&str> = r.administrative_regions.iter().map(|a| a.name.as_str()).collect();
    assert_eq!(names, vec!["Parigi", "Parigi", "Parigi"]);
    let ids: Vec<&str> = r.administrative_regions.iter().map(|a| a.id.as_str()).collect();
    assert_eq!(ids, vec!["suburb", "paris", "france"]);
}

#[test]
fn the_answer_on_an_address() {
    let r = GeocodingResponse::from_with_lang(addr(), None);
    assert_eq!(r.id, "addr:1");
    assert_eq!(r.place_type, "house");
    assert_eq!(opt(&r.name), Some("12 Rue de la Paix"));
    assert_eq!(opt(&r.housenumber), Some("12"));
    assert_eq!(opt(&r.street), Some("Rue de la Paix"));
    assert_eq!(opt(&r.label), Some("12 Rue de la Paix (Paris)"));
    assert_eq!(opt(&r.city), Some("Paris"));
    assert_eq!(opt(&r.citycode), Some("insee-paris"));
    assert_eq!(r.postcode, None);
    assert_eq!(r.administrative_regions.len(), 3);
    assert_eq!(r.administrative_regions[1].name, "Paris");
}

#[test]
fn the_answer_on_a_point_of_interest() {
    let r = GeocodingResponse::from_with_lang(poi(Some(Address::Addr(addr()))), None);
    assert_eq!(r.id, "poi:1");
    assert_eq!(r.place_type, "poi");
    assert_eq!(opt(&r.name), Some("Louvre"));
    assert_eq!(opt(&r.label), Some("Louvre (Paris)"));
    assert_eq!(opt(&r.city), Some("Paris"));
    assert_eq!(opt(&r.postcode), Some("75001"));
    assert_eq!(r.poi_types.len(), 1);
    assert_eq!(r.poi_types[0].id, "poi_type:museum");
    assert_eq!(r.properties.len(), 1);
    assert_eq!(r.properties[0].key, "wheelchair");
    assert_eq!(r.street, None);
    let address = r.address.unwrap();
    assert_eq!(address.place_type, "house");
    assert_eq!(opt(&address.housenumber), Some("12"));
    let r = GeocodingResponse::from_with_lang(poi(Some(Address::Street(street()))), None);
    assert_eq!(r.address.unwrap().place_type, "street");
    let r = GeocodingResponse::from_with_lang(poi(None), None);
    assert!(r.address.is_none());
}

#[test]
fn the_answer_on_a_stop() {
    let r = GeocodingResponse::from_with_lang(stop(), None);
    assert_eq!(r.id, "stop:1");
    assert_eq!(r.place_type, "public_transport:stop_area");
    assert_eq!(opt(&r.name), Some("Opéra"));
    assert_eq!(opt(&r.label), Some("Opéra (Paris)"));
    assert_eq!(r.city, None);
    assert_eq!(r.citycode, None);
    assert_eq!(opt(&r.postcode), Some("75009;75002"));
    assert_eq!(opt(&r.timezone), Some("Europe/Paris"));
    assert_eq!(r.commercial_modes[0].name, "Métro");
    assert_eq!(r.physical_modes[0].id, "pm:metro");
    assert_eq!(r.comments[0].name, "escalator");
    assert_eq!(r.codes[0].value, "S1");
    assert_eq!(r.properties[0].value, "v");
    assert_eq!(r.feed_publishers[0].license, "ODbL");
    assert_eq!(r.administrative_regions.len(), 1);
    assert_eq!(r.poi_types.len(), 0);
}

#[test]
fn an_answer_that_says_nothing() {
    let r = GeocodingResponse::default();
    assert_eq!(r.id, "");
    assert_eq!(r.place_type, "");
    assert_eq!(r.name, None);
    assert_eq!(r.administrative_regions.len(), 0);
    assert!(r.address.is_none());
    assert_eq!(r.bbox, None);
}

#[test]
fn a_place_has_the_shape_of_its_position() {
    assert_eq!(Coord::new(3, 4).to_geom(), Geometry::Point(Coord::new(3, 4)));
    assert_eq!(Place::Street(street()).to_geom(), Geometry::Point(Coord::new(10, 20)));
    assert_eq!(Place::Addr(addr()).to_geom(), Geometry::Point(Coord::new(11, 21)));
    assert_eq!(Place::Poi(poi(None)).to_geom(), Geometry::Point(Coord::new(12, 22)));
    assert_eq!(Place::Stop(stop()).to_geom(), Geometry::Point(Coord::new(13, 23)));
    assert_eq!(
        Place::Admin(admin("a", "A", None)).to_geom(),
        Geometry::Point(Coord::new(23_000_000, 488_000_000))
    );
}

#[test]
fn a_place_becomes_a_feature() {
    let f = Feature::from_with_lang(Place::Street(street()), None);
    assert_eq!(f.feature_type, "Feature");
    assert_eq!(f.geometry, Geometry::Point(Coord::new(10, 20)));
    assert_eq!(f.distance, None);
    assert_eq!(f.properties.geocoding.place_type, "street");
    let kinds: Vec<String> = vec![
        Place::Admin(admin("a", "A", Some(ZoneType::State))),
        Place::Street(street()),
        Place::Addr(addr()),
        Place::Poi(poi(None)),
        Place::Stop(stop()),
    ]
    .into_iter()
    .map(|p| Feature::from_with_lang(p, None).properties.geocoding.place_type)
    .collect();
    assert_eq!(kinds, vec!["state", "street", "house", "poi", "public_transport:stop_area"]);
}

#[test]
fn an_answer_holds_its_query_and_its_features() {
    let a = Autocomplete::new(text("rue de la paix"), vec![Feature::from_with_lang(Place::Street(street()), None)]);
    assert_eq!(a.format_type, "FeatureCollection");
    assert_eq!(a.geocoding.version(), "0.1.0");
    assert_eq!(opt(a.geocoding.query()), Some("rue de la paix"));
    assert_eq!(a.features.len(), 1);
    let b = Autocomplete::from_with_lang(vec![Place::Stop(stop()), Place::Addr(addr())], Some("it"));
    assert_eq!(b.format_type, "FeatureCollection");
    assert_eq!(opt(b.geocoding.query()), Some(""));
    let ids: Vec<&str> = b.features.iter().map(|f| f.properties.geocoding.id.as_str()).collect();
    assert_eq!(ids, vec!["stop:1", "addr:1"]);
    assert_eq!(b.features[1].properties.geocoding.administrative_regions[1].name, "Parigi");
    assert_eq!(Autocomplete::from_with_lang(vec![], None).features.len(), 0);
}

fn report(e: BragiError) -> CustomError {
    match AutocompleteResponse::from_with_lang(Err(e), None) {
        AutocompleteResponse::Error(err) => err,
        AutocompleteResponse::Autocomplete(_) => panic!("an error gives no places"),
    }
}

#[test]
fn each_error_is_reported_with_its_status() {
    let e = report(BragiError::ObjectNotFound);
    assert_eq!(e.short, "query error");
    assert_eq!(e.long, "Unable to find object");
    assert_eq!(e.status, HttpStatus::NotFound);
    let e = report(BragiError::IndexNotFound);
    assert_eq!(e.short, "query error");
    assert_eq!(e.long, "Impossible to find object");
    assert_eq!(e.status, HttpStatus::NotFound);
    let e = report(BragiError::Es(EsError::HttpError(text("connection refused"))));
    assert_eq!(e.short, "query error");
    assert_eq!(e.long, "service unavailable");
    assert_eq!(e.status, HttpStatus::ServiceUnavailable);
    let e = report(BragiError::from(EsError::Failure(text("parse error"))));
    assert_eq!(e.long, "internal server error");
    assert_eq!(e.status, HttpStatus::InternalServerError);
}

#[test]
fn places_found_are_answered_with_success() {
    let r = AutocompleteResponse::from_with_lang(Ok(vec![Place::Street(street())]), None);
    assert_eq!(r.status(), HttpStatus::Success);
    match r {
        AutocompleteResponse::Autocomplete(a) => {
            assert_eq!(a.features.len(), 1);
            assert_eq!(a.features[0].properties.geocoding.id, "street:osm:way:10");
        },
        AutocompleteResponse::Error(_) => panic!("places give no error"),
    }
    let failed = AutocompleteResponse::from_with_lang(Err(BragiError::IndexNotFound), None);
    assert_eq!(failed.status(), HttpStatus::NotFound);
    assert_eq!(EndPoint { description: text("autocomplete") }.status(), HttpStatus::Success);
    let state = Status { version: text("1"), es: text("up"), status: text("good") };
    assert_eq!(state.status(), HttpStatus::Success);
}

#[test]
fn an_error_says_what_went_wrong() {
    assert_eq!(BragiError::ObjectNotFound.message(), "Unable to find object");
    assert_eq!(BragiError::IndexNotFound.message(), "Impossible to find object");
    assert_eq!(BragiError::Es(EsError::Failure(text("boom"))).message(), "invalid query boom");
    assert_eq!(BragiError::Es(EsError::HttpError(text("down"))).message(), "invalid query down");
    assert!(matches!(BragiError::from(EsError::HttpError(text("x"))), BragiError::Es(EsError::HttpError(_))));
}
