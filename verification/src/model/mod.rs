//! The answers of the geocoding service: what each kind of place becomes when
//! it is handed out, in the language asked for.

pub mod v1;

use crate::admin::{city, first_city, Admin, Code, Property, ZoneType};
use crate::coord::{BBox, Coord};
use crate::objects::{
    Addr, Address, CommercialMode, Comment, FeedPublisher, PhysicalMode, Place, Poi, PoiType, Stop,
    Street,
};
use crate::scan::first_index;
use crate::text::{clone_strings, join, join_strings};
use heck::SnakeCase;
use std::sync::Arc;
use vstd::prelude::*;

verus! {

/// A failure of the search engine behind the service.
#[derive(Debug)]
pub enum EsError {
    /// The engine could not be reached.
    HttpError(String),
    /// The engine answered with a failure.
    Failure(String),
}

impl EsError {
    /// The words of the failure.
    pub open spec fn text(&self) -> Seq<char> {
        match self {
            EsError::HttpError(s) => s@,
            EsError::Failure(s) => s@,
        }
    }
}

/// What can go wrong with a query.
#[derive(Debug)]
pub enum BragiError {
    ObjectNotFound,
    IndexNotFound,
    Es(EsError),
}

impl BragiError {
    /// What the error says.
    pub open spec fn spec_message(&self) -> Seq<char> {
        match self {
            BragiError::ObjectNotFound => "Unable to find object"@,
            BragiError::IndexNotFound => "Impossible to find object"@,
            BragiError::Es(e) => "invalid query "@ + e.text(),
        }
    }

    /// What the error says.
    pub fn message(&self) -> (r: String)
        ensures
            r@ == self.spec_message(),
    {
        match self {
            BragiError::ObjectNotFound => "Unable to find object".to_owned(),
            BragiError::IndexNotFound => "Impossible to find object".to_owned(),
            BragiError::Es(e) => {
                let mut s = "invalid query ".to_owned();
                match e {
                    EsError::HttpError(m) => s.append(m.as_str()),
                    EsError::Failure(m) => s.append(m.as_str()),
                }
                s
            },
        }
    }
}

impl From<EsError> for BragiError {
    fn from(e: EsError) -> (r: BragiError) {
        BragiError::Es(e)
    }
}

impl vstd::std_specs::convert::FromSpecImpl<EsError> for BragiError {
    open spec fn obeys_from_spec() -> bool {
        true
    }

    open spec fn from_spec(e: EsError) -> BragiError {
        BragiError::Es(e)
    }
}

/// The head of an answer: the version of the format, and the query answered.
#[derive(Debug)]
pub struct Geocoding {
    version: String,
    query: Option<String>,
}

impl Geocoding {
    pub closed spec fn spec_version(&self) -> String {
        self.version
    }

    pub closed spec fn spec_query(&self) -> Option<String> {
        self.query
    }

    /// The version of the format.
    pub fn version(&self) -> (v: &String)
        ensures
            *v == self.spec_version(),
    {
        &self.version
    }

    /// The query answered.
    pub fn query(&self) -> (q: &Option<String>)
        ensures
            *q == self.spec_query(),
    {
        &self.query
    }
}

/// The shape of a place on the map.
#[derive(Clone, Copy, PartialEq, Eq, Structural, Debug)]
pub enum Geometry {
    Point(Coord),
}

/// A place of an answer.
#[derive(Debug)]
pub struct Feature {
    pub feature_type: String,
    pub geometry: Geometry,
    pub properties: Properties,
    pub distance: Option<u32>,
}

#[derive(Debug)]
pub struct Properties {
    pub geocoding: GeocodingResponse,
}

/// A region around a place, as an answer shows it.
#[derive(Debug)]
pub struct AssociatedAdmin {
    pub id: String,
    pub insee: String,
    pub level: u32,
    pub label: String,
    pub name: String,
    pub zip_codes: Vec<String>,
    pub coord: Coord,
    pub bbox: Option<BBox>,
    pub zone_type: Option<ZoneType>,
    /// The identity of the enclosing region.
    pub parent_id: Option<String>,
    pub codes: Vec<Code>,
}

/// What a region of an answer holds, with its texts as sequences of
/// characters.
pub struct AssociatedAdminView {
    pub id: Seq<char>,
    pub insee: Seq<char>,
    pub level: u32,
    pub label: Seq<char>,
    pub name: Seq<char>,
    pub zip_codes: Seq<Seq<char>>,
    pub coord: Coord,
    pub bbox: Option<BBox>,
    pub zone_type: Option<ZoneType>,
    pub parent_id: Option<Seq<char>>,
    pub codes: Seq<Code>,
}

/// The characters of an optional text.
pub open spec fn opt_text(o: Option<String>) -> Option<Seq<char>> {
    match o {
        Some(s) => Some(s@),
        None => None,
    }
}

/// The characters of an optional language code.
pub open spec fn lang_view(lang: Option<&str>) -> Option<Seq<char>> {
    match lang {
        Some(s) => Some(s@),
        None => None,
    }
}

impl DeepView for AssociatedAdmin {
    type V = AssociatedAdminView;

    open spec fn deep_view(&self) -> AssociatedAdminView {
        AssociatedAdminView {
            id: self.id@,
            insee: self.insee@,
            level: self.level,
            label: self.label@,
            name: self.name@,
            zip_codes: self.zip_codes.deep_view(),
            coord: self.coord,
            bbox: self.bbox,
            zone_type: self.zone_type,
            parent_id: opt_text(self.parent_id),
            codes: self.codes@,
        }
    }
}

/// What the service says of one place.
#[derive(Debug)]
pub struct GeocodingResponse {
    pub id: String,
    pub place_type: String,
    pub label: Option<String>,
    pub name: Option<String>,
    pub housenumber: Option<String>,
    pub street: Option<String>,
    pub postcode: Option<String>,
    pub city: Option<String>,
    pub citycode: Option<String>,
    pub level: Option<u32>,
    pub administrative_regions: Vec<AssociatedAdmin>,
    pub poi_types: Vec<PoiType>,
    pub properties: Vec<Property>,
    pub address: Option<Box<GeocodingResponse>>,
    pub commercial_modes: Vec<CommercialMode>,
    pub comments: Vec<Comment>,
    pub physical_modes: Vec<PhysicalMode>,
    pub timezone: Option<String>,
    pub codes: Vec<Code>,
    pub feed_publishers: Vec<FeedPublisher>,
    pub bbox: Option<BBox>,
}

/// What an answer on one place holds, with its texts as sequences of
/// characters.
pub struct GeocodingView {
    pub id: Seq<char>,
    pub place_type: Seq<char>,
    pub label: Option<Seq<char>>,
    pub name: Option<Seq<char>>,
    pub housenumber: Option<Seq<char>>,
    pub street: Option<Seq<char>>,
    pub postcode: Option<Seq<char>>,
    pub city: Option<Seq<char>>,
    pub citycode: Option<Seq<char>>,
    pub level: Option<u32>,
    pub administrative_regions: Seq<AssociatedAdminView>,
    pub poi_types: Seq<PoiType>,
    pub properties: Seq<Property>,
    pub address: Option<Box<GeocodingView>>,
    pub commercial_modes: Seq<CommercialMode>,
    pub comments: Seq<Comment>,
    pub physical_modes: Seq<PhysicalMode>,
    pub timezone: Option<Seq<char>>,
    pub codes: Seq<Code>,
    pub feed_publishers: Seq<FeedPublisher>,
    pub bbox: Option<BBox>,
}

impl DeepView for GeocodingResponse {
    type V = GeocodingView;

    open spec fn deep_view(&self) -> GeocodingView
        decreases self,
    {
        GeocodingView {
            id: self.id@,
            place_type: self.place_type@,
            label: opt_text(self.label),
            name: opt_text(self.name),
            housenumber: opt_text(self.housenumber),
            street: opt_text(self.street),
            postcode: opt_text(self.postcode),
            city: opt_text(self.city),
            citycode: opt_text(self.citycode),
            level: self.level,
            administrative_regions: self.administrative_regions.deep_view(),
            poi_types: self.poi_types@,
            properties: self.properties@,
            address: match self.address {
                Some(a) => Some(Box::new((*a).deep_view())),
                None => None,
            },
            commercial_modes: self.commercial_modes@,
            comments: self.comments@,
            physical_modes: self.physical_modes@,
            timezone: opt_text(self.timezone),
            codes: self.codes@,
            feed_publishers: self.feed_publishers@,
            bbox: self.bbox,
        }
    }
}

/// The name of the variant of a zone type.
pub open spec fn zone_type_name(t: ZoneType) -> Seq<char> {
    match t {
        ZoneType::Suburb => "Suburb"@,
        ZoneType::CityDistrict => "CityDistrict"@,
        ZoneType::City => "City"@,
        ZoneType::StateDistrict => "StateDistrict"@,
        ZoneType::State => "State"@,
        ZoneType::CountryRegion => "CountryRegion"@,
        ZoneType::Country => "Country"@,
        ZoneType::NonAdministrative => "NonAdministrative"@,
    }
}

/// A text in snake case: its words in lower case, joined by underscores.
/// This names what `to_snake_case` of the crate `heck` returns.
pub uninterp spec fn snake_case(s: Seq<char>) -> Seq<char>;

/// Turns a text into snake case.
///
/// Wraps `heck::SnakeCase::to_snake_case` on `str`. The result depends on the
/// text alone; it is named by `snake_case` and nothing more is claimed of it.
#[verifier::external_body]
fn to_snake_case(s: &str) -> (r: String)
    ensures
        r@ == snake_case(s@),
{
    s.to_snake_case()
}

fn zone_type_str(t: ZoneType) -> (r: &'static str)
    ensures
        r@ == zone_type_name(t),
{
    match t {
        ZoneType::Suburb => "Suburb",
        ZoneType::CityDistrict => "CityDistrict",
        ZoneType::City => "City",
        ZoneType::StateDistrict => "StateDistrict",
        ZoneType::State => "State",
        ZoneType::CountryRegion => "CountryRegion",
        ZoneType::Country => "Country",
        ZoneType::NonAdministrative => "NonAdministrative",
    }
}

/// The kind of place that a region is to the service: its zone type in snake
/// case, or `administrative_region` when it has none.
pub open spec fn admin_type(adm: Admin) -> Seq<char> {
    match adm.zone_type {
        Some(t) => snake_case(zone_type_name(t)),
        None => "administrative_region"@,
    }
}

/// The name and the label of a region in a language: those kept for the
/// language, or else its own.
pub open spec fn localized(admin: Admin, lang: Option<Seq<char>>) -> (Seq<char>, Seq<char>) {
    match lang {
        Some(code) => (
            match admin.names.value_of(code) {
                Some(n) => n,
                None => admin.name@,
            },
            match admin.labels.value_of(code) {
                Some(l) => l,
                None => admin.label@,
            },
        ),
        None => (admin.name@, admin.label@),
    }
}

/// A region as an answer shows it.
pub open spec fn associated_admin(admin: Admin, lang: Option<Seq<char>>) -> AssociatedAdminView {
    AssociatedAdminView {
        id: admin.id@,
        insee: admin.insee@,
        level: admin.level,
        label: localized(admin, lang).1,
        name: localized(admin, lang).0,
        zip_codes: admin.zip_codes.deep_view(),
        coord: admin.coord,
        bbox: admin.bbox,
        zone_type: admin.zone_type,
        parent_id: opt_text(admin.parent_id),
        codes: admin.codes@,
    }
}

/// The regions as an answer shows them, in their order.
pub open spec fn associated_admins(admins: Seq<Arc<Admin>>, lang: Option<Seq<char>>) -> Seq<
    AssociatedAdminView,
> {
    Seq::new(admins.len(), |i: int| associated_admin(*admins[i], lang))
}

/// The zip codes as one text, joined by `;`; none when there is no zip code.
pub open spec fn postcode(zips: Seq<Seq<char>>) -> Option<Seq<char>> {
    if zips.len() == 0 {
        None
    } else {
        Some(join(zips, ";"@))
    }
}

/// The name of the first city among the regions.
pub open spec fn city_name(admins: Seq<Arc<Admin>>) -> Option<Seq<char>> {
    let k = first_index(admins, city());
    if k < admins.len() {
        Some(admins[k].name@)
    } else {
        None
    }
}

/// The official code of the first city among the regions.
pub open spec fn citycode(admins: Seq<Arc<Admin>>) -> Option<Seq<char>> {
    let k = first_index(admins, city());
    if k < admins.len() {
        Some(admins[k].insee@)
    } else {
        None
    }
}

/// The answer of the given identity and kind that says nothing else.
pub open spec fn blank_response(id: Seq<char>, place_type: Seq<char>) -> GeocodingView {
    GeocodingView {
        id,
        place_type,
        label: None,
        name: None,
        housenumber: None,
        street: None,
        postcode: None,
        city: None,
        citycode: None,
        level: None,
        administrative_regions: Seq::empty(),
        poi_types: Seq::empty(),
        properties: Seq::empty(),
        address: None,
        commercial_modes: Seq::empty(),
        comments: Seq::empty(),
        physical_modes: Seq::empty(),
        timezone: None,
        codes: Seq::empty(),
        feed_publishers: Seq::empty(),
        bbox: None,
    }
}

/// The answer on a region that is the kind of place `place_type` to the
/// service.
pub open spec fn typed_admin_response(
    other: Admin,
    lang: Option<Seq<char>>,
    place_type: Seq<char>,
) -> GeocodingView {
    GeocodingView {
        citycode: Some(other.insee@),
        level: Some(other.level),
        name: Some(localized(other, lang).0),
        postcode: postcode(other.zip_codes.deep_view()),
        label: Some(localized(other, lang).1),
        bbox: other.bbox,
        codes: other.codes@,
        ..blank_response(other.id@, place_type)
    }
}

/// The answer on a region.
pub open spec fn admin_response(other: Admin, lang: Option<Seq<char>>) -> GeocodingView {
    typed_admin_response(other, lang, admin_type(other))
}

/// The answer on a street.
pub open spec fn street_response(other: Street, lang: Option<Seq<char>>) -> GeocodingView {
    GeocodingView {
        citycode: citycode(other.administrative_regions@),
        name: Some(other.name@),
        postcode: postcode(other.zip_codes.deep_view()),
        label: Some(other.label@),
        street: Some(other.name@),
        city: city_name(other.administrative_regions@),
        administrative_regions: associated_admins(other.administrative_regions@, lang),
        ..blank_response(other.id@, "street"@)
    }
}

/// The answer on an address.
pub open spec fn addr_response(other: Addr, lang: Option<Seq<char>>) -> GeocodingView {
    GeocodingView {
        citycode: citycode(other.street.administrative_regions@),
        name: Some(other.name@),
        postcode: postcode(other.zip_codes.deep_view()),
        label: Some(other.label@),
        housenumber: Some(other.house_number@),
        street: Some(other.street.name@),
        city: city_name(other.street.administrative_regions@),
        administrative_regions: associated_admins(other.street.administrative_regions@, lang),
        ..blank_response(other.id@, "house"@)
    }
}

/// The answer on the place where a point of interest stands.
pub open spec fn address_response(address: Option<Address>, lang: Option<Seq<char>>) -> Option<
    Box<GeocodingView>,
> {
    match address {
        Some(Address::Addr(addr)) => Some(Box::new(addr_response(addr, lang))),
        Some(Address::Street(street)) => Some(Box::new(street_response(street, lang))),
        None => None,
    }
}

/// The answer on a point of interest.
pub open spec fn poi_response(other: Poi, lang: Option<Seq<char>>) -> GeocodingView {
    GeocodingView {
        citycode: citycode(other.administrative_regions@),
        name: Some(other.name@),
        postcode: postcode(other.zip_codes.deep_view()),
        label: Some(other.label@),
        city: city_name(other.administrative_regions@),
        administrative_regions: associated_admins(other.administrative_regions@, lang),
        poi_types: seq![other.poi_type],
        properties: other.properties@,
        address: address_response(other.address, lang),
        ..blank_response(other.id@, "poi"@)
    }
}

/// The answer on a stop of public transport.
pub open spec fn stop_response(other: Stop, lang: Option<Seq<char>>) -> GeocodingView {
    GeocodingView {
        citycode: citycode(other.administrative_regions@),
        name: Some(other.name@),
        postcode: postcode(other.zip_codes.deep_view()),
        label: Some(other.label@),
        city: city_name(other.administrative_regions@),
        administrative_regions: associated_admins(other.administrative_regions@, lang),
        commercial_modes: other.commercial_modes@,
        physical_modes: other.physical_modes@,
        comments: other.comments@,
        timezone: Some(other.timezone@),
        codes: other.codes@,
        properties: other.properties@,
        feed_publishers: other.feed_publishers@,
        ..blank_response(other.id@, "public_transport:stop_area"@)
    }
}

/// The answer on a place, by its kind.
pub open spec fn place_response(place: Place, lang: Option<Seq<char>>) -> GeocodingView {
    match place {
        Place::Admin(admin) => admin_response(admin, lang),
        Place::Street(street) => street_response(street, lang),
        Place::Addr(addr) => addr_response(addr, lang),
        Place::Poi(poi) => poi_response(poi, lang),
        Place::Stop(stop) => stop_response(stop, lang),
    }
}

/// The position that stands for a place.
pub open spec fn place_coord(place: Place) -> Coord {
    match place {
        Place::Admin(admin) => admin.coord,
        Place::Street(street) => street.coord,
        Place::Addr(addr) => addr.coord,
        Place::Poi(poi) => poi.coord,
        Place::Stop(stop) => stop.coord,
    }
}

/// What has a shape on the map.
pub trait ToGeom {
    spec fn geom(&self) -> Geometry;

    fn to_geom(&self) -> (g: Geometry)
        ensures
            g == self.geom(),
    ;
}

impl ToGeom for Place {
    open spec fn geom(&self) -> Geometry {
        Geometry::Point(place_coord(*self))
    }

    fn to_geom(&self) -> (g: Geometry) {
        let g = match self {
            Place::Admin(admin) => admin.coord.to_geom(),
            Place::Street(street) => street.coord.to_geom(),
            Place::Addr(addr) => addr.coord.to_geom(),
            Place::Poi(poi) => poi.coord.to_geom(),
            Place::Stop(stop) => stop.coord.to_geom(),
        };
        assert(g == self.geom());
        g
    }
}

impl ToGeom for Coord {
    open spec fn geom(&self) -> Geometry {
        Geometry::Point(*self)
    }

    fn to_geom(&self) -> (g: Geometry) {
        let g = Geometry::Point(*self);
        assert(g == self.geom());
        g
    }
}

/// What can be made from a `T`, in a language.
pub trait FromWithLang<T>: Sized {
    /// Whether `made` is what a `T` becomes in the language `lang`.
    spec fn made_from(from: T, lang: Option<Seq<char>>, made: Self) -> bool;

    fn from_with_lang(from: T, lang: Option<&str>) -> (made: Self)
        ensures
            Self::made_from(from, lang_view(lang), made),
    ;
}

fn clone_codes(v: &Vec<Code>) -> (r: Vec<Code>)
    ensures
        r@ == v@,
{
    let mut out: Vec<Code> = Vec::new();
    let mut i: usize = 0;
    while i < v.len()
        invariant
            i <= v@.len(),
            out@ == v@.take(i as int),
        decreases v@.len() - i,
    {
        out.push(Code { name: v[i].name.clone(), value: v[i].value.clone() });
        assert(out@ =~= v@.take(i as int + 1));
        i += 1;
    }
    assert(out@ =~= v@);
    out
}

fn clone_opt_text(o: &Option<String>) -> (r: Option<String>)
    ensures
        r == *o,
{
    match o {
        Some(s) => Some(s.clone()),
        None => None,
    }
}

fn localize(admin: &Admin, lang: Option<&str>) -> (r: (String, String))
    ensures
        (r.0@, r.1@) == localized(*admin, lang_view(lang)),
{
    match lang {
        Some(code) => {
            let name = match admin.names.get(code) {
                Some(n) => n.to_owned(),
                None => admin.name.clone(),
            };
            let label = match admin.labels.get(code) {
                Some(l) => l.to_owned(),
                None => admin.label.clone(),
            };
            (name, label)
        },
        None => (admin.name.clone(), admin.label.clone()),
    }
}

impl<'a> FromWithLang<&'a Admin> for AssociatedAdmin {
    open spec fn made_from(from: &'a Admin, lang: Option<Seq<char>>, made: Self) -> bool {
        made.deep_view() == associated_admin(*from, lang)
    }

    fn from_with_lang(admin: &'a Admin, lang: Option<&str>) -> (made: Self) {
        let (name, label) = localize(admin, lang);
        let zip_codes = clone_strings(&admin.zip_codes);
        assert(zip_codes.deep_view() =~= admin.zip_codes.deep_view());
        let made = AssociatedAdmin {
            id: admin.id.clone(),
            name,
            label,
            insee: admin.insee.clone(),
            bbox: admin.bbox,
            codes: clone_codes(&admin.codes),
            coord: admin.coord,
            level: admin.level,
            parent_id: clone_opt_text(&admin.parent_id),
            zip_codes,
            zone_type: admin.zone_type,
        };
        assert(made.deep_view() == associated_admin(*admin, lang_view(lang)));
        assert(Self::made_from(admin, lang_view(lang), made));
        made
    }
}

/// Tells the kind of place that a region is to the service.
pub fn get_admin_type(adm: &Admin) -> (r: String)
    ensures
        r@ == admin_type(*adm),
{
    match adm.zone_type {
        Some(t) => to_snake_case(zone_type_str(t)),
        None => "administrative_region".to_owned(),
    }
}

/// Finds the name of the first city among the regions.
pub fn get_city_name(admins: &Vec<Arc<Admin>>) -> (r: Option<String>)
    ensures
        opt_text(r) == city_name(admins@),
{
    match first_city(admins) {
        Some(k) => Some(admins[k].name.clone()),
        None => None,
    }
}

/// Finds the official code of the first city among the regions.
pub fn get_citycode(admins: &Vec<Arc<Admin>>) -> (r: Option<String>)
    ensures
        opt_text(r) == citycode(admins@),
{
    match first_city(admins) {
        Some(k) => Some(admins[k].insee.clone()),
        None => None,
    }
}

fn make_postcode(zip_codes: &Vec<String>) -> (r: Option<String>)
    ensures
        opt_text(r) == postcode(zip_codes.deep_view()),
{
    if zip_codes.len() == 0 {
        None
    } else {
        Some(join_strings(zip_codes, ";"))
    }
}

fn make_associated_admins(admins: &Vec<Arc<Admin>>, lang: Option<&str>) -> (r: Vec<AssociatedAdmin>)
    ensures
        r.deep_view() == associated_admins(admins@, lang_view(lang)),
{
    let mut out: Vec<AssociatedAdmin> = Vec::new();
    let mut i: usize = 0;
    while i < admins.len()
        invariant
            i <= admins@.len(),
            out@.len() == i,
            forall|j: int|
                0 <= j < i ==> (#[trigger] out@[j]).deep_view() == associated_admin(
                    *admins@[j],
                    lang_view(lang),
                ),
        decreases admins@.len() - i,
    {
        let a = AssociatedAdmin::from_with_lang(&*admins[i], lang);
        out.push(a);
        i += 1;
    }
    assert(out.deep_view() =~= associated_admins(admins@, lang_view(lang)));
    out
}

fn blank(id: String, place_type: String) -> (r: GeocodingResponse)
    ensures
        r.deep_view() == blank_response(id@, place_type@),
{
    let r = GeocodingResponse {
        id,
        place_type,
        label: None,
        name: None,
        housenumber: None,
        street: None,
        postcode: None,
        city: None,
        citycode: None,
        level: None,
        administrative_regions: Vec::new(),
        poi_types: Vec::new(),
        properties: Vec::new(),
        address: None,
        commercial_modes: Vec::new(),
        comments: Vec::new(),
        physical_modes: Vec::new(),
        timezone: None,
        codes: Vec::new(),
        feed_publishers: Vec::new(),
        bbox: None,
    };
    assert(r.administrative_regions.deep_view() =~= Seq::<AssociatedAdminView>::empty());
    r
}

impl Default for GeocodingResponse {
    fn default() -> (r: GeocodingResponse)
        ensures
            r.deep_view() == blank_response(Seq::empty(), Seq::empty()),
    {
        blank(String::new(), String::new())
    }
}

/// Makes the answer on a region, given the kind of place that the region is
/// to the service.
pub fn response_on_typed_admin(other: Admin, lang: Option<&str>, place_type: String) -> (r:
    GeocodingResponse)
    ensures
        r.deep_view() == typed_admin_response(other, lang_view(lang), place_type@),
{
    let (name, label) = localize(&other, lang);
    let postcode = make_postcode(&other.zip_codes);
    let mut r = blank(other.id, place_type);
    r.citycode = Some(other.insee);
    r.level = Some(other.level);
    r.name = Some(name);
    r.postcode = postcode;
    r.label = Some(label);
    r.bbox = other.bbox;
    r.codes = other.codes;
    r
}

fn response_on_admin(other: Admin, lang: Option<&str>) -> (r: GeocodingResponse)
    ensures
        r.deep_view() == admin_response(other, lang_view(lang)),
{
    let type_ = get_admin_type(&other);
    response_on_typed_admin(other, lang, type_)
}

impl FromWithLang<Admin> for GeocodingResponse {
    open spec fn made_from(from: Admin, lang: Option<Seq<char>>, made: Self) -> bool {
        made.deep_view() == admin_response(from, lang)
    }

    fn from_with_lang(other: Admin, lang: Option<&str>) -> (made: Self) {
        let ghost from = other;
        let made = response_on_admin(other, lang);
        assert(Self::made_from(from, lang_view(lang), made));
        made
    }
}

fn response_on_street(other: Street, lang: Option<&str>) -> (r: GeocodingResponse)
    ensures
        r.deep_view() == street_response(other, lang_view(lang)),
{
    let admins = other.administrative_regions;
    let city = get_city_name(&admins);
    let postcode = make_postcode(&other.zip_codes);
    let citycode = get_citycode(&admins);
    let associated_admins = make_associated_admins(&admins, lang);
    let mut r = blank(other.id, "street".to_owned());
    r.citycode = citycode;
    r.name = Some(other.name.clone());
    r.postcode = postcode;
    r.label = Some(other.label);
    r.street = Some(other.name);
    r.city = city;
    r.administrative_regions = associated_admins;
    r
}

impl FromWithLang<Street> for GeocodingResponse {
    open spec fn made_from(from: Street, lang: Option<Seq<char>>, made: Self) -> bool {
        made.deep_view() == street_response(from, lang)
    }

    fn from_with_lang(other: Street, lang: Option<&str>) -> (made: Self) {
        let ghost from = other;
        let made = response_on_street(other, lang);
        assert(Self::made_from(from, lang_view(lang), made));
        made
    }
}

fn response_on_addr(other: Addr, lang: Option<&str>) -> (r: GeocodingResponse)
    ensures
        r.deep_view() == addr_response(other, lang_view(lang)),
{
    let admins = other.street.administrative_regions;
    let city = get_city_name(&admins);
    let postcode = make_postcode(&other.zip_codes);
    let citycode = get_citycode(&admins);
    let associated_admins = make_associated_admins(&admins, lang);
    let mut r = blank(other.id, "house".to_owned());
    r.citycode = citycode;
    r.name = Some(other.name);
    r.postcode = postcode;
    r.label = Some(other.label);
    r.housenumber = Some(other.house_number);
    r.street = Some(other.street.name);
    r.city = city;
    r.administrative_regions = associated_admins;
    r
}

impl FromWithLang<Addr> for GeocodingResponse {
    open spec fn made_from(from: Addr, lang: Option<Seq<char>>, made: Self) -> bool {
        made.deep_view() == addr_response(from, lang)
    }

    fn from_with_lang(other: Addr, lang: Option<&str>) -> (made: Self) {
        let ghost from = other;
        let made = response_on_addr(other, lang);
        assert(Self::made_from(from, lang_view(lang), made));
        made
    }
}

fn response_on_poi(other: Poi, lang: Option<&str>) -> (r: GeocodingResponse)
    ensures
        r.deep_view() == poi_response(other, lang_view(lang)),
{
    let admins = other.administrative_regions;
    let city = get_city_name(&admins);
    let postcode = make_postcode(&other.zip_codes);
    let citycode = get_citycode(&admins);
    let associated_admins = make_associated_admins(&admins, lang);
    let address = match other.address {
        Some(Address::Addr(addr)) => Some(
            Box::new(response_on_addr(addr, lang)),
        ),
        Some(Address::Street(street)) => Some(
            Box::new(response_on_street(street, lang)),
        ),
        None => None,
    };
    let mut poi_types: Vec<PoiType> = Vec::new();
    poi_types.push(other.poi_type);
    let mut r = blank(other.id, "poi".to_owned());
    r.citycode = citycode;
    r.name = Some(other.name);
    r.postcode = postcode;
    r.label = Some(other.label);
    r.city = city;
    r.administrative_regions = associated_admins;
    r.poi_types = poi_types;
    r.properties = other.properties;
    r.address = address;
    assert(r.poi_types@ =~= seq![other.poi_type]);
    r
}

impl FromWithLang<Poi> for GeocodingResponse {
    open spec fn made_from(from: Poi, lang: Option<Seq<char>>, made: Self) -> bool {
        made.deep_view() == poi_response(from, lang)
    }

    fn from_with_lang(other: Poi, lang: Option<&str>) -> (made: Self) {
        let ghost from = other;
        let made = response_on_poi(other, lang);
        assert(Self::made_from(from, lang_view(lang), made));
        made
    }
}

fn response_on_stop(other: Stop, lang: Option<&str>) -> (r: GeocodingResponse)
    ensures
        r.deep_view() == stop_response(other, lang_view(lang)),
{
    let admins = other.administrative_regions;
    let city = get_city_name(&admins);
    let postcode = make_postcode(&other.zip_codes);
    let citycode = get_citycode(&admins);
    let associated_admins = make_associated_admins(&admins, lang);
    let mut r = blank(other.id, "public_transport:stop_area".to_owned());
    r.citycode = citycode;
    r.name = Some(other.name);
    r.postcode = postcode;
    r.label = Some(other.label);
    r.city = city;
    r.administrative_regions = associated_admins;
    r.commercial_modes = other.commercial_modes;
    r.physical_modes = other.physical_modes;
    r.comments = other.comments;
    r.timezone = Some(other.timezone);
    r.codes = other.codes;
    r.properties = other.properties;
    r.feed_publishers = other.feed_publishers;
    r
}

impl FromWithLang<Stop> for GeocodingResponse {
    open spec fn made_from(from: Stop, lang: Option<Seq<char>>, made: Self) -> bool {
        made.deep_view() == stop_response(from, lang)
    }

    fn from_with_lang(other: Stop, lang: Option<&str>) -> (made: Self) {
        let ghost from = other;
        let made = response_on_stop(other, lang);
        assert(Self::made_from(from, lang_view(lang), made));
        made
    }
}

impl FromWithLang<Place> for Feature {
    open spec fn made_from(from: Place, lang: Option<Seq<char>>, made: Self) -> bool {
        &&& made.feature_type@ == "Feature"@
        &&& made.geometry == Geometry::Point(place_coord(from))
        &&& made.properties.geocoding.deep_view() == place_response(from, lang)
        &&& made.distance is None
    }

    fn from_with_lang(other: Place, lang: Option<&str>) -> (made: Self) {
        let geom = other.to_geom();
        let geocoding = match other {
            Place::Admin(admin) => <GeocodingResponse as FromWithLang<Admin>>::from_with_lang(
                admin,
                lang,
            ),
            Place::Street(street) => <GeocodingResponse as FromWithLang<Street>>::from_with_lang(
                street,
                lang,
            ),
            Place::Addr(addr) => <GeocodingResponse as FromWithLang<Addr>>::from_with_lang(
                addr,
                lang,
            ),
            Place::Poi(poi) => <GeocodingResponse as FromWithLang<Poi>>::from_with_lang(poi, lang),
            Place::Stop(stop) => <GeocodingResponse as FromWithLang<Stop>>::from_with_lang(
                stop,
                lang,
            ),
        };
        Feature {
            feature_type: "Feature".to_owned(),
            geometry: geom,
            properties: Properties { geocoding },
            distance: None,
        }
    }
}

/// An answer: the places found for a query.
#[derive(Debug)]
pub struct Autocomplete {
    pub format_type: String,
    pub geocoding: Geocoding,
    pub features: Vec<Feature>,
}

impl Autocomplete {
    /// The answer to the query `q` that holds `features`.
    pub fn new(q: String, features: Vec<Feature>) -> (r: Autocomplete)
        ensures
            r.format_type@ == "FeatureCollection"@,
            r.geocoding.spec_version()@ == "0.1.0"@,
            r.geocoding.spec_query() == Some(q),
            r.features == features,
    {
        Autocomplete {
            format_type: "FeatureCollection".to_owned(),
            geocoding: Geocoding { version: "0.1.0".to_owned(), query: Some(q) },
            features,
        }
    }
}

/// Whether `made` is what the place `from` becomes in the language `lang`.
pub open spec fn is_feature_of(from: Place, lang: Option<Seq<char>>, made: Feature) -> bool {
    <Feature as FromWithLang<Place>>::made_from(from, lang, made)
}

/// Whether `made` is the answer that holds what the places `from` become in
/// the language `lang`.
pub open spec fn is_autocomplete_of(
    from: Vec<Place>,
    lang: Option<Seq<char>>,
    made: Autocomplete,
) -> bool {
    <Autocomplete as FromWithLang<Vec<Place>>>::made_from(from, lang, made)
}

impl FromWithLang<Vec<Place>> for Autocomplete {
    open spec fn made_from(from: Vec<Place>, lang: Option<Seq<char>>, made: Self) -> bool {
        &&& made.format_type@ == "FeatureCollection"@
        &&& made.geocoding.spec_version()@ == "0.1.0"@
        &&& opt_text(made.geocoding.spec_query()) == Some(Seq::<char>::empty())
        &&& made.features@.len() == from@.len()
        &&& forall|i: int|
            0 <= i < from@.len() ==> is_feature_of(from@[i], lang, #[trigger] made.features@[i])
    }

    fn from_with_lang(places: Vec<Place>, lang: Option<&str>) -> (made: Self) {
        let mut features: Vec<Feature> = Vec::new();
        let ghost all = places@;
        for place in it: places
            invariant
                it.seq() == all,
                features@.len() == it.index(),
                forall|i: int|
                    0 <= i < it.index() ==> is_feature_of(
                        all[i],
                        lang_view(lang),
                        #[trigger] features@[i],
                    ),
        {
            let f = Feature::from_with_lang(place, lang);
            features.push(f);
        }
        Autocomplete::new(String::new(), features)
    }
}

} // verus!
