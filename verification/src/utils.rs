//! What a record takes over from the regions that contain it: zip codes and
//! country codes.

use crate::admin::{Admin, Code};
use crate::scan::{first_index, lemma_first_index_is};
use crate::text::str_eq;
use std::sync::Arc;
use vstd::prelude::*;

verus! {

/// The condition "is a code of the scheme `name`".
pub open spec fn of_scheme(name: Seq<char>) -> spec_fn(Code) -> bool {
    |c: Code| c.name@ == name
}

/// The country code of a region: the value of its first code of the scheme
/// `ISO3166-1:alpha2`.
pub open spec fn country_code(admin: Admin) -> Option<Seq<char>> {
    let k = first_index(admin.codes@, of_scheme("ISO3166-1:alpha2"@));
    if k < admin.codes@.len() {
        Some(admin.codes@[k].value@)
    } else {
        None
    }
}

/// The country codes of the first `n` regions, in their order.
pub open spec fn country_codes_upto(admins: Seq<Arc<Admin>>, n: int) -> Seq<Seq<char>>
    decreases n,
{
    if n <= 0 {
        Seq::empty()
    } else {
        let before = country_codes_upto(admins, n - 1);
        match country_code(*admins[n - 1]) {
            Some(c) => before.push(c),
            None => before,
        }
    }
}

/// The country codes of the regions that have one, in the order of the
/// regions.
pub open spec fn country_codes(admins: Seq<Arc<Admin>>) -> Seq<Seq<char>> {
    country_codes_upto(admins, admins.len() as int)
}

/// `acc`, followed by those of the first `n` of `items` that it does not hold
/// yet.
pub open spec fn with_new_upto(acc: Seq<Seq<char>>, items: Seq<Seq<char>>, n: int) -> Seq<
    Seq<char>,
>
    decreases n,
{
    if n <= 0 {
        acc
    } else {
        let before = with_new_upto(acc, items, n - 1);
        if before.contains(items[n - 1]) {
            before
        } else {
            before.push(items[n - 1])
        }
    }
}

/// The zip codes of the first `n` regions: each code once, in the order in
/// which the regions first bring it.
pub open spec fn zip_codes_upto(admins: Seq<Arc<Admin>>, n: int) -> Seq<Seq<char>>
    decreases n,
{
    if n <= 0 {
        Seq::empty()
    } else {
        let zips = admins[n - 1].zip_codes.deep_view();
        with_new_upto(zip_codes_upto(admins, n - 1), zips, zips.len() as int)
    }
}

/// The union of the zip codes of the regions: each code once, in the order in
/// which the regions first bring it.
pub open spec fn zip_codes(admins: Seq<Arc<Admin>>) -> Seq<Seq<char>> {
    zip_codes_upto(admins, admins.len() as int)
}

/// Finds the country code of a region.
pub fn find_country_code(admin: &Admin) -> (r: Option<&String>)
    ensures
        match r {
            Some(c) => country_code(*admin) == Some(c@),
            None => country_code(*admin) is None,
        },
{
    let codes = &admin.codes;
    let mut k: usize = 0;
    while k < codes.len()
        invariant
            k <= codes@.len(),
            codes@ == admin.codes@,
            forall|j: int|
                0 <= j < k ==> !of_scheme("ISO3166-1:alpha2"@)(#[trigger] codes@[j]),
        decreases codes@.len() - k,
    {
        if str_eq(codes[k].name.as_str(), "ISO3166-1:alpha2") {
            proof {
                lemma_first_index_is(codes@, of_scheme("ISO3166-1:alpha2"@), k as int);
            }
            return Some(&codes[k].value);
        }
        k += 1;
    }
    proof {
        lemma_first_index_is(codes@, of_scheme("ISO3166-1:alpha2"@), k as int);
    }
    None
}

/// Collects the country codes of the regions that have one.
pub fn find_country_codes(admins: &Vec<Arc<Admin>>) -> (r: Vec<String>)
    ensures
        r.deep_view() == country_codes(admins@),
{
    let mut out: Vec<String> = Vec::new();
    let mut i: usize = 0;
    assert(out.deep_view() =~= Seq::<Seq<char>>::empty());
    while i < admins.len()
        invariant
            i <= admins@.len(),
            out.deep_view() == country_codes_upto(admins@, i as int),
        decreases admins@.len() - i,
    {
        match find_country_code(&admins[i]) {
            Some(code) => {
                let ghost prev = out.deep_view();
                out.push(code.clone());
                assert(out.deep_view() =~= prev.push(code@));
            },
            None => {},
        }
        i += 1;
    }
    out
}

fn holds_text(list: &Vec<String>, item: &String) -> (r: bool)
    ensures
        r == list.deep_view().contains(item@),
{
    let mut i: usize = 0;
    while i < list.len()
        invariant
            i <= list@.len(),
            forall|j: int| 0 <= j < i ==> list.deep_view()[j] != item@,
        decreases list@.len() - i,
    {
        if list[i] == *item {
            assert(list.deep_view()[i as int] == item@);
            return true;
        }
        i += 1;
    }
    false
}

/// Collects the union of the zip codes of the regions.
pub fn get_zip_codes_from_admins(admins: &Vec<Arc<Admin>>) -> (r: Vec<String>)
    ensures
        r.deep_view() == zip_codes(admins@),
{
    let mut out: Vec<String> = Vec::new();
    let mut i: usize = 0;
    assert(out.deep_view() =~= Seq::<Seq<char>>::empty());
    while i < admins.len()
        invariant
            i <= admins@.len(),
            out.deep_view() == zip_codes_upto(admins@, i as int),
        decreases admins@.len() - i,
    {
        let zips = &admins[i].zip_codes;
        let ghost start = out.deep_view();
        let mut k: usize = 0;
        while k < zips.len()
            invariant
                k <= zips@.len(),
                out.deep_view() == with_new_upto(start, zips.deep_view(), k as int),
            decreases zips@.len() - k,
        {
            assert(zips.deep_view()[k as int] == zips@[k as int]@);
            if !holds_text(&out, &zips[k]) {
                let ghost prev = out.deep_view();
                out.push(zips[k].clone());
                assert(out.deep_view() =~= prev.push(zips@[k as int]@));
            }
            k += 1;
        }
        i += 1;
    }
    out
}

} // verus!
