//! Labels: the text under which a record is shown.

use crate::admin::{city, first_city, Admin};
use crate::scan::first_index;
use std::sync::Arc;
use vstd::prelude::*;
use vstd::string::StringExecFns;

verus! {

/// The label of a street: its name, followed in brackets by the name of the
/// first city among the regions that contain it, when there is one.
pub open spec fn street_label(name: Seq<char>, admins: Seq<Arc<Admin>>) -> Seq<char> {
    let k = first_index(admins, city());
    if k < admins.len() {
        name + " ("@ + admins[k].name@ + ")"@
    } else {
        name
    }
}

/// Formats the label of a street. The country codes are accepted for labels
/// that differ by country; the present format does not read them.
pub fn format_street_label(name: &str, admins: &Vec<Arc<Admin>>, country_codes: &Vec<String>) -> (r:
    String)
    ensures
        r@ == street_label(name@, admins@),
{
    let mut label = name.to_owned();
    match first_city(admins) {
        Some(k) => {
            label.append(" (");
            label.append(admins[k].name.as_str());
            label.append(")");
        },
        None => {},
    }
    label
}

} // verus!
