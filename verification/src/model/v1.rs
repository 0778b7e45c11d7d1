//! The first version of the interface of the service.

use crate::model::{
    is_autocomplete_of, lang_view, Autocomplete, BragiError, EsError, FromWithLang,
};
use crate::objects::Place;
use vstd::prelude::*;

verus! {

/// The outcome of a request, as the service reports it to its caller.
#[derive(Clone, Copy, PartialEq, Eq, Structural, Debug)]
pub enum HttpStatus {
    Success,
    NotFound,
    InternalServerError,
    ServiceUnavailable,
}

/// What can be answered has a status.
pub trait HasStatus {
    spec fn spec_status(&self) -> HttpStatus;

    fn status(&self) -> (s: HttpStatus)
        ensures
            s == self.spec_status(),
    ;
}

/// The description of an entry point of the service.
#[derive(Debug)]
pub struct EndPoint {
    pub description: String,
}

impl HasStatus for EndPoint {
    open spec fn spec_status(&self) -> HttpStatus {
        HttpStatus::Success
    }

    fn status(&self) -> (s: HttpStatus) {
        default_status()
    }
}

/// An error, as the service reports it.
#[derive(Debug)]
pub struct CustomError {
    pub short: String,
    pub long: String,
    pub status: HttpStatus,
}

fn default_status() -> (s: HttpStatus)
    ensures
        s == HttpStatus::Success,
{
    HttpStatus::Success
}

/// The answer to a query: the places found, or an error.
#[derive(Debug)]
pub enum AutocompleteResponse {
    Error(CustomError),
    Autocomplete(Autocomplete),
}

impl HasStatus for AutocompleteResponse {
    open spec fn spec_status(&self) -> HttpStatus {
        match self {
            AutocompleteResponse::Error(e) => e.status,
            AutocompleteResponse::Autocomplete(_) => HttpStatus::Success,
        }
    }

    fn status(&self) -> (s: HttpStatus) {
        match self {
            AutocompleteResponse::Error(e) => e.status,
            AutocompleteResponse::Autocomplete(_) => HttpStatus::Success,
        }
    }
}

/// The state of the service.
#[derive(Debug)]
pub struct Status {
    pub version: String,
    pub es: String,
    pub status: String,
}

impl HasStatus for Status {
    open spec fn spec_status(&self) -> HttpStatus {
        HttpStatus::Success
    }

    fn status(&self) -> (s: HttpStatus) {
        HttpStatus::Success
    }
}

/// What the service says of an error, and the status it reports with it: a
/// place or an index that is not found is reported as not found, in the words
/// of the error; an engine out of reach as an unavailable service; any other
/// failure of the engine as an internal error.
pub open spec fn error_report(e: BragiError) -> (Seq<char>, HttpStatus) {
    match e {
        BragiError::ObjectNotFound => (e.spec_message(), HttpStatus::NotFound),
        BragiError::IndexNotFound => (e.spec_message(), HttpStatus::NotFound),
        BragiError::Es(EsError::HttpError(_)) => (
            "service unavailable"@,
            HttpStatus::ServiceUnavailable,
        ),
        BragiError::Es(EsError::Failure(_)) => (
            "internal server error"@,
            HttpStatus::InternalServerError,
        ),
    }
}

impl AutocompleteResponse {
    /// Whether `made` is the answer to the outcome `r` of a query, in the
    /// language `lang`.
    pub open spec fn answers(
        r: Result<Vec<Place>, BragiError>,
        lang: Option<Seq<char>>,
        made: AutocompleteResponse,
    ) -> bool {
        match r {
            Ok(places) => made matches AutocompleteResponse::Autocomplete(a) && is_autocomplete_of(
                places,
                lang,
                a,
            ),
            Err(e) => made matches AutocompleteResponse::Error(err) && err.short@ == "query error"@
                && err.long@ == error_report(e).0 && err.status == error_report(e).1,
        }
    }

    /// Makes the answer to the outcome of a query.
    pub fn from_with_lang(r: Result<Vec<Place>, BragiError>, lang: Option<&str>) -> (made:
        AutocompleteResponse)
        ensures
            AutocompleteResponse::answers(r, lang_view(lang), made),
    {
        match r {
            Ok(places) => AutocompleteResponse::Autocomplete(
                Autocomplete::from_with_lang(places, lang),
            ),
            Err(e) => {
                let (long_error, status) = match &e {
                    BragiError::ObjectNotFound => (e.message(), HttpStatus::NotFound),
                    BragiError::IndexNotFound => (e.message(), HttpStatus::NotFound),
                    BragiError::Es(es_error) => match es_error {
                        EsError::HttpError(_) => (
                            "service unavailable".to_owned(),
                            HttpStatus::ServiceUnavailable,
                        ),
                        EsError::Failure(_) => (
                            "internal server error".to_owned(),
                            HttpStatus::InternalServerError,
                        ),
                    },
                };
                AutocompleteResponse::Error(
                    CustomError { short: "query error".to_owned(), long: long_error, status },
                )
            },
        }
    }
}

} // verus!
