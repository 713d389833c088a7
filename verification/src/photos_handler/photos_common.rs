//! The date selection a photos request carries, from the URI path or the
//! query parameters.
use vstd::prelude::*;

use crate::str_dict::{assoc_contains, assoc_get};
use crate::text::{
    first_index_of, lemma_first_index_of_contains, lemma_first_index_of_found, parse_u32,
    spec_parse_u32,
};
use crate::uri_helpers::split_first_level_directory_and_remainder;
use crate::web_request::WebRequest;

verus! {

/// What dates a request asks for: nothing valid, one year, or one year and
/// 0-based month.
#[derive(Clone, Copy, Debug, PartialEq, Eq, Structural)]
pub enum DateParams {
    Invalid,
    YearOnly(u32),
    YearAndMonth { year: u32, month: u32 },
}

/// A parameter read as a number, or the default.
pub open spec fn spec_uint_param(m: Seq<(Seq<char>, Seq<char>)>, k: Seq<char>, default: u32) -> u32 {
    match assoc_get(m, k) {
        Some(v) => match spec_parse_u32(v) {
            Some(x) => x,
            None => default,
        },
        None => default,
    }
}

/// The date selection in a URI remainder such as a year, or a year and a
/// month separated by a slash.
pub open spec fn spec_date_params_from_uri(uri: Seq<char>) -> DateParams {
    if uri.len() == 0 {
        DateParams::Invalid
    } else {
        let qi = first_index_of(uri, '/');
        if qi >= 0 {
            match spec_parse_u32(uri.take(qi)) {
                Some(y) => match spec_parse_u32(uri.skip(qi + 1)) {
                    Some(m) => DateParams::YearAndMonth { year: y, month: m },
                    None => DateParams::YearOnly(y),
                },
                None => DateParams::Invalid,
            }
        } else {
            match spec_parse_u32(uri) {
                Some(y) => DateParams::YearOnly(y),
                None => DateParams::Invalid,
            }
        }
    }
}

/// The date selection of a request: `year` and `month` query parameters win
/// over anything in the URI path.
pub open spec fn spec_date_params(
    params: Seq<(Seq<char>, Seq<char>)>,
    check_url_path: bool,
    uri: Seq<char>,
) -> DateParams {
    if assoc_contains(params, "year"@) {
        let y = spec_uint_param(params, "year"@, 0);
        if assoc_contains(params, "month"@) {
            DateParams::YearAndMonth { year: y, month: spec_uint_param(params, "month"@, 0) }
        } else {
            DateParams::YearOnly(y)
        }
    } else if check_url_path {
        spec_date_params_from_uri(uri)
    } else {
        DateParams::Invalid
    }
}

/// Read the date selection out of a request's URI remainder and parameters.
pub fn get_date_params_from_request(
    request: &WebRequest,
    check_url_path: bool,
    remainder_uri: &str,
) -> (r: DateParams)
    requires
        request.wf(),
    ensures
        r == spec_date_params(request@.params, check_url_path, remainder_uri@),
{
    let mut date_params = DateParams::Invalid;
    if check_url_path && remainder_uri.unicode_len() > 0 {
        let mut first_level_directory = String::new();
        let mut remainder = String::new();
        proof {
            lemma_first_index_of_contains(remainder_uri@, '/');
        }
        if split_first_level_directory_and_remainder(
            remainder_uri,
            &mut first_level_directory,
            &mut remainder,
        ) {
            proof {
                let i = choose|i: int|
                    0 <= i < remainder_uri@.len() && remainder_uri@[i] == '/' && (forall|j: int|
                        0 <= j < i ==> remainder_uri@[j] != '/') && first_level_directory@
                        == remainder_uri@.take(i) && remainder@ == remainder_uri@.skip(i + 1);
                lemma_first_index_of_found(remainder_uri@, '/', i);
            }
            match parse_u32(first_level_directory.as_str()) {
                Some(year) => {
                    match parse_u32(remainder.as_str()) {
                        Some(month) => {
                            date_params = DateParams::YearAndMonth { year, month };
                        },
                        None => {
                            date_params = DateParams::YearOnly(year);
                        },
                    }
                },
                None => {},
            }
        } else {
            match parse_u32(remainder_uri) {
                Some(year) => {
                    date_params = DateParams::YearOnly(year);
                },
                None => {},
            }
        }
    }
    if request.has_param("year") {
        let year = request.get_param_as_uint("year", 0);
        if request.has_param("month") {
            date_params = DateParams::YearAndMonth {
                year,
                month: request.get_param_as_uint("month", 0),
            };
        } else {
            date_params = DateParams::YearOnly(year);
        }
    }
    date_params
}

} // verus!
