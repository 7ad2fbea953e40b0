//! The regular-expression test the rule interpreter and the request router
//! rely on, named but not interpreted here.

use vstd::prelude::*;

verus! {

pub uninterp spec fn regex_valid(pattern: Seq<char>) -> bool;

pub uninterp spec fn regex_matches(pattern: Seq<char>, text: Seq<char>) -> bool;

/// Relies on regex::Regex::new and regex::Regex::is_match: whether the
/// pattern compiles, and whether it matches anywhere in the text; both
/// depend on the pattern and the text alone.
#[verifier::external_body]
pub fn regex_match(pattern: &str, text: &str) -> (r: Option<bool>)
    ensures
        r is Some <==> regex_valid(pattern@),
        r matches Some(b) ==> b == regex_matches(pattern@, text@),
{
    match ::regex::Regex::new(pattern) {
        Ok(re) => Some(re.is_match(text)),
        Err(_) => None,
    }
}

} // verus!
