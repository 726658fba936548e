//! Matching text against regular expressions.
//!
//! The matching itself is done by the `regex` crate. What it finds is a
//! function of the pattern and the text alone; the results are given names
//! here, and the rest of the library is stated over those names.
use vstd::prelude::*;
use crate::record::option_view;

verus! {

/// The text of capture group 1 in the leftmost match of `pattern` in
/// `text`, as `Regex::captures` finds it. `None` where `pattern` is not a
/// regular expression, where nothing matches, and where the match does not
/// go through group 1.
pub uninterp spec fn first_capture(pattern: Seq<char>, text: Seq<char>) -> Option<Seq<char>>;

/// For every match of `pattern` in `text` that `Regex::captures_iter`
/// yields, in its order, the text of capture group 1, or `None` where the
/// match does not go through group 1. Empty where `pattern` is not a regular
/// expression.
pub uninterp spec fn all_captures(pattern: Seq<char>, text: Seq<char>) -> Seq<Option<Seq<char>>>;

/// The views of the optional strings in `v`.
pub open spec fn option_views(v: Seq<Option<String>>) -> Seq<Option<Seq<char>>> {
    Seq::new(v.len(), |i: int| option_view(v[i]))
}

/// `Regex::new` and `Regex::captures`: the first match of `pattern` in
/// `text`, reduced to the text of its capture group 1. The outcome is given
/// the name [`first_capture`]; nothing is claimed of what matches.
#[verifier::external_body]
pub(crate) fn capture_first(pattern: &str, text: &str) -> (r: Option<String>)
    ensures
        option_view(r) == first_capture(pattern@, text@),
{
    let re = regex::Regex::new(pattern).ok()?;
    let caps = re.captures(text)?;
    caps.get(1).map(|m| m.as_str().to_string())
}

/// `Regex::new` and `Regex::captures_iter`: every match of `pattern` in
/// `text`, each reduced to the text of its capture group 1. The outcome is
/// given the name [`all_captures`]; nothing is claimed of what matches.
#[verifier::external_body]
pub(crate) fn capture_all(pattern: &str, text: &str) -> (r: Vec<Option<String>>)
    ensures
        option_views(r@) == all_captures(pattern@, text@),
{
    match regex::Regex::new(pattern) {
        Ok(re) => re.captures_iter(text).map(|c| c.get(1).map(|m| m.as_str().to_string())).collect(),
        Err(_) => Vec::new(),
    }
}

} // verus!
