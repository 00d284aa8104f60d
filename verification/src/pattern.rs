//! Regular-expression captures, by the `regex` crate.

use vstd::prelude::*;

verus! {

/// The text that group `group` of the leftmost-first match of `pattern` in
/// `haystack` matched (`regex::Regex::captures`); `None` where the pattern is
/// invalid, does not match, or the group took no part in the match.
pub uninterp spec fn regex_capture(pattern: Seq<char>, haystack: Seq<char>, group: nat) -> Option<
    Seq<char>,
>;

/// The view of an optional string.
pub open spec fn opt_view(o: Option<String>) -> Option<Seq<char>> {
    match o {
        Some(s) => Some(s@),
        None => None,
    }
}

/// `regex::Regex::new(pattern)`, then `captures(haystack)` and `get(group)`:
/// the contract names the result.
#[verifier::external_body]
pub(crate) fn capture(pattern: &str, haystack: &str, group: usize) -> (r: Option<String>)
    ensures
        opt_view(r) == regex_capture(pattern@, haystack@, group as nat),
{
    regex::Regex::new(pattern).ok()?.captures(haystack)?.get(group).map(|m| m.as_str().to_string())
}

} // verus!
