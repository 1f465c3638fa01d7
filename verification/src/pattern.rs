//! Regular-expression queries, answered by the `regex` crate.
//!
//! Nothing here is proved: each function states what the crate's matcher is
//! taken to compute, by a name that stands for its answer.

use vstd::prelude::*;

verus! {

/// Whether `pattern` has a match anywhere in `haystack`, as `regex` decides
/// it; `None` where `regex` does not accept `pattern`.
pub uninterp spec fn pattern_matches(pattern: Seq<char>, haystack: Seq<char>) -> Option<bool>;

/// The text of capture group `group` in the leftmost match of `pattern` in
/// `haystack`, as `regex` finds it. The outer `None` is a pattern that
/// `regex` does not accept; the inner one is no match, no such group, or a
/// group that took no part in the match.
pub uninterp spec fn pattern_capture(pattern: Seq<char>, haystack: Seq<char>, group: nat) -> Option<
    Option<Seq<char>>,
>;

/// Compiles `pattern` with `regex::Regex::new` and asks `Regex::is_match`
/// about `haystack`. The answer depends on the two texts alone, so it is
/// named by [`pattern_matches`]; a pattern that does not compile gives `None`.
#[verifier::external_body]
pub(crate) fn is_match(pattern: &str, haystack: &str) -> (r: Option<bool>)
    ensures
        r == pattern_matches(pattern@, haystack@),
{
    match regex::Regex::new(pattern) {
        Ok(re) => Some(re.is_match(haystack)),
        Err(_) => None,
    }
}

/// Compiles `pattern` with `regex::Regex::new`, runs `Regex::captures` on
/// `haystack` and copies out what `Captures::get(group)` matched. The answer
/// depends on the arguments alone, so it is named by [`pattern_capture`]; a
/// pattern that does not compile gives `None`.
#[verifier::external_body]
pub(crate) fn capture(pattern: &str, haystack: &str, group: usize) -> (r: Option<Option<String>>)
    ensures
        r.deep_view() == pattern_capture(pattern@, haystack@, group as nat),
{
    match regex::Regex::new(pattern) {
        Ok(re) => Some(
            re.captures(haystack).and_then(|c| c.get(group)).map(|m| m.as_str().to_string()),
        ),
        Err(_) => None,
    }
}

} // verus!
