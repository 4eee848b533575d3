//! Regular expressions, matched by the `regex` crate.

use crate::text::opt_view;
use vstd::prelude::*;

verus! {

/// What the `regex` crate captures when the regular expression `pattern` is
/// searched in `haystack`: `None` where the pattern does not compile or
/// matches nowhere, else the capture groups of the leftmost match, group 0
/// being the whole match and a group that took no part being `None`.
pub uninterp spec fn regex_captures(pattern: Seq<char>, haystack: Seq<char>) -> Option<
    Seq<Option<Seq<char>>>,
>;

/// The characters of each capture group.
pub open spec fn groups_view(v: Seq<Option<String>>) -> Seq<Option<Seq<char>>> {
    Seq::new(v.len(), |i: int| opt_view(v[i]))
}

/// Compiles `pattern` with `regex::Regex::new` and searches `haystack` with
/// `regex::Regex::captures`. Nothing is proved of the matching itself: the
/// contract only gives the outcome its name, `regex_captures`, which says
/// that it depends on the two texts and on nothing else.
#[verifier::external_body]
pub(crate) fn captures(pattern: &str, haystack: &str) -> (r: Option<Vec<Option<String>>>)
    ensures
        match r {
            Some(groups) => Some(groups_view(groups@)),
            None => None,
        } == regex_captures(pattern@, haystack@),
{
    match regex::Regex::new(pattern) {
        Ok(re) => re.captures(haystack).map(
            |caps| caps.iter().map(|m| m.map(|g| g.as_str().to_string())).collect(),
        ),
        Err(_) => None,
    }
}

} // verus!
