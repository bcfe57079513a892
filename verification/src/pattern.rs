//! Matching a regular expression against the text.

use vstd::prelude::*;

verus! {

/// What `regex` finds first in `haystack` when it searches for `pattern`:
/// the byte offsets where the leftmost match starts and ends. `None` when
/// nothing matches, and when `pattern` is no regular expression.
pub uninterp spec fn first_match(pattern: Seq<char>, haystack: Seq<char>) -> Option<(usize, usize)>;

/// Compiles `pattern` with `regex::Regex::new` and searches `haystack` with
/// `regex::Regex::find`.
///
/// Nothing is proved of this function. It is taken on trust that what it
/// returns depends on the two strings alone: the offsets of the leftmost
/// match, `None` where there is no match or `pattern` does not compile.
#[verifier::external_body]
pub(crate) fn find_first(pattern: &str, haystack: &str) -> (found: Option<(usize, usize)>)
    ensures
        found == first_match(pattern@, haystack@),
{
    match regex::Regex::new(pattern) {
        Ok(compiled) => compiled.find(haystack).map(|m| (m.start(), m.end())),
        Err(_) => None,
    }
}

} // verus!
