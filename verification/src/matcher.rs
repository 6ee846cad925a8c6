//! The shared fuzzy matcher, behind a trusted wrapper.
//!
//! Matching is case-insensitive, normalizes the text, and rewards query
//! characters appearing as an ordered subsequence of the candidate;
//! candidates below the no-match threshold score `None` and are excluded.

use vstd::prelude::*;

verus! {

/// The fuzzy match score of `pattern` against `haystack`, or `None` when the
/// candidate does not match; a function of the two texts alone.
pub uninterp spec fn fuzzy_score(pattern: Seq<char>, haystack: Seq<char>) -> Option<u32>;

/// Relies on nucleo_matcher's `Pattern::score`: with a fixed configuration
/// (case-insensitive, smart normalization, fuzzy atoms) the score depends
/// only on the pattern text and the haystack text.
#[verifier::external_body]
pub(crate) fn fuzzy_match(pattern: &str, haystack: &str) -> (r: Option<u32>)
    ensures
        r == fuzzy_score(pattern@, haystack@),
{
    let p = nucleo_matcher::pattern::Pattern::new(
        pattern,
        nucleo_matcher::pattern::CaseMatching::Ignore,
        nucleo_matcher::pattern::Normalization::Smart,
        nucleo_matcher::pattern::AtomKind::Fuzzy,
    );
    let hay = nucleo_matcher::Utf32String::from(haystack);
    let mut matcher = nucleo_matcher::Matcher::default();
    p.score(hay.slice(..), &mut matcher)
}

} // verus!
