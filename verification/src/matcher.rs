//! The pattern engine: the `regex` crate, behind three small declarations.
//!
//! Nothing here is proved. A compiled pattern is carried through as an opaque
//! value; what it finds in a text comes back as plain byte offsets.

use vstd::prelude::*;

verus! {

/// A compiled pattern of the `regex` crate, opaque to the verifier.
#[verifier::external_type_specification]
#[verifier::external_body]
pub struct ExRegex(regex::Regex);

/// The byte range `(start, end)` of one capture group within the searched
/// text, or `None` where the group took no part in the match.
pub type Span = Option<(usize, usize)>;

/// The pattern text that a compiled pattern reports through
/// `regex::Regex::as_str`: the string it was compiled from.
pub uninterp spec fn pattern_source(re: regex::Regex) -> Seq<char>;

/// Whether `regex::Regex::new` accepts the pattern text.
pub uninterp spec fn pattern_compiles(pattern: Seq<char>) -> bool;

/// What `regex::Regex::captures` finds when a pattern compiled from `pattern`
/// searches `text`: `None` where nothing matches, else one span per capture
/// group, the whole match first.
pub uninterp spec fn capture_spans(pattern: Seq<char>, text: Seq<char>) -> Option<Seq<Span>>;

/// Calls `regex::Regex::new`. The contract claims that whether compilation
/// succeeds depends on the pattern text alone, and that the compiled pattern
/// remembers the text it came from; it claims nothing of which patterns
/// compile.
#[verifier::external_body]
pub(crate) fn compile(pattern: &str) -> (r: Option<regex::Regex>)
    ensures
        r.is_some() == pattern_compiles(pattern@),
        r matches Some(re) ==> pattern_source(re) == pattern@,
{
    regex::Regex::new(pattern).ok()
}

/// Calls `regex::Regex::captures` and hands out the byte offsets of every
/// capture group. The contract claims only that the outcome is determined by
/// the pattern's source and the text; it claims nothing of where a match
/// lies.
#[verifier::external_body]
pub(crate) fn search(re: &regex::Regex, text: &str) -> (r: Option<Vec<Span>>)
    ensures
        match r {
            Some(v) => capture_spans(pattern_source(*re), text@) == Some(v@),
            None => capture_spans(pattern_source(*re), text@).is_none(),
        },
{
    re.captures(text).map(|caps| caps.iter().map(|m| m.map(|m| (m.start(), m.end()))).collect())
}

/// What a search for `pattern` in `text` gives when the pattern is compiled
/// for the occasion: nothing where the pattern does not compile, else what
/// the compiled pattern finds.
pub open spec fn found(pattern: Seq<char>, text: Seq<char>) -> Option<Seq<Span>> {
    if pattern_compiles(pattern) {
        capture_spans(pattern, text)
    } else {
        None
    }
}

/// Compiles `pattern` and searches `text` with it.
pub fn find(pattern: &str, text: &str) -> (r: Option<Vec<Span>>)
    ensures
        match r {
            Some(v) => found(pattern@, text@) == Some(v@),
            None => found(pattern@, text@).is_none(),
        },
{
    match compile(pattern) {
        Some(re) => search(&re, text),
        None => None,
    }
}

} // verus!
