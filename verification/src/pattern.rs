//! Line patterns: a literal that is looked for without regard to ASCII case,
//! or a regular expression that the `regex` crate compiles and runs.

use vstd::prelude::*;
use crate::text::{contains_folded, contains_ignoring_case, copy_range};

verus! {

/// How a rule recognises a log line.
#[derive(Debug)]
pub enum Pattern {
    /// The line holds these bytes, ASCII case disregarded.
    Substring(Vec<u8>),
    /// The regular expression with this source finds a match in the line.
    Regex(String),
}

/// What a pattern stands for.
pub enum PatternView {
    Substring(Seq<u8>),
    Regex(Seq<char>),
}

impl View for Pattern {
    type V = PatternView;

    open spec fn view(&self) -> PatternView {
        match *self {
            Pattern::Substring(bytes) => PatternView::Substring(bytes@),
            Pattern::Regex(source) => PatternView::Regex(source@),
        }
    }
}

/// Whether `regex::bytes::Regex::new` accepts `source`.
pub uninterp spec fn regex_compiles(source: Seq<char>) -> bool;

/// Whether the regular expression compiled from `source` finds a match
/// anywhere in `haystack`, as `regex::bytes::Regex::is_match` reports it.
pub uninterp spec fn regex_finds(source: Seq<char>, haystack: Seq<u8>) -> bool;

/// Compiles `source` with `regex::bytes::Regex::new` and, if that succeeds,
/// runs `regex::bytes::Regex::is_match` on `haystack`.
///
/// Trusted: the result is `None` exactly when the crate rejects the source,
/// and otherwise what the crate's search reports. Both depend on the
/// arguments alone.
#[verifier::external_body]
fn regex_search(source: &str, haystack: &[u8]) -> (found: Option<bool>)
    ensures
        found == if regex_compiles(source@) {
            Some(regex_finds(source@, haystack@))
        } else {
            None::<bool>
        },
{
    match regex::bytes::Regex::new(source) {
        Ok(re) => Some(re.is_match(haystack)),
        Err(_) => None,
    }
}

/// The pattern can be used: a literal is not empty, a regular expression
/// compiles.
pub open spec fn pattern_usable(pattern: PatternView) -> bool {
    match pattern {
        PatternView::Substring(bytes) => bytes.len() > 0,
        PatternView::Regex(source) => regex_compiles(source),
    }
}

/// The pattern recognises `line`. A pattern that cannot be used recognises
/// nothing.
pub open spec fn pattern_matches(pattern: PatternView, line: Seq<u8>) -> bool {
    match pattern {
        PatternView::Substring(bytes) => bytes.len() > 0 && contains_ignoring_case(line, bytes),
        PatternView::Regex(source) => regex_compiles(source) && regex_finds(source, line),
    }
}

/// Reads the outcome of a search: only a search that ran and found a match
/// counts as a hit.
pub fn search_hit(found: Option<bool>) -> (hit: bool)
    ensures
        hit == (found == Some(true)),
{
    match found {
        Some(hit) => hit,
        None => false,
    }
}

impl Pattern {
    /// Tests whether the pattern can be used.
    pub fn is_usable(&self) -> (usable: bool)
        ensures
            usable == pattern_usable(self@),
    {
        match self {
            Pattern::Substring(bytes) => bytes.len() > 0,
            Pattern::Regex(source) => {
                let nothing: Vec<u8> = Vec::new();
                regex_search(source.as_str(), nothing.as_slice()).is_some()
            },
        }
    }

    /// Tests whether the pattern recognises `line`. A regular expression is
    /// compiled anew for each search.
    pub fn matches(&self, line: &[u8]) -> (hit: bool)
        ensures
            hit == pattern_matches(self@, line@),
    {
        match self {
            Pattern::Substring(bytes) => bytes.len() > 0 && contains_folded(line, bytes.as_slice()),
            Pattern::Regex(source) => search_hit(regex_search(source.as_str(), line)),
        }
    }

    /// A copy of the pattern.
    pub fn duplicate(&self) -> (copy: Pattern)
        ensures
            copy@ == self@,
    {
        match self {
            Pattern::Substring(bytes) => {
                let copy = copy_range(bytes.as_slice(), 0, bytes.len());
                assert(copy@ =~= bytes@);
                Pattern::Substring(copy)
            },
            Pattern::Regex(source) => Pattern::Regex(source.clone()),
        }
    }
}

} // verus!
