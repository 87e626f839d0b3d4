//! Regular-expression matching, done by the `regex` crate.
//!
//! What the engine answers is not modelled here: each answer has a name, and
//! the rest of the library states its results over those names.

use vstd::prelude::*;

verus! {

/// Why a text could not be scanned.
#[derive(Debug, Clone, Copy, PartialEq, Eq, Structural)]
pub enum ScanError {
    /// The regular-expression engine refused to compile a pattern.
    Pattern,
}

/// What the engine finds when `pattern` is run over `text` match by match: for
/// each successive non-overlapping match, first to last, the texts of all of
/// its capture groups, group 0 (the whole match) first and then the groups in
/// the order of their opening parentheses, with `None` for a group that took
/// no part in the match. `None` as a whole where the engine does not compile
/// `pattern`.
pub uninterp spec fn regex_captures(pattern: Seq<char>, text: Seq<char>) -> Option<
    Seq<Seq<Option<Seq<char>>>>,
>;

/// Whether `pattern` has a match anywhere in `text`; `None` where the engine
/// does not compile `pattern`.
pub uninterp spec fn regex_accepts(pattern: Seq<char>, text: Seq<char>) -> Option<bool>;

/// The views of the capture groups of one match.
pub open spec fn group_views(v: Seq<Option<String>>) -> Seq<Option<Seq<char>>> {
    Seq::new(
        v.len(),
        |i: int|
            match v[i] {
                Some(s) => Some(s@),
                None => None,
            },
    )
}

/// The views of the capture groups of a list of matches.
pub open spec fn capture_views(v: Seq<Vec<Option<String>>>) -> Seq<Seq<Option<Seq<char>>>> {
    Seq::new(v.len(), |i: int| group_views(v[i]@))
}

/// Compiles `pattern` with `regex::Regex::new` and walks `text` with
/// `Regex::captures_iter`, taking from each match the texts of all of its
/// capture groups (`Captures::iter`, `Match::as_str`). Trusted: the result is
/// the engine's answer, which depends on `pattern` and `text` alone.
#[verifier::external_body]
pub(crate) fn all_captures(pattern: &str, text: &str) -> (r: Option<Vec<Vec<Option<String>>>>)
    ensures
        r is Some == regex_captures(pattern@, text@) is Some,
        r matches Some(v) ==> Some(capture_views(v@)) == regex_captures(pattern@, text@),
{
    match regex::Regex::new(pattern) {
        Ok(re) => Some(
            re.captures_iter(text).map(
                |c| c.iter().map(|g| g.map(|m| m.as_str().to_string())).collect(),
            ).collect(),
        ),
        Err(_) => None,
    }
}

/// Compiles `pattern` with `regex::Regex::new` and asks `Regex::is_match`
/// whether it matches anywhere in `text`. Trusted: the result is the engine's
/// answer, which depends on `pattern` and `text` alone.
#[verifier::external_body]
pub(crate) fn pattern_accepts(pattern: &str, text: &str) -> (r: Option<bool>)
    ensures
        r == regex_accepts(pattern@, text@),
{
    match regex::Regex::new(pattern) {
        Ok(re) => Some(re.is_match(text)),
        Err(_) => None,
    }
}

} // verus!
