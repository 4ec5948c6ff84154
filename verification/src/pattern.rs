//! Regular expressions.
use vstd::prelude::*;

verus! {

/// Whether `regex::Regex::new` accepts the pattern.
pub uninterp spec fn is_pattern(pattern: Seq<char>) -> bool;

/// Whether the pattern, as `regex::Regex::new` reads it, matches somewhere in the text, as
/// `regex::Regex::is_match` finds; false of what is not a pattern.
pub uninterp spec fn matches_in(pattern: Seq<char>, text: Seq<char>) -> bool;

/// Whether `regex::Regex::new` accepts the pattern. Which texts are patterns is named, not
/// described.
#[verifier::external_body]
pub(crate) fn compiles(pattern: &str) -> (r: bool)
    ensures
        r == is_pattern(pattern@),
{
    regex::Regex::new(pattern).is_ok()
}

/// Whether the pattern matches somewhere in the text, by `regex::Regex::is_match`. The
/// matching is named, not described; what is not a pattern matches nothing.
#[verifier::external_body]
pub(crate) fn is_match(pattern: &str, text: &str) -> (r: bool)
    ensures
        r == matches_in(pattern@, text@),
{
    match regex::Regex::new(pattern) {
        Ok(compiled) => compiled.is_match(text),
        Err(_) => false,
    }
}

} // verus!
