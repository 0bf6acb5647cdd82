//! Regular expressions, as the `regex` crate reads and runs them.

use regex::Regex;
use vstd::prelude::*;

verus! {

/// The error of the `regex` crate: why a pattern was not compiled.
#[verifier::external_type_specification]
#[verifier::external_body]
pub struct ExRegexError(regex::Error);

/// Whether `regex::Regex::new` compiles `pattern`.
pub uninterp spec fn pattern_compiles(pattern: Seq<char>) -> bool;

/// For a `pattern` that compiles: whether the regular expression matches
/// anywhere in `text`, as `regex::Regex::is_match` finds it.
pub uninterp spec fn pattern_matches(pattern: Seq<char>, text: Seq<char>) -> bool;

/// Calls `regex::Regex::new` and drops the compiled expression. Trusted:
/// that whether the call succeeds depends on the text of `pattern` alone.
#[verifier::external_body]
pub(crate) fn compile(pattern: &str) -> (r: Result<(), regex::Error>)
    ensures
        r is Ok <==> pattern_compiles(pattern@),
{
    match Regex::new(pattern) {
        Ok(_) => Ok(()),
        Err(e) => Err(e),
    }
}

/// Calls `regex::Regex::new` on `pattern` and `regex::Regex::is_match` on
/// what it gives, with `text`. Trusted: that the first call fails on the
/// patterns on which it fails in `compile`, and that what the second returns
/// depends on the texts of `pattern` and `text` alone.
#[verifier::external_body]
pub(crate) fn is_match(pattern: &str, text: &str) -> (r: Result<bool, regex::Error>)
    ensures
        r is Ok <==> pattern_compiles(pattern@),
        r matches Ok(found) ==> found == pattern_matches(pattern@, text@),
{
    match Regex::new(pattern) {
        Ok(re) => Ok(re.is_match(text)),
        Err(e) => Err(e),
    }
}

} // verus!
