//! Pattern checks: a text is valid when it contains a match of a regular
//! expression (unanchored "contains a match" semantics; anchors inside the
//! pattern itself still apply).
//!
//! The matching itself is done by the `regex` crate.  What `Regex::new`
//! accepts and what `Regex::is_match` returns depend on the pattern and the
//! text alone, so both results are given names here and every contract
//! speaks through those names.

use vstd::prelude::*;

use crate::failure::Failure;

verus! {

/// Whether the `regex` crate accepts this pattern source as a valid
/// regular expression (`Regex::new` returns `Ok`).
pub uninterp spec fn regex_valid(pattern: Seq<char>) -> bool;

/// Whether `text` contains a match of `pattern`, as decided by
/// `Regex::is_match` of the `regex` crate.
pub uninterp spec fn regex_match(pattern: Seq<char>, text: Seq<char>) -> bool;

/// Relies on `regex::Regex::new` and `regex::Regex::is_match`: compiling a
/// pattern succeeds or fails depending on the pattern source alone, and a
/// compiled pattern matches depending on pattern source and text alone.
/// An invalid pattern yields `None`.
#[verifier::external_body]
fn regex_is_match(pattern: &str, text: &str) -> (r: Option<bool>)
    ensures
        r is Some <==> regex_valid(pattern@),
        r matches Some(b) ==> b == regex_match(pattern@, text@),
{
    match regex::Regex::new(pattern) {
        Ok(re) => Some(re.is_match(text)),
        Err(_) => None,
    }
}

/// Pattern check over a text and a pattern source.
///
/// A pattern that is not a valid regular expression rejects every text
/// (the explicit policy for malformed patterns, which are a
/// configuration-time mistake of the caller).
pub fn check_pattern(text: &str, pattern: &str) -> (r: Result<(), Failure>)
    ensures
        regex_valid(pattern@) ==> (r is Ok <==> regex_match(pattern@, text@)),
        !regex_valid(pattern@) ==> r is Err,
        r matches Err(f) ==> f matches Failure::Pattern { source } && source@ == pattern@,
{
    match regex_is_match(pattern, text) {
        Some(true) => Ok(()),
        _ => Err(Failure::Pattern { source: pattern.to_owned() }),
    }
}

/// Pattern validation for string-like values.
pub trait ValidatePattern where Self: Sized {
    /// The characters checked against the pattern.
    spec fn text(&self) -> Seq<char>;

    /// Checks that the text contains a match of `pattern`; an invalid
    /// pattern rejects every text.
    fn validate(&self, pattern: &str) -> (r: Result<(), Failure>)
        ensures
            regex_valid(pattern@) ==> (r is Ok <==> regex_match(pattern@, self.text())),
            !regex_valid(pattern@) ==> r is Err,
            r matches Err(f) ==> f matches Failure::Pattern { source } && source@ == pattern@,
    ;
}

impl ValidatePattern for String {
    open spec fn text(&self) -> Seq<char> {
        self@
    }

    fn validate(&self, pattern: &str) -> (r: Result<(), Failure>) {
        check_pattern(self.as_str(), pattern)
    }
}

/// A pattern rule, selected when the validation is declared; a value of
/// this type plugs into the lifting machinery as a scalar check over
/// owned strings.
#[derive(Debug)]
pub struct PatternRule {
    /// The source text of the regular expression.
    pub source: String,
}

impl crate::composited::ScalarRule<String> for PatternRule {
    open spec fn scalar_ok(&self, v: String) -> bool {
        regex_valid(self.source@) && regex_match(self.source@, v@)
    }

    open spec fn failure_text(&self, v: String) -> Seq<char> {
        "the value must match the pattern of \""@ + self.source@ + "\"."@
    }

    fn check(&self, v: &String) -> (r: Result<(), Failure>) {
        check_pattern(v.as_str(), self.source.as_str())
    }
}

} // verus!
