//! The pattern matcher: a compiled regular expression together with the
//! one predicate the decode loop needs, "does this candidate string
//! satisfy the pattern".
//!
//! Compilation and matching are done by the `regex` crate; everything this
//! module states about them is gathered in the three uninterpreted names
//! [`regex_valid`], [`regex_source`] and [`regex_match`] and the trusted
//! wrappers that apply them.

use vstd::prelude::*;

verus! {

/// Whether `regex::Regex::new`, with its default configuration, accepts
/// the pattern. Compilation is deterministic, so this is a function of
/// the pattern string alone.
pub uninterp spec fn regex_valid(pattern: Seq<char>) -> bool;

/// The pattern string a compiled `regex::Regex` was built from, as
/// `regex::Regex::as_str` reports it. Every compiled value in this crate
/// comes from `regex::Regex::new`, so its whole configuration is the
/// default one and its behaviour is a function of this string alone.
pub uninterp spec fn regex_source(re: regex::Regex) -> Seq<char>;

/// Whether an unanchored search of the pattern succeeds somewhere in the
/// text. `regex::Regex::is_match` decides this from the pattern and the
/// text alone.
pub uninterp spec fn regex_match(pattern: Seq<char>, text: Seq<char>) -> bool;

#[verifier::external_type_specification]
#[verifier::external_body]
pub struct ExRegex(regex::Regex);

/// Relies on `regex::Regex::new`: it succeeds exactly on the pattern
/// strings it accepts under its default configuration, and the compiled
/// value keeps the source pattern it was built from.
#[verifier::external_body]
fn regex_new(pattern: &str) -> (r: Result<regex::Regex, String>)
    ensures
        r is Ok <==> regex_valid(pattern@),
        r matches Ok(re) ==> regex_source(re) == pattern@,
{
    regex::Regex::new(pattern).map_err(|e| e.to_string())
}

/// Relies on `regex::Regex::is_match`: an unanchored search, decided by
/// the compiled pattern and the haystack alone.
#[verifier::external_body]
fn regex_is_match(re: &regex::Regex, text: &str) -> (r: bool)
    ensures
        r == regex_match(regex_source(*re), text@),
{
    re.is_match(text)
}

/// Relies on `regex::Regex::as_str`: it returns the pattern string the
/// value was built from.
#[verifier::external_body]
fn regex_as_str(re: &regex::Regex) -> (r: &str)
    ensures
        r@ == regex_source(*re),
{
    re.as_str()
}

/// Why a pattern string was rejected: the matching engine's own message.
#[derive(Debug, Clone, PartialEq)]
pub struct PatternError {
    pub message: String,
}

/// An immutable compiled pattern. Built once by [`Matcher::compile`],
/// never mutated, reusable across any number of decode calls.
///
/// Its view is the source pattern string.
pub struct Matcher {
    re: regex::Regex,
}

impl View for Matcher {
    type V = Seq<char>;

    closed spec fn view(&self) -> Seq<char> {
        regex_source(self.re)
    }
}

impl Matcher {
    /// Compile a pattern string. Fails exactly when the pattern is not
    /// valid syntax for the matching engine; the error carries the
    /// engine's message.
    pub fn compile(pattern: &str) -> (r: Result<Matcher, PatternError>)
        ensures
            r is Ok <==> regex_valid(pattern@),
            r matches Ok(m) ==> m@ == pattern@,
    {
        match regex_new(pattern) {
            Ok(re) => Ok(Matcher { re }),
            Err(message) => Err(PatternError { message }),
        }
    }

    /// Does the candidate string satisfy the pattern? Total over any
    /// string; an unanchored search, as conventional for regular
    /// expressions.
    pub fn is_match(&self, text: &str) -> (r: bool)
        ensures
            r == regex_match(self@, text@),
    {
        regex_is_match(&self.re, text)
    }

    /// The source pattern string this matcher was compiled from.
    pub fn source(&self) -> (r: &str)
        ensures
            r@ == self@,
    {
        regex_as_str(&self.re)
    }
}

} // verus!
