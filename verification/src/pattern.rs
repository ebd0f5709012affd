//! Regular expressions, compiled and matched by the `regex` crate.
//!
//! The syntax and the meaning of the expressions are those of that crate and
//! are not restated here: whether a pattern compiles, and whether it matches
//! a text, are named and left to it.

use regex::Regex;
use regex::RegexBuilder;
use vstd::prelude::*;
use vstd::string::*;

verus! {

#[verifier::external_type_specification]
#[verifier::external_body]
pub struct ExRegex(regex::Regex);

#[verifier::external_type_specification]
#[verifier::external_body]
pub struct ExRegexError(regex::Error);

/// Whether `RegexBuilder::build` accepts `pattern` with the given case
/// setting.
pub uninterp spec fn compiles(pattern: Seq<char>, case_insensitive: bool) -> bool;

/// Whether `Regex::is_match` finds `pattern`, compiled with the given case
/// setting, somewhere in `text`.
pub uninterp spec fn found_in(pattern: Seq<char>, case_insensitive: bool, text: Seq<char>) -> bool;

/// Why a pattern was refused.
#[derive(Debug)]
pub enum PatternError {
    /// The pattern does not compile; the text is the compiler's message.
    Invalid(String),
}

/// A compiled regular expression, together with the pattern and the case
/// setting it was compiled from.
pub struct Pattern {
    regex: Regex,
    source: String,
    case_insensitive: bool,
}

/// Compiles `pattern` by `RegexBuilder::new`, `case_insensitive` and
/// `build`. The builder accepts or refuses a pattern by the pattern and the
/// case setting alone.
#[verifier::external_body]
fn build_regex(pattern: &str, case_insensitive: bool) -> (r: Result<Regex, regex::Error>)
    ensures
        r is Ok <==> compiles(pattern@, case_insensitive),
{
    RegexBuilder::new(pattern).case_insensitive(case_insensitive).build()
}

/// The message of a compile error, by its `to_string`.
#[verifier::external_body]
fn error_message(error: &regex::Error) -> (r: String) {
    error.to_string()
}

/// Searches `text` with the compiled expression of `pattern`, by
/// `Regex::is_match`. The expression was compiled from the pattern and the
/// case setting that `pattern` records, and these and the text decide.
#[verifier::external_body]
fn regex_is_match(pattern: &Pattern, text: &str) -> (r: bool)
    ensures
        r == found_in(pattern.source@, pattern.case_insensitive, text@),
{
    pattern.regex.is_match(text)
}

impl Pattern {
    /// The pattern that was compiled.
    pub closed spec fn source(&self) -> Seq<char> {
        self.source@
    }

    /// Whether the pattern was compiled to ignore case.
    pub closed spec fn ignores_case(&self) -> bool {
        self.case_insensitive
    }

    /// Compiles `pattern`; with `case_insensitive`, letters match in either
    /// case.
    pub fn compile(pattern: &str, case_insensitive: bool) -> (r: Result<Pattern, PatternError>)
        ensures
            r is Ok <==> compiles(pattern@, case_insensitive),
            r matches Ok(p) ==> p.source() == pattern@ && p.ignores_case() == case_insensitive,
    {
        match build_regex(pattern, case_insensitive) {
            Ok(regex) => Ok(Pattern { regex, source: String::from_str(pattern), case_insensitive }),
            Err(error) => Err(PatternError::Invalid(error_message(&error))),
        }
    }

    /// The pattern as it was written.
    pub fn as_str(&self) -> (r: &str)
        ensures
            r@ == self.source(),
    {
        self.source.as_str()
    }

    /// Tells whether the pattern matches somewhere in `text`.
    pub fn is_match(&self, text: &str) -> (r: bool)
        ensures
            r == found_in(self.source(), self.ignores_case(), text@),
    {
        regex_is_match(self, text)
    }
}

} // verus!
