//! Regular expressions, through the `regex` crate.
use vstd::prelude::*;

use crate::text::owned;

verus! {

/// `regex::Regex`, carried opaquely.
#[verifier::external_type_specification]
#[verifier::external_body]
pub struct ExRegex(regex::Regex);

/// `regex::Error`, carried opaquely.
#[verifier::external_type_specification]
#[verifier::external_body]
pub struct ExRegexError(regex::Error);

/// Whether `regex::Regex::new` accepts `pattern`. The regex syntax is the
/// `regex` crate's; it is named here, not restated.
pub uninterp spec fn regex_compiles(pattern: Seq<char>) -> bool;

/// Whether the regex compiled from `pattern` matches somewhere in `haystack`
/// (`regex::Regex::is_match`).
pub uninterp spec fn regex_is_match(pattern: Seq<char>, haystack: Seq<char>) -> bool;

/// Compiles `source` with `regex::Regex::new`. The contract claims that
/// compilation succeeds exactly when the pattern is accepted, which depends on
/// the pattern alone.
#[verifier::external_body]
fn compile_regex(source: &str) -> (r: Result<regex::Regex, regex::Error>)
    ensures
        r is Ok <==> regex_compiles(source@),
{
    regex::Regex::new(source)
}

/// A compiled regular expression together with the pattern it was compiled
/// from. It is only built by `Pattern::new`, so `regex` always comes from
/// `source`.
pub struct Pattern {
    source: String,
    regex: regex::Regex,
}

impl View for Pattern {
    type V = Seq<char>;

    /// The pattern's source text.
    closed spec fn view(&self) -> Seq<char> {
        self.source@
    }
}

/// Tests the compiled regex of `pattern` against `haystack` with
/// `regex::Regex::is_match`. The contract claims the answer depends only on
/// the pattern's source text and the haystack; it holds because a `Pattern`'s
/// regex is always compiled from its source.
#[verifier::external_body]
fn regex_match(pattern: &Pattern, haystack: &str) -> (r: bool)
    ensures
        r == regex_is_match(pattern@, haystack@),
{
    pattern.regex.is_match(haystack)
}

impl Pattern {
    /// Compiles `source`.
    pub fn new(source: &str) -> (r: Result<Pattern, regex::Error>)
        ensures
            r is Ok <==> regex_compiles(source@),
            r matches Ok(p) ==> p@ == source@,
    {
        match compile_regex(source) {
            Ok(regex) => Ok(Pattern { source: owned(source), regex }),
            Err(e) => Err(e),
        }
    }

    /// Does the pattern match somewhere in `haystack`?
    pub fn is_match(&self, haystack: &str) -> (r: bool)
        ensures
            r == regex_is_match(self@, haystack@),
    {
        regex_match(self, haystack)
    }
}

} // verus!
