//! Model-name filters: regular expressions compiled with the `regex` crate.

use regex::Regex;
use vstd::prelude::*;

verus! {

#[verifier::external_type_specification]
#[verifier::external_body]
pub struct ExRegex(Regex);

/// Whether `regex::Regex::new` accepts `pattern` (it refuses invalid
/// syntax and patterns whose compiled form exceeds its default size limit).
pub uninterp spec fn regex_compiles(pattern: Seq<char>) -> bool;

/// Whether the regex compiled from `pattern` matches anywhere in `haystack`
/// (`regex::Regex::is_match`).
pub uninterp spec fn regex_is_match(pattern: Seq<char>, haystack: Seq<char>) -> bool;

/// A compiled filter together with the pattern it was compiled from.
pub struct Filter {
    pattern: String,
    regex: Regex,
}

impl View for Filter {
    type V = Seq<char>;

    /// A filter is seen as its pattern.
    closed spec fn view(&self) -> Seq<char> {
        self.pattern@
    }
}

/// Compiles `pattern` with `regex::Regex::new`.
///
/// Trusted: the result is `Some` exactly when `Regex::new` succeeds on the
/// pattern, and the filter keeps that pattern. Nothing else about the
/// compiled automaton is stated.
#[verifier::external_body]
fn regex_new(pattern: &str) -> (res: Option<Filter>)
    ensures
        res is Some <==> regex_compiles(pattern@),
        res matches Some(f) ==> f@ == pattern@,
{
    match Regex::new(pattern) {
        Ok(regex) => Some(Filter { pattern: pattern.to_string(), regex }),
        Err(_) => None,
    }
}

/// Runs `regex::Regex::is_match` of the filter's compiled regex on `haystack`.
///
/// Trusted: the answer is `regex_is_match` of the filter's pattern and the
/// haystack. This holds because a `Filter` is only ever built by
/// `regex_new`, which compiles the very pattern that it stores.
#[verifier::external_body]
fn regex_is_match_exec(filter: &Filter, haystack: &str) -> (res: bool)
    ensures
        res == regex_is_match(filter@, haystack@),
{
    filter.regex.is_match(haystack)
}

impl Filter {
    /// Compiles `pattern`; `None` when the regex crate refuses it.
    pub fn compile(pattern: &str) -> (res: Option<Filter>)
        ensures
            res is Some <==> regex_compiles(pattern@),
            res matches Some(f) ==> f@ == pattern@,
    {
        regex_new(pattern)
    }

    /// Whether the filter matches anywhere in `text`.
    pub fn is_match(&self, text: &str) -> (res: bool)
        ensures
            res == regex_is_match(self@, text@),
    {
        regex_is_match_exec(self, text)
    }

    /// The pattern the filter was compiled from.
    pub fn pattern(&self) -> (res: String)
        ensures
            res@ == self@,
    {
        self.pattern.clone()
    }
}

} // verus!
