use regex::Regex;
use vstd::prelude::*;

use crate::error::{Failure, FailureKind};

verus! {

#[verifier::external_type_specification]
#[verifier::external_body]
pub struct ExRegex(Regex);

/// Whether the pattern language accepts `pattern` (what `Regex::new` decides).
pub uninterp spec fn pattern_compiles(pattern: Seq<char>) -> bool;

/// Whether a compiled `pattern` matches anywhere in `line` (what `Regex::is_match` decides).
pub uninterp spec fn pattern_matches(pattern: Seq<char>, line: Seq<char>) -> bool;

/// The text of the error with which the pattern language rejects `pattern`
/// (what the `Display` of `Regex::new`'s error shows).
pub uninterp spec fn pattern_error(pattern: Seq<char>) -> Seq<char>;

/// A pattern compiled once, answering whether a line matches it.
///
/// `re` is only ever built by `regex_new` from the text held in `pattern`.
pub struct Matcher {
    pattern: String,
    re: Regex,
}

impl View for Matcher {
    type V = Seq<char>;

    /// The pattern text the matcher was compiled from.
    closed spec fn view(&self) -> Seq<char> {
        self.pattern@
    }
}

/// Relies on `regex::Regex::new`: it succeeds exactly on the patterns that the
/// pattern language accepts; the error's `Display` carries the syntax detail,
/// and depends on the pattern alone.
#[verifier::external_body]
fn regex_new(pattern: &str) -> (r: Result<Regex, String>)
    ensures
        r is Ok <==> pattern_compiles(pattern@),
        r matches Err(d) ==> d@ == pattern_error(pattern@),
{
    Regex::new(pattern).map_err(|e| e.to_string())
}

/// Relies on `regex::Regex::is_match`: true iff the regex matches somewhere in
/// `line`. The regex in `m.re` was compiled from `m.pattern` (see `compile`).
#[verifier::external_body]
fn regex_is_match(m: &Matcher, line: &str) -> (r: bool)
    ensures
        r == pattern_matches(m@, line@),
{
    m.re.is_match(line)
}

impl Matcher {
    /// Compiles `pattern`; fails with `InvalidPattern` exactly when the
    /// pattern language rejects it, with the rejection's text as detail.
    pub fn compile(pattern: &str) -> (r: Result<Matcher, Failure>)
        ensures
            r is Ok <==> pattern_compiles(pattern@),
            r matches Ok(m) ==> m@ == pattern@,
            r matches Err(e) ==> e.kind == FailureKind::InvalidPattern && e.detail@
                == pattern_error(pattern@),
    {
        match regex_new(pattern) {
            Ok(re) => Ok(Matcher { pattern: pattern.to_owned(), re }),
            Err(detail) => Err(Failure::new(FailureKind::InvalidPattern, detail)),
        }
    }

    /// Whether `line` holds a match of the pattern anywhere.
    pub fn matches(&self, line: &str) -> (r: bool)
        ensures
            r == pattern_matches(self@, line@),
    {
        regex_is_match(self, line)
    }

    /// The pattern text this matcher was compiled from.
    pub fn pattern(&self) -> (r: &str)
        ensures
            r@ == self@,
    {
        self.pattern.as_str()
    }
}

/// A matcher's answer depends on the pattern text and the line alone: two
/// matchers compiled from the same text agree on equal lines, and so do two
/// calls of one matcher.
pub proof fn lemma_matches_deterministic(m1: Matcher, m2: Matcher, l1: Seq<char>, l2: Seq<char>)
    requires
        m1@ == m2@,
        l1 == l2,
    ensures
        pattern_matches(m1@, l1) == pattern_matches(m2@, l2),
{
}

} // verus!
