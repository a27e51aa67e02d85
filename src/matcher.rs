//! Case-insensitive pattern matching, and the rule that decides whether an
//! alert fires.

use vstd::prelude::*;

verus! {

/// Declares `regex::Regex`, held opaque inside [`Pattern`].
#[verifier::external_type_specification]
#[verifier::external_body]
pub struct ExRegex(regex::Regex);

/// Names whether `regex` accepts `p` as a pattern (built case-insensitively
/// with its default limits).
pub uninterp spec fn pattern_compiles(p: Seq<char>) -> bool;

/// Names whether the case-insensitive pattern `p` finds an occurrence
/// anywhere in `text`.
pub uninterp spec fn pattern_found(p: Seq<char>, text: Seq<char>) -> bool;

/// A compiled case-insensitive pattern, with the text it was compiled from.
///
/// Values are made only by `build_pattern`, so `regex` is always the
/// compiled form of `source`.
pub struct Pattern {
    source: String,
    regex: regex::Regex,
}

impl Pattern {
    /// The text this pattern was compiled from.
    pub closed spec fn source(&self) -> Seq<char> {
        self.source@
    }
}

/// Relies on `regex::RegexBuilder::new(p).case_insensitive(true).build()`:
/// `Ok` exactly when `p` is a valid pattern; the error's text explains why
/// it is not.
#[verifier::external_body]
fn build_pattern(p: &str) -> (r: Result<Pattern, String>)
    ensures
        r is Ok <==> pattern_compiles(p@),
        r matches Ok(q) ==> q.source() == p@,
{
    match regex::RegexBuilder::new(p).case_insensitive(true).build() {
        Ok(regex) => Ok(Pattern { source: p.to_owned(), regex }),
        Err(e) => Err(e.to_string()),
    }
}

/// Relies on `regex::Regex::is_match`: whether the pattern finds an
/// occurrence anywhere in `text`.
#[verifier::external_body]
fn find_in(p: &Pattern, text: &str) -> (r: bool)
    ensures
        r == pattern_found(p.source(), text@),
{
    p.regex.is_match(text)
}

/// Compiles `pattern` case-insensitively; the error holds the compiler's
/// explanation.
pub fn compile(pattern: &str) -> (r: Result<Pattern, String>)
    ensures
        r is Ok <==> pattern_compiles(pattern@),
        r matches Ok(q) ==> q.source() == pattern@,
{
    build_pattern(pattern)
}

/// Whether `pattern`, compiled case-insensitively, finds an occurrence in
/// `text`; `Err` when the pattern does not compile.
pub fn matches(pattern: &str, text: &str) -> (r: Result<bool, String>)
    ensures
        r is Ok <==> pattern_compiles(pattern@),
        r matches Ok(b) ==> b == pattern_found(pattern@, text@),
{
    match build_pattern(pattern) {
        Ok(p) => Ok(find_in(&p, text)),
        Err(e) => Err(e),
    }
}

/// The notification rule: a plain alert fires when its pattern was found,
/// an inverted one when it was not.
pub open spec fn fires(found: bool, invert: bool) -> bool {
    (!invert && found) || (invert && !found)
}

/// Whether an alert fires, given whether its pattern was found.
pub fn should_notify(found: bool, invert: bool) -> (r: bool)
    ensures
        r == fires(found, invert),
        r == (found != invert),
{
    found != invert
}

} // verus!
