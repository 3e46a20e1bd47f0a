//! Compiled glob and regular-expression patterns, through the `glob` and
//! `regex` crates.
use vstd::prelude::*;

verus! {

#[verifier::external_type_specification]
#[verifier::external_body]
pub struct ExGlobPattern(glob::Pattern);

#[verifier::external_type_specification]
#[verifier::external_body]
pub struct ExRegex(regex::Regex);

/// What `glob::Pattern::new(src)` reports: `None` when it compiles, otherwise
/// the text of its `PatternError`.
pub uninterp spec fn glob_compile_error(src: Seq<char>) -> Option<Seq<char>>;

/// What `glob::Pattern::matches` returns for the pattern compiled from `src` and `text`.
pub uninterp spec fn glob_matches(src: Seq<char>, text: Seq<char>) -> bool;

/// What `regex::Regex::new(src)` reports: `None` when it compiles, otherwise
/// the text of its `regex::Error`.
pub uninterp spec fn regex_compile_error(src: Seq<char>) -> Option<Seq<char>>;

/// What `regex::Regex::is_match` returns for the expression compiled from `src` and `text`.
pub uninterp spec fn regex_matches(src: Seq<char>, text: Seq<char>) -> bool;

/// A glob pattern together with the text it was compiled from.
pub struct GlobPattern {
    source: String,
    compiled: glob::Pattern,
}

impl GlobPattern {
    /// The text the pattern was compiled from.
    pub closed spec fn source(&self) -> Seq<char> {
        self.source@
    }
}

/// A regular expression together with the text it was compiled from.
pub struct RegexPattern {
    source: String,
    compiled: regex::Regex,
}

impl RegexPattern {
    /// The text the expression was compiled from.
    pub closed spec fn source(&self) -> Seq<char> {
        self.source@
    }
}

/// Compiles a glob with `glob::Pattern::new`; the error is its message.
#[verifier::external_body]
pub fn compile_glob(src: &str) -> (r: Result<GlobPattern, String>)
    ensures
        r matches Ok(p) ==> glob_compile_error(src@) is None && p.source() == src@,
        r matches Err(e) ==> glob_compile_error(src@) == Some(e@),
{
    match glob::Pattern::new(src) {
        Ok(p) => Ok(GlobPattern { source: src.to_string(), compiled: p }),
        Err(e) => Err(e.to_string()),
    }
}

/// Matches `text` against a compiled glob with `glob::Pattern::matches`.
#[verifier::external_body]
pub fn glob_is_match(p: &GlobPattern, text: &str) -> (b: bool)
    ensures
        b == glob_matches(p.source(), text@),
{
    p.compiled.matches(text)
}

/// Compiles a regular expression with `regex::Regex::new`; the error is its message.
#[verifier::external_body]
pub fn compile_regex(src: &str) -> (r: Result<RegexPattern, String>)
    ensures
        r matches Ok(p) ==> regex_compile_error(src@) is None && p.source() == src@,
        r matches Err(e) ==> regex_compile_error(src@) == Some(e@),
{
    match regex::Regex::new(src) {
        Ok(re) => Ok(RegexPattern { source: src.to_string(), compiled: re }),
        Err(e) => Err(e.to_string()),
    }
}

/// Tests `text` against a compiled expression with `regex::Regex::is_match`.
#[verifier::external_body]
pub fn regex_is_match(p: &RegexPattern, text: &str) -> (b: bool)
    ensures
        b == regex_matches(p.source(), text@),
{
    p.compiled.is_match(text)
}

} // verus!
