//! Regular expressions, through the `regex` crate.

use vstd::prelude::*;

verus! {

#[verifier::external_type_specification]
#[verifier::external_body]
pub struct ExRegex(regex::Regex);

/// What `regex::Regex::new` gives for `pattern`: `None` when the pattern
/// compiles, else the text of the error it reports.
pub uninterp spec fn regex_compile_error(pattern: Seq<char>) -> Option<Seq<char>>;

/// Whether the regular expression `pattern` matches somewhere in
/// `haystack`, as `regex::Regex::is_match` decides.
pub uninterp spec fn regex_is_match(pattern: Seq<char>, haystack: Seq<char>) -> bool;

/// Calls `regex::Regex::new`. Claimed: the call succeeds exactly when
/// [`regex_compile_error`] of the pattern is `None`, and on failure the
/// error's text is that name's value.
#[verifier::external_body]
fn compile_regex(pattern: &str) -> (r: Result<regex::Regex, String>)
    ensures
        match r {
            Ok(_) => regex_compile_error(pattern@) is None,
            Err(msg) => regex_compile_error(pattern@) == Some(msg@),
        },
{
    match regex::Regex::new(pattern) {
        Ok(re) => Ok(re),
        Err(e) => Err(e.to_string()),
    }
}

/// A compiled regular expression together with its source text.
pub struct Pattern {
    source: String,
    compiled: regex::Regex,
}

/// Calls `regex::Regex::is_match` on the compiled form of `p`. Claimed: the
/// answer is [`regex_is_match`] of `p`'s source and the haystack; this
/// holds because a `Pattern` is only built by [`Pattern::new`], which
/// compiles exactly its source.
#[verifier::external_body]
fn pattern_is_match(p: &Pattern, haystack: &str) -> (b: bool)
    ensures
        b == regex_is_match(p.source@, haystack@),
{
    p.compiled.is_match(haystack)
}

impl View for Pattern {
    type V = Seq<char>;

    closed spec fn view(&self) -> Seq<char> {
        self.source@
    }
}

impl Pattern {
    /// Compiles `pattern`; on failure, the error's text.
    pub fn new(pattern: &str) -> (r: Result<Pattern, String>)
        ensures
            match r {
                Ok(p) => p@ == pattern@ && regex_compile_error(pattern@) is None,
                Err(msg) => regex_compile_error(pattern@) == Some(msg@),
            },
    {
        match compile_regex(pattern) {
            Ok(compiled) => Ok(Pattern { source: pattern.to_owned(), compiled }),
            Err(msg) => Err(msg),
        }
    }

    /// Whether the pattern matches somewhere in `haystack`.
    pub fn is_match(&self, haystack: &str) -> (b: bool)
        ensures
            b == regex_is_match(self@, haystack@),
    {
        pattern_is_match(self, haystack)
    }
}

} // verus!
