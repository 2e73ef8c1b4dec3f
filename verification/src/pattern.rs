//! Regular expressions over text.

use vstd::prelude::*;
use regex::Regex;

verus! {

#[verifier::external_type_specification]
#[verifier::external_body]
pub struct ExRegex(regex::Regex);

#[verifier::external_type_specification]
#[verifier::external_body]
pub struct ExRegexError(regex::Error);

/// Whether `source` is a regular expression that can be compiled.
pub uninterp spec fn regex_compiles(source: Seq<char>) -> bool;

/// Whether the regular expression `source` matches anywhere in `text`.
pub uninterp spec fn regex_is_match(source: Seq<char>, text: Seq<char>) -> bool;

/// Where the regular expression `source` matches in `text`: for each match,
/// from left to right, the byte offsets at which it starts and ends.
pub uninterp spec fn regex_spans(source: Seq<char>, text: Seq<char>) -> Seq<(usize, usize)>;

/// A compiled regular expression, with the text it was compiled from.
///
/// `Pattern::new` is the only way to make one, so `compiled` is always what
/// the compiler made of `source`.
pub struct Pattern {
    source: String,
    compiled: Regex,
}

/// Why a pattern was turned down.
#[derive(Debug, Clone, PartialEq, Eq)]
pub struct PatternError {
    /// What the compiler said.
    pub message: String,
}

/// Calls `regex::Regex::new`, which compiles `source` or says why it cannot:
/// the syntax is wrong, or the compiled expression would be too big. The
/// contract claims that whether it succeeds depends on `source` alone.
#[verifier::external_body]
fn compile(source: &str) -> (out: Result<Regex, regex::Error>)
    ensures
        out is Ok <==> regex_compiles(source@),
{
    Regex::new(source)
}

/// Calls `regex::Regex::is_match` on the compiled expression: whether it
/// matches anywhere in `text`. The contract claims that the answer depends
/// on `text` and on the source that the expression was compiled from.
#[verifier::external_body]
fn is_match(pattern: &Pattern, text: &str) -> (out: bool)
    ensures
        out == regex_is_match(pattern.source@, text@),
{
    pattern.compiled.is_match(text)
}

/// Calls `regex::Regex::find_iter` on the compiled expression, which yields
/// the matches in `text` that do not overlap, from left to right, and takes
/// from each where it starts and ends. The contract claims that they depend
/// on `text` and on the source that the expression was compiled from.
#[verifier::external_body]
fn find_spans(pattern: &Pattern, text: &str) -> (out: Vec<(usize, usize)>)
    ensures
        out@ == regex_spans(pattern.source@, text@),
{
    pattern.compiled.find_iter(text).map(|found| (found.start(), found.end())).collect()
}

/// Calls `to_string` on a `regex::Error`: the compiler's message. Nothing is
/// claimed of it.
#[verifier::external_body]
fn error_message(error: &regex::Error) -> (out: String)
{
    error.to_string()
}

impl View for Pattern {
    type V = Seq<char>;

    /// The text the pattern was compiled from.
    closed spec fn view(&self) -> Seq<char> {
        self.source@
    }
}

impl Pattern {
    /// Compiles `source`. Succeeds exactly on the expressions that the
    /// compiler takes.
    pub fn new(source: &str) -> (out: Result<Pattern, PatternError>)
        ensures
            out is Ok <==> regex_compiles(source@),
            out matches Ok(pattern) ==> pattern@ == source@,
    {
        match compile(source) {
            Ok(compiled) => Ok(Pattern { source: source.to_owned(), compiled }),
            Err(error) => Err(PatternError { message: error_message(&error) }),
        }
    }

    /// The text the pattern was compiled from.
    pub fn as_str(&self) -> (out: &str)
        ensures
            out@ == self@,
    {
        self.source.as_str()
    }

    /// Whether the pattern matches anywhere in `text`.
    pub fn is_match(&self, text: &str) -> (out: bool)
        ensures
            out == regex_is_match(self@, text@),
    {
        is_match(self, text)
    }

    /// Where the pattern matches in `text`.
    pub fn spans(&self, text: &str) -> (out: Vec<(usize, usize)>)
        ensures
            out@ == regex_spans(self@, text@),
    {
        find_spans(self, text)
    }
}

/// Whether a filter that may be absent lets `text` through: an absent filter
/// lets everything through, a pattern what it matches.
pub open spec fn passes(pattern: Option<Pattern>, text: Seq<char>) -> bool {
    match pattern {
        Some(pattern) => regex_is_match(pattern@, text),
        None => true,
    }
}

/// Whether `text` gets through a filter that may be absent.
pub fn text_passes(pattern: &Option<Pattern>, text: &str) -> (out: bool)
    ensures
        out == passes(*pattern, text@),
{
    match pattern {
        Some(pattern) => pattern.is_match(text),
        None => true,
    }
}

} // verus!
