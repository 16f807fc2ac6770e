//! Finding URLs in text with a compiled regular expression, and the
//! URL-preserving uwu transform built on it.

use crate::segments::{spans_valid, transform_segments, transformed};
use vstd::prelude::*;
use vstd::string::StringSliceAdditionalSpecFns;

verus! {

#[verifier::external_type_specification]
#[verifier::external_body]
pub struct ExRegex(regex::Regex);

#[verifier::external_type_specification]
#[verifier::external_body]
pub struct ExRegexError(regex::Error);

/// The pattern that recognises `http` and `https` URLs, with an optional
/// `www.`, a domain, and path, query and fragment characters.
pub const URL_PATTERN: &'static str =
    r"https?:\/\/(?:www\.)?[-a-zA-Z0-9@:%._\+~#=]{1,256}\.[a-zA-Z0-9()]{1,6}\b(?:[-a-zA-Z0-9()@:%_\+.~#?&\/=]*)";

/// Whether a pattern compiles as a regular expression.
pub uninterp spec fn pattern_compiles(pattern: Seq<char>) -> bool;

/// The byte spans that the URL pattern matches in a text, in order.
pub uninterp spec fn url_spans_of(text: Seq<char>) -> Seq<(usize, usize)>;

/// Relies on `regex::Regex::new`: it compiles the pattern or returns why it
/// could not, and which of the two depends on the pattern alone.
#[verifier::external_body]
fn compile(pattern: &str) -> (r: Result<regex::Regex, regex::Error>)
    ensures
        r is Ok <==> pattern_compiles(pattern@),
{
    regex::Regex::new(pattern)
}

/// Relies on `regex::Regex::find_iter`: it yields successive non-overlapping
/// matches, each with `start <= end` and both offsets on code point boundaries
/// of the haystack. A matcher's regex is only ever compiled from
/// [`URL_PATTERN`], and the search depends on the haystack alone.
#[verifier::external_body]
fn find_spans(m: &UrlMatcher, text: &str) -> (r: Vec<(usize, usize)>)
    ensures
        r@ == url_spans_of(text@),
        spans_valid(text.spec_bytes(), r@),
{
    m.re.find_iter(text).map(|x| (x.start(), x.end())).collect()
}

/// Why a matcher could not be built.
#[derive(Debug, Clone, Copy, PartialEq, Eq)]
pub enum MatcherError {
    InvalidPattern,
}

/// A compiled URL recogniser.
pub struct UrlMatcher {
    re: regex::Regex,
}

impl UrlMatcher {
    /// Compiles [`URL_PATTERN`].
    pub fn new() -> (r: Result<UrlMatcher, MatcherError>)
        ensures
            r is Ok <==> pattern_compiles(URL_PATTERN@),
    {
        match compile(URL_PATTERN) {
            Ok(re) => Ok(UrlMatcher { re }),
            Err(_) => Err(MatcherError::InvalidPattern),
        }
    }

    /// The byte spans of the URLs in `text`, in order.
    pub fn url_spans(&self, text: &str) -> (r: Vec<(usize, usize)>)
        ensures
            r@ == url_spans_of(text@),
            spans_valid(text.spec_bytes(), r@),
    {
        find_spans(self, text)
    }

    /// Mangles the text between URLs, run by run, and keeps each URL as it is.
    pub fn uwuify(&self, text: &str) -> (r: String)
        ensures
            r@ == transformed(text.spec_bytes(), url_spans_of(text@)),
            spans_valid(text.spec_bytes(), url_spans_of(text@)),
            text@.len() == 0 ==> r@.len() == 0,
    {
        let spans = self.url_spans(text);
        transform_segments(text, &spans)
    }
}

} // verus!
