//! Regular expressions.
//!
//! Patterns are compiled and matched by the `regex` crate. What it answers is
//! not proved here: each function of this module that calls it states, in its
//! contract, what is taken on trust.
use vstd::prelude::*;
use vstd::string::StringSliceAdditionalSpecFns;
use vstd::utf8::is_char_boundary;

verus! {

/// `regex::Regex`, the engine's compiled pattern. Nothing inside it is seen
/// here.
#[verifier::external_type_specification]
#[verifier::external_body]
pub struct ExRegex(regex::Regex);

/// `regex::Error`, the engine's error for a pattern that it rejects. Nothing
/// inside it is seen here.
#[verifier::external_type_specification]
#[verifier::external_body]
pub struct ExRegexError(regex::Error);

/// Whether `regex::Regex::new` compiles `pattern`.
pub uninterp spec fn pattern_accepted(pattern: Seq<char>) -> bool;

/// The byte offsets, start and end, of the first match of `pattern` in
/// `text`, as `regex::Regex::find` gives it.
pub uninterp spec fn first_match(pattern: Seq<char>, text: Seq<char>) -> Option<(int, int)>;

/// The byte offsets of the successive non-overlapping matches of `pattern` in
/// `text`, from left to right, as `regex::Regex::find_iter` gives them.
pub uninterp spec fn all_matches(pattern: Seq<char>, text: Seq<char>) -> Seq<(int, int)>;

/// A range of byte offsets into a text.
#[derive(Debug, Clone, Copy, PartialEq, Eq, Structural)]
pub struct Span {
    pub start: usize,
    pub end: usize,
}

impl Span {
    /// The two offsets of the span.
    pub open spec fn offsets(self) -> (int, int) {
        (self.start as int, self.end as int)
    }

    /// Whether the span lies inside `bytes`, in order and on character
    /// boundaries.
    pub open spec fn fits(self, bytes: Seq<u8>) -> bool {
        &&& self.start <= self.end <= bytes.len()
        &&& is_char_boundary(bytes, self.start as int)
        &&& is_char_boundary(bytes, self.end as int)
    }
}

/// The offsets of each span of a list.
pub open spec fn spans_view(spans: Seq<Span>) -> Seq<(int, int)> {
    Seq::new(spans.len(), |i: int| spans[i].offsets())
}

/// A compiled pattern, together with the text it was compiled from.
pub struct Pattern {
    source: String,
    compiled: regex::Regex,
}

impl Pattern {
    /// The text the pattern was compiled from.
    pub closed spec fn source(&self) -> Seq<char> {
        self.source@
    }

    /// The text the pattern was compiled from.
    pub fn as_str(&self) -> (res: &str)
        ensures
            res@ == self.source(),
    {
        self.source.as_str()
    }
}

/// Compiles `source` with `regex::Regex::new`.
///
/// Taken on trust: whether the engine accepts a pattern depends on the
/// pattern alone.
#[verifier::external_body]
pub(crate) fn compile(source: &str) -> (res: Result<Pattern, regex::Error>)
    ensures
        res is Ok <==> pattern_accepted(source@),
        res matches Ok(p) ==> p.source() == source@,
{
    match regex::Regex::new(source) {
        Ok(compiled) => Ok(Pattern { source: source.to_string(), compiled }),
        Err(e) => Err(e),
    }
}

/// The engine's description of why it rejected a pattern, as
/// `regex::Error` displays it. Nothing is claimed of the text.
#[verifier::external_body]
pub(crate) fn describe(error: &regex::Error) -> (res: String) {
    error.to_string()
}

/// The first match of `pattern` in `text`, by `regex::Regex::find`.
///
/// Taken on trust: the match depends on the pattern's source and the text
/// alone; its offsets are in order, inside the text and on character
/// boundaries.
#[verifier::external_body]
pub(crate) fn find_first(pattern: &Pattern, text: &str) -> (res: Option<Span>)
    ensures
        first_match(pattern.source(), text@) == match res {
            Some(s) => Some(s.offsets()),
            None => None,
        },
        res matches Some(s) ==> s.fits(text.spec_bytes()),
{
    pattern.compiled.find(text).map(|m| Span { start: m.start(), end: m.end() })
}

/// Every match of `pattern` in `text`, by `regex::Regex::find_iter`.
///
/// Taken on trust: the matches depend on the pattern's source and the text
/// alone; each has its offsets in order, inside the text and on character
/// boundaries.
#[verifier::external_body]
pub(crate) fn find_all(pattern: &Pattern, text: &str) -> (res: Vec<Span>)
    ensures
        spans_view(res@) == all_matches(pattern.source(), text@),
        forall|i: int| 0 <= i < res@.len() ==> (#[trigger] res@[i]).fits(text.spec_bytes()),
{
    pattern.compiled.find_iter(text).map(|m| Span { start: m.start(), end: m.end() }).collect()
}

} // verus!
