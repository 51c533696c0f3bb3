//! Regular expressions over bytes, as the parser uses them.
//!
//! Matching itself is done by the `regex` crate. What a search returns is a
//! function of the pattern, the haystack and the starting offset alone; the
//! specification gives each such result a name and the parser's contracts are
//! stated over those names.

use vstd::prelude::*;

verus! {

#[verifier::external_type_specification]
#[verifier::external_body]
pub struct ExRegex(regex::bytes::Regex);

#[verifier::external_type_specification]
#[verifier::external_body]
pub struct ExRegexError(regex::Error);

/// Byte offsets of one match: start (inclusive) and end (exclusive).
pub type Span = (usize, usize);

/// The spans of all groups of one match; group 0 is the whole match, a group
/// that did not take part is `None`.
pub type Groups = Vec<Option<Span>>;

/// Whether `regex` accepts `pattern` as a regular expression.
pub uninterp spec fn regex_valid(pattern: Seq<char>) -> bool;

/// The leftmost match of `pattern` in `haystack` that starts at or after `start`.
pub uninterp spec fn regex_find_at(pattern: Seq<char>, haystack: Seq<u8>, start: int) -> Option<Span>;

/// The group spans of the leftmost match of `pattern` in `haystack` that starts
/// at or after `start`.
pub uninterp spec fn regex_captures_at(pattern: Seq<char>, haystack: Seq<u8>, start: int) -> Option<Seq<Option<Span>>>;

/// The successive non-overlapping matches of `pattern` in `haystack`.
pub uninterp spec fn regex_find_iter(pattern: Seq<char>, haystack: Seq<u8>) -> Seq<Span>;

/// The group spans of the successive non-overlapping matches of `pattern` in
/// `haystack`.
pub uninterp spec fn regex_captures_iter(pattern: Seq<char>, haystack: Seq<u8>) -> Seq<Seq<Option<Span>>>;

/// A span that lies inside a haystack of length `len`.
pub open spec fn span_within(span: Span, len: nat) -> bool {
    span.0 <= span.1 <= len
}

/// Group spans as a match reports them: group 0 is present and every present
/// group lies inside the haystack.
pub open spec fn groups_within(groups: Seq<Option<Span>>, len: nat) -> bool {
    &&& groups.len() >= 1
    &&& groups[0] is Some
    &&& forall|i: int| 0 <= i < groups.len() ==> (#[trigger] groups[i] matches Some(span) ==> span_within(span, len))
}

/// A compiled regular expression together with the pattern it was compiled from.
pub struct Pattern {
    source: String,
    compiled: regex::bytes::Regex,
}

impl View for Pattern {
    type V = Seq<char>;

    closed spec fn view(&self) -> Seq<char> {
        self.source@
    }
}

/// Spec view of a list of group spans.
pub open spec fn groups_view(groups: Vec<Groups>) -> Seq<Seq<Option<Span>>> {
    Seq::new(groups@.len(), |i: int| groups@[i]@)
}

/// Calls `regex::bytes::Regex::new`. The pattern compiles exactly when it is
/// valid, and the compiled value remembers the pattern it came from.
#[verifier::external_body]
pub(crate) fn compile(pattern: &str) -> (res: Result<Pattern, regex::Error>)
    ensures
        res is Ok <==> regex_valid(pattern@),
        res matches Ok(p) ==> p@ == pattern@,
{
    match regex::bytes::Regex::new(pattern) {
        Ok(compiled) => Ok(Pattern { source: pattern.to_owned(), compiled }),
        Err(e) => Err(e),
    }
}

/// Calls `regex::bytes::Regex::find_at`. A match starts no earlier than `start`
/// and lies inside the haystack.
#[verifier::external_body]
pub(crate) fn find_at(pattern: &Pattern, haystack: &[u8], start: usize) -> (res: Option<Span>)
    requires
        start <= haystack@.len(),
    ensures
        res == regex_find_at(pattern@, haystack@, start as int),
        res matches Some(span) ==> start <= span.0 && span_within(span, haystack@.len()),
{
    pattern.compiled.find_at(haystack, start).map(|m| (m.start(), m.end()))
}

/// Calls `regex::bytes::Regex::captures_at`. Group 0 is the whole match, which
/// starts no earlier than `start`; every group that took part lies inside the
/// haystack.
#[verifier::external_body]
pub(crate) fn captures_at(pattern: &Pattern, haystack: &[u8], start: usize) -> (res: Option<Groups>)
    requires
        start <= haystack@.len(),
    ensures
        res matches Some(groups) ==> regex_captures_at(pattern@, haystack@, start as int) == Some(groups@),
        res is None ==> regex_captures_at(pattern@, haystack@, start as int) is None,
        res matches Some(groups) ==> groups_within(groups@, haystack@.len()) && start <= groups@[0].unwrap().0,
{
    pattern.compiled.captures_at(haystack, start).map(
        |caps| caps.iter().map(|group| group.map(|m| (m.start(), m.end()))).collect(),
    )
}

/// Calls `regex::bytes::Regex::find_iter` and collects the matches in order.
/// Every match lies inside the haystack.
#[verifier::external_body]
pub(crate) fn find_iter(pattern: &Pattern, haystack: &[u8]) -> (res: Vec<Span>)
    ensures
        res@ == regex_find_iter(pattern@, haystack@),
        forall|i: int| 0 <= i < res@.len() ==> span_within(#[trigger] res@[i], haystack@.len()),
{
    pattern.compiled.find_iter(haystack).map(|m| (m.start(), m.end())).collect()
}

/// Calls `regex::bytes::Regex::captures_iter` and collects the group spans of
/// each match in order. Every group that took part lies inside the haystack.
#[verifier::external_body]
pub(crate) fn captures_iter(pattern: &Pattern, haystack: &[u8]) -> (res: Vec<Groups>)
    ensures
        groups_view(res) == regex_captures_iter(pattern@, haystack@),
        forall|i: int| 0 <= i < res@.len() ==> groups_within(#[trigger] res@[i]@, haystack@.len()),
{
    pattern.compiled.captures_iter(haystack).map(
        |caps| caps.iter().map(|group| group.map(|m| (m.start(), m.end()))).collect(),
    ).collect()
}

} // verus!
