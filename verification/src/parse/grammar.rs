//! What the parser recognises, as mathematical functions on bytes.
//!
//! A scan window is a byte sequence `w`; `base` is the offset of its first
//! byte in the source file. Searches by regular expression enter through the
//! named results of [`crate::pattern`].

use vstd::prelude::*;
use crate::error::build_err;
use crate::error::BuildErrorView;
use crate::error::ErrorView;
use crate::parse::tree::origin_of;
use crate::parse::tree::AttributeView;
use crate::parse::tree::BodyView;
use crate::parse::tree::ElementView;
use crate::parse::tree::ExpressionView;
use crate::parse::tree::LiteralView;
use crate::parse::tree::OriginView;
use crate::pattern::regex_captures_at;
use crate::pattern::regex_captures_iter;
use crate::pattern::regex_find_iter;
use crate::pattern::regex_valid;
use crate::pattern::regex_find_at;
use crate::pattern::span_within;
use crate::pattern::Span;
use crate::text::has_suffix;
use crate::text::lower_ascii;
use crate::text::utf8_lossy;

verus! {

/// A run of whitespace or one comment at the start of the window. A comment
/// runs from `<!--` to the first `-->` behind it, across line breaks.
pub const GARBAGE: &'static str = r#"^(?:[\s\n]+|<!--(?s:.*?)-->)"#;

/// A tag name on its own.
pub const TAG_NAME: &'static str = r#"^[a-zA-Z][a-zA-Z0-9_-]*$"#;

/// A selector shorthand: class tokens, an optional id, class tokens.
pub const CSS_SELECTOR_SHORTHAND: &'static str = r#"^(?<class1>\.[a-zA-Z][a-zA-Z0-9_-]*)*(?<id>#[a-zA-Z][a-zA-Z0-9_-]*)?(?<class2>\.[a-zA-Z][a-zA-Z0-9_-]*)*$"#;

/// One attribute: a name and, behind an optional `=`, a value in double or
/// in single quotes; whitespace may stand on either side of the `=`.
pub const ATTRIBUTE: &'static str = r#"(?<name>\w+)(?:\s*=\s*(?:(?<double>"[^"]*")|(?<single>'[^']*')))?"#;

/// The start of an opening or closing tag.
pub const OPEN_OR_CLOSING_TAG: &'static str = r#"</?(?<tag>[a-zA-Z][a-zA-Z0-9_-]*)"#;

/// An opening tag at the start of the window: name, selector shorthand, attributes.
pub const COMBINED: &'static str = r#"^<\s*(?<tag>[a-zA-Z][a-zA-Z0-9_-]*)\s*(?<selector>(?:\.[a-zA-Z][a-zA-Z0-9_-]*)*(?:#[a-zA-Z][a-zA-Z0-9_-]*)?(?:\.[a-zA-Z][a-zA-Z0-9_-]*)*)(?<attributes>(?:\s+\w+(?:\s*=\s*(?:("[^"]*")|('[^']*')))?)*)\s*/?>"#;

/// A closing tag.
pub const CLOSING: &'static str = r#"</\s*[a-zA-Z][a-zA-Z0-9_-]*\s*>"#;

/// The modifiers, hash fence and opening quote of a string literal.
pub const LEGAL_STRING_MODIFIER: &'static str = r#"^(?<mod>r?b?|b?r?)(?<hash>#{0,256})(?<quot>["'`])"#;

/// The prefix that, followed by a tag name, finds that tag's opening and closing tags.
pub const TAG_EDGE: &'static str = "</?";

/// Group `i` of a match, if it took part and lies inside a haystack of length `len`.
pub open spec fn group(groups: Seq<Option<Span>>, i: int, len: nat) -> Option<(int, int)> {
    if 0 <= i < groups.len() && groups[i] is Some && span_within(groups[i].unwrap(), len) {
        Some((groups[i].unwrap().0 as int, groups[i].unwrap().1 as int))
    } else {
        None
    }
}

/// The origin of a node of `length` bytes at `offset`.
pub open spec fn origin_at(path: Seq<char>, offset: int, depth: nat, length: int) -> OriginView {
    OriginView { source: path, offset: offset as nat, depth, token_length: length as nat }
}

// ---------------------------------------------------------------- whitespace

/// Length of a match in a window of `len` bytes; 0 for no match.
pub open spec fn match_len(found: Option<Span>, len: nat) -> nat {
    match found {
        Some(span) => if span_within(span, len) {
            (span.1 - span.0) as nat
        } else {
            0
        },
        None => 0,
    }
}

/// Length of the whitespace run or comment at the start of `w`; 0 if there is none.
pub open spec fn leading_garbage(w: Seq<u8>) -> nat {
    match_len(regex_find_at(GARBAGE@, w, 0), w.len())
}

/// Number of bytes of whitespace and comments to pass over at the start of `w`.
pub open spec fn skip_len(w: Seq<u8>) -> nat
    decreases w.len(),
{
    let n = leading_garbage(w);
    if n == 0 {
        0
    } else {
        n + skip_len(w.subrange(n as int, w.len() as int))
    }
}

// ---------------------------------------------------------------- expressions

/// The brace depth after byte `b`, given the depth before it.
pub open spec fn brace_step(count: int, b: u8) -> int {
    if b == 0x7b {
        count + 1
    } else if b == 0x7d {
        count - 1
    } else {
        count
    }
}

/// The first index at or after `i` at which the brace depth returns to 0,
/// where `count` is the depth before index `i`.
pub open spec fn brace_close(w: Seq<u8>, i: int, count: int) -> Option<int>
    decreases w.len() - i,
{
    if i < 0 || i >= w.len() {
        None
    } else if brace_step(count, w[i]) == 0 {
        Some(i)
    } else {
        brace_close(w, i + 1, brace_step(count, w[i]))
    }
}

/// The expression at the start of `w`: the text between a `{` and the `}` that balances it.
pub open spec fn expression_at(w: Seq<u8>, path: Seq<char>, base: nat, depth: nat) -> Result<ExpressionView, ErrorView> {
    if w.len() == 0 || w[0] != 0x7b {
        Err(build_err(BuildErrorView::NotAnExpression))
    } else {
        match brace_close(w, 0, 0) {
            Some(close) => Ok(
                ExpressionView {
                    body: utf8_lossy(w.subrange(1, close)),
                    origin: origin_at(path, base as int, depth, close + 1),
                },
            ),
            None => Err(build_err(BuildErrorView::BracketMismatch)),
        }
    }
}

// ---------------------------------------------------------------- hexadecimal digits

/// The value of a hexadecimal digit, if `b` is one.
pub open spec fn hex_value(b: u8) -> Option<u8> {
    if 0x30 <= b <= 0x39 {
        Some((b - 0x30) as u8)
    } else if 0x61 <= b <= 0x66 {
        Some((b - 0x61 + 10) as u8)
    } else if 0x41 <= b <= 0x46 {
        Some((b - 0x41 + 10) as u8)
    } else {
        None
    }
}

/// The values of the hexadecimal digits among `s`, in order.
pub open spec fn hex_digits(s: Seq<u8>) -> Seq<u8>
    decreases s.len(),
{
    if s.len() == 0 {
        Seq::empty()
    } else {
        match hex_value(s.last()) {
            Some(v) => hex_digits(s.drop_last()).push(v),
            None => hex_digits(s.drop_last()),
        }
    }
}

/// Half-bytes joined pairwise, high half first; a last one without partner is dropped.
pub open spec fn pair_bytes(digits: Seq<u8>) -> Seq<u8> {
    Seq::new(digits.len() / 2, |k: int| (digits[2 * k] * 16 + digits[2 * k + 1]) as u8)
}

/// The bytes that the hexadecimal digits among `s` spell.
pub open spec fn hex_bytes(s: Seq<u8>) -> Seq<u8> {
    pair_bytes(hex_digits(s))
}

/// Every entry of `hex_digits` is a half-byte.
pub proof fn lemma_hex_digits_small(s: Seq<u8>)
    ensures
        forall|i: int| 0 <= i < hex_digits(s).len() ==> #[trigger] hex_digits(s)[i] < 16,
        hex_digits(s).len() <= s.len(),
    decreases s.len(),
{
    if s.len() > 0 {
        lemma_hex_digits_small(s.drop_last());
    }
}

// ---------------------------------------------------------------- literals

/// The bytes that open and close a string literal: `"`, `'` and the backtick.
pub open spec fn is_quote(b: u8) -> bool {
    b == 0x22 || b == 0x27 || b == 0x60
}

/// The first index at or after `i` that holds a quote.
pub open spec fn first_quote(w: Seq<u8>, i: int) -> Option<int>
    decreases w.len() - i,
{
    if i < 0 || i >= w.len() {
        None
    } else if is_quote(w[i]) {
        Some(i)
    } else {
        first_quote(w, i + 1)
    }
}

/// The first index at or after `i` that holds the byte `b`.
pub open spec fn first_byte(s: Seq<u8>, b: u8, i: int) -> Option<int>
    decreases s.len() - i,
{
    if i < 0 || i >= s.len() {
        None
    } else if s[i] == b {
        Some(i)
    } else {
        first_byte(s, b, i + 1)
    }
}

/// What stands before the opening quote of a literal.
pub struct Modifier {
    /// `r`: the body is taken verbatim.
    pub raw: bool,
    /// `b`: the literal is a byte string.
    pub bytes: bool,
    /// Number of `#` between the letters and the quote.
    pub fence: nat,
}

/// The modifier that the groups of a match of the modifier pattern in `m`
/// stand for: group 1 holds the letters, group 2 the hash fence.
pub open spec fn modifier_from(m: Seq<u8>, groups: Seq<Option<Span>>) -> Option<Modifier> {
    match (group(groups, 1, m.len()), group(groups, 2, m.len())) {
        (Some(letters), Some(hash)) => Some(
            Modifier {
                raw: m.subrange(letters.0, letters.1).contains(0x72),
                bytes: m.subrange(letters.0, letters.1).contains(0x62),
                fence: (hash.1 - hash.0) as nat,
            },
        ),
        _ => None,
    }
}

/// The modifier that `m` spells, where `m` runs up to and including the
/// opening quote; `None` if `m` is no legal way to open a literal.
pub open spec fn modifier_of(m: Seq<u8>) -> Option<Modifier> {
    match regex_captures_at(LEGAL_STRING_MODIFIER@, m, 0) {
        None => None,
        Some(groups) => modifier_from(m, groups),
    }
}

/// Whether a raw literal ends at index `t` of `rest`: the quote, followed by
/// as many `#` as the opening fence has.
pub open spec fn is_terminator(rest: Seq<u8>, t: int, quote: u8, fence: nat) -> bool {
    &&& 0 <= t
    &&& t + 1 + fence <= rest.len()
    &&& rest[t] == quote
    &&& forall|k: int| t < k <= t + fence ==> rest[k] == 0x23
}

/// The first index at or after `i` at which a raw literal ends.
pub open spec fn raw_end(rest: Seq<u8>, quote: u8, fence: nat, i: int) -> Option<int>
    decreases rest.len() - i,
{
    if i < 0 || i >= rest.len() {
        None
    } else if is_terminator(rest, i, quote, fence) {
        Some(i)
    } else {
        raw_end(rest, quote, fence, i + 1)
    }
}

/// The end of the run of hexadecimal digits that starts at `i`.
pub open spec fn hex_run_end(s: Seq<u8>, i: int) -> int
    decreases s.len() - i,
{
    if i < 0 || i >= s.len() || hex_value(s[i]) is None {
        i
    } else {
        hex_run_end(s, i + 1)
    }
}

/// The number that half-bytes spell, most significant first.
pub open spec fn digits_value(digits: Seq<u8>) -> nat
    decreases digits.len(),
{
    if digits.len() == 0 {
        0
    } else {
        digits_value(digits.drop_last()) * 16 + digits.last() as nat
    }
}

/// The code point that the text of a `\u{..}` escape names: its hexadecimal
/// digits, of which the first eight count.
pub open spec fn code_point(text: Seq<u8>) -> nat {
    let digits = hex_digits(text);
    if digits.len() > 8 {
        digits_value(digits.subrange(0, 8))
    } else {
        digits_value(digits)
    }
}

/// Whether `v` is a Unicode scalar value.
pub open spec fn is_scalar_value(v: nat) -> bool {
    v <= 0x10FFFF && !(0xD800 <= v <= 0xDFFF)
}

/// Decodes the body of an escaped literal from index `i` of `rest` on, where
/// `body` is what has been decoded so far. Yields the decoded bytes and the
/// index just behind the closing quote.
///
/// A backslash escapes the byte behind it: `t`, `n`, `r` and `0` stand for
/// tab, line feed, carriage return and the zero byte; `b` takes the last
/// decoded byte away; `x`, in a byte string only, stands for the bytes that
/// the run of hexadecimal digits behind it spells; `u`, in a text literal
/// only, runs up to the next `}` and stands for the UTF-8 encoding of the
/// code point that the digits behind its first byte name; any other byte
/// stands for itself. The input ending before the closing quote is an error.
pub open spec fn decode_from(rest: Seq<u8>, quote: u8, bytes: bool, i: int, body: Seq<u8>) -> Result<(Seq<u8>, int), BuildErrorView>
    decreases rest.len() - i,
{
    if i < 0 || i >= rest.len() {
        Err(BuildErrorView::UnexpectedEOF)
    } else if rest[i] == 0x5c {
        if i + 1 >= rest.len() {
            Err(BuildErrorView::UnexpectedEOF)
        } else {
            let c = rest[i + 1];
            if c == 0x74 {
                decode_from(rest, quote, bytes, i + 2, body.push(0x09))
            } else if c == 0x6e {
                decode_from(rest, quote, bytes, i + 2, body.push(0x0a))
            } else if c == 0x72 {
                decode_from(rest, quote, bytes, i + 2, body.push(0x0d))
            } else if c == 0x30 {
                decode_from(rest, quote, bytes, i + 2, body.push(0x00))
            } else if c == 0x62 {
                decode_from(rest, quote, bytes, i + 2, if body.len() > 0 { body.drop_last() } else { body })
            } else if c == 0x78 {
                if bytes {
                    let end = hex_run_end(rest, i + 2);
                    if end < i + 2 || end > rest.len() {
                        Err(BuildErrorView::UnexpectedEOF)
                    } else {
                        decode_from(rest, quote, bytes, end, body + hex_bytes(rest.subrange(i + 2, end)))
                    }
                } else {
                    Err(BuildErrorView::ByteStringNotSupported)
                }
            } else if c == 0x75 && !bytes {
                match first_byte(rest, 0x7d, i + 2) {
                    None => Err(BuildErrorView::UnexpectedEOF),
                    Some(close) => {
                        let text = if i + 2 < close <= rest.len() { rest.subrange(i + 3, close) } else { Seq::empty() };
                        if close < i + 2 || close >= rest.len() {
                            Err(BuildErrorView::UnexpectedEOF)
                        } else if is_scalar_value(code_point(text)) {
                            decode_from(rest, quote, bytes, close + 1, body + vstd::utf8::encode_scalar(code_point(text) as u32))
                        } else {
                            Err(BuildErrorView::InvalidCharacterCode(utf8_lossy(text)))
                        }
                    },
                }
            } else {
                decode_from(rest, quote, bytes, i + 2, body.push(c))
            }
        }
    } else if rest[i] == quote {
        Ok((body, i + 1))
    } else {
        decode_from(rest, quote, bytes, i + 1, body.push(rest[i]))
    }
}

/// The string literal at the start of `w`.
pub open spec fn literal_at(w: Seq<u8>, path: Seq<char>, base: nat, depth: nat) -> Result<LiteralView, ErrorView> {
    match first_quote(w, 0) {
        None => Err(build_err(BuildErrorView::NotALiteral)),
        Some(q) => match modifier_of(w.subrange(0, q + 1)) {
            None => Err(build_err(BuildErrorView::NotALiteral)),
            Some(m) => {
                let rest = w.subrange(q + 1, w.len() as int);
                if m.raw {
                    match raw_end(rest, w[q], m.fence, 0) {
                        Some(t) => Ok(
                            LiteralView {
                                body: rest.subrange(0, t),
                                origin: origin_at(path, base as int, depth, q + 1 + t + 1 + m.fence),
                                is_byte_string: m.bytes,
                            },
                        ),
                        None => Err(build_err(BuildErrorView::InvalidSyntax(utf8_lossy(rest)))),
                    }
                } else if m.fence > 0 {
                    Err(build_err(BuildErrorView::NotALiteral))
                } else {
                    match decode_from(rest, w[q], m.bytes, 0, Seq::empty()) {
                        Ok((body, used)) => Ok(
                            LiteralView {
                                body,
                                origin: origin_at(path, base as int, depth, q + 1 + used),
                                is_byte_string: m.bytes,
                            },
                        ),
                        Err(e) => Err(build_err(e)),
                    }
                }
            },
        },
    }
}

// ---------------------------------------------------------------- elements

/// A quoted value without its quotes.
pub open spec fn unquoted(s: Seq<u8>) -> Seq<u8> {
    if s.len() >= 2 {
        s.subrange(1, s.len() - 1)
    } else {
        Seq::empty()
    }
}

/// The attribute that one match of the attribute pattern in `text` stands
/// for, if it has a quoted value; `base` is the offset of `text` in the file.
pub open spec fn attribute_of(text: Seq<u8>, groups: Seq<Option<Span>>, path: Seq<char>, base: nat, depth: nat) -> Option<AttributeView> {
    let value = match group(groups, 2, text.len()) {
        Some(v) => Some(v),
        None => group(groups, 3, text.len()),
    };
    match (value, group(groups, 1, text.len()), group(groups, 0, text.len())) {
        (Some(v), Some(n), Some(whole)) => Some(
            AttributeView {
                name: utf8_lossy(text.subrange(n.0, n.1)),
                value: utf8_lossy(unquoted(text.subrange(v.0, v.1))),
                origin: origin_at(path, base + whole.0, depth, whole.1 - whole.0),
            },
        ),
        _ => None,
    }
}

/// The attributes that a list of matches of the attribute pattern stands for, in order.
pub open spec fn attributes_from(text: Seq<u8>, matches: Seq<Seq<Option<Span>>>, path: Seq<char>, base: nat, depth: nat) -> Seq<AttributeView>
    decreases matches.len(),
{
    if matches.len() == 0 {
        Seq::empty()
    } else {
        let before = attributes_from(text, matches.drop_last(), path, base, depth);
        match attribute_of(text, matches.last(), path, base, depth) {
            Some(attribute) => before.push(attribute),
            None => before,
        }
    }
}

/// The attributes written out in the attribute region `text` of a tag.
pub open spec fn explicit_attributes(text: Seq<u8>, path: Seq<char>, base: nat, depth: nat) -> Seq<AttributeView> {
    attributes_from(text, regex_captures_iter(ATTRIBUTE@, text), path, base, depth)
}

/// The class tokens of `s`, joined by single spaces, together with whether a
/// dot has been passed since the last token. A dot ends a token; what stands
/// between dots is a token unless it is empty.
pub open spec fn joined_classes(s: Seq<u8>) -> (Seq<u8>, bool)
    decreases s.len(),
{
    if s.len() == 0 {
        (Seq::empty(), true)
    } else {
        let (out, fresh) = joined_classes(s.drop_last());
        if s.last() == 0x2e {
            (out, true)
        } else if fresh && out.len() > 0 {
            (out.push(0x20).push(s.last()), false)
        } else {
            (out.push(s.last()), false)
        }
    }
}

/// The synthetic attributes that the groups of a match of the selector
/// pattern in `sel` stand for: a `class` attribute if `sel` names a class,
/// then an `id` attribute if it names an id. Group 2 holds the id with its
/// `#`; what stands before and behind it holds the classes.
pub open spec fn selector_from(sel: Seq<u8>, groups: Seq<Option<Span>>, path: Seq<char>, base: nat, depth: nat) -> Seq<AttributeView> {
    let id = group(groups, 2, sel.len());
    let dotted = match id {
        Some(i) => sel.subrange(0, i.0) + seq![0x2eu8] + sel.subrange(i.1, sel.len() as int),
        None => sel,
    };
    let class_value = joined_classes(dotted).0;
    let class = if class_value.len() > 0 {
        seq![
            AttributeView {
                name: "class"@,
                value: utf8_lossy(class_value),
                origin: origin_at(path, base as int, depth, sel.len() as int),
            },
        ]
    } else {
        Seq::empty()
    };
    let named = match id {
        Some(i) => seq![
            AttributeView {
                name: "id"@,
                value: utf8_lossy(if i.0 < i.1 { sel.subrange(i.0 + 1, i.1) } else { Seq::empty() }),
                origin: origin_at(path, base + i.0, depth, i.1 - i.0),
            },
        ],
        None => Seq::empty(),
    };
    class + named
}

/// The synthetic attributes that the selector shorthand `sel` stands for;
/// `None` if `sel` is no selector shorthand.
pub open spec fn selector_attributes(sel: Seq<u8>, path: Seq<char>, base: nat, depth: nat) -> Option<Seq<AttributeView>> {
    match regex_captures_at(CSS_SELECTOR_SHORTHAND@, sel, 0) {
        None => None,
        Some(groups) => Some(selector_from(sel, groups, path, base, depth)),
    }
}

/// Whether the match `m` in `hay` is the start of a closing tag.
pub open spec fn is_closing(hay: Seq<u8>, m: Span) -> bool {
    &&& m.0 + 2 <= m.1 <= hay.len()
    &&& hay[m.0 as int] == 0x3c
    &&& hay[m.0 + 1] == 0x2f
}

/// The index in `matches` of the tag edge that closes the element: counting
/// from `count` open elements, an opening edge adds one and a closing edge
/// takes one away, and the first edge from `i` on that leaves none open is it.
pub open spec fn close_index(hay: Seq<u8>, matches: Seq<Span>, i: int, count: int) -> Option<int>
    decreases matches.len() - i,
{
    if i < 0 || i >= matches.len() {
        None
    } else {
        let next = if is_closing(hay, matches[i]) { count - 1 } else { count + 1 };
        if next <= 0 {
            Some(i)
        } else {
            close_index(hay, matches, i + 1, next)
        }
    }
}

/// The span in `hay` of the closing tag that matches an element whose opening
/// tag ends where `hay` begins; `edges` is the pattern of the element's own
/// opening and closing tags.
pub open spec fn closing_span(hay: Seq<u8>, edges: Seq<char>) -> Option<(int, int)> {
    let matches = regex_find_iter(edges, hay);
    match close_index(hay, matches, 0, 1) {
        None => None,
        Some(i) => if matches[i].0 <= hay.len() {
            match regex_captures_at(CLOSING@, hay, matches[i].0 as int) {
                Some(groups) => group(groups, 0, hay.len()),
                None => None,
            }
        } else {
            None
        },
    }
}

/// The pattern of the opening and closing tags of the element named `tag`.
pub open spec fn tag_edges(tag: Seq<u8>) -> Seq<char> {
    TAG_EDGE@ + utf8_lossy(tag)
}

/// What an opening tag and the search for its closing tag yield.
pub struct TagHeadView {
    /// The tag name, folded to lower case.
    pub name: Seq<char>,
    /// Explicit attributes, then the synthetic ones of the selector shorthand.
    pub attributes: Seq<AttributeView>,
    /// Length of the opening tag.
    pub open_end: int,
    /// Span of the closing tag, counted from the end of the opening tag;
    /// `None` for a self-closing tag.
    pub close: Option<(int, int)>,
}

/// The parts of an opening tag, as spans in the window.
pub struct TagSpans {
    /// Length of the opening tag.
    pub open_end: int,
    /// The tag name.
    pub tag: (int, int),
    /// The selector shorthand, if the match has one.
    pub selector: Option<(int, int)>,
    /// The attribute region, if the match has one.
    pub attributes: Option<(int, int)>,
}

/// The parts that the groups of a match of the opening-tag pattern in a
/// window of `len` bytes stand for: group 0 is the opening tag, which begins
/// the window and is not empty; group 1 the name, group 2 the selector
/// shorthand and group 3 the attribute region.
pub open spec fn tag_spans(groups: Seq<Option<Span>>, len: nat) -> Result<TagSpans, BuildErrorView> {
    match group(groups, 0, len) {
        None => Err(BuildErrorView::NotATag),
        Some(open) => if open.0 != 0 || open.1 == 0 {
            Err(BuildErrorView::NotATag)
        } else {
            match group(groups, 1, len) {
                None => Err(BuildErrorView::NoTagName),
                Some(tag) => Ok(
                    TagSpans {
                        open_end: open.1,
                        tag,
                        selector: group(groups, 2, len),
                        attributes: group(groups, 3, len),
                    },
                ),
            }
        },
    }
}

/// An opening tag: where its parts lie, and its attributes.
pub struct TagOpenView {
    pub spans: TagSpans,
    /// Explicit attributes, then the synthetic ones of the selector shorthand.
    pub attributes: Seq<AttributeView>,
}

/// The opening tag at the start of `w`.
pub open spec fn tag_open(w: Seq<u8>, path: Seq<char>, base: nat, depth: nat) -> Result<TagOpenView, ErrorView> {
    match regex_captures_at(COMBINED@, w, 0) {
        None => Err(build_err(BuildErrorView::NotATag)),
        Some(groups) => match tag_spans(groups, w.len()) {
            Err(e) => Err(build_err(e)),
            Ok(spans) => {
                let explicit = match spans.attributes {
                    Some(a) => explicit_attributes(w.subrange(a.0, a.1), path, (base + a.0) as nat, depth),
                    None => Seq::empty(),
                };
                let synthetic = match spans.selector {
                    Some(sel) => selector_attributes(w.subrange(sel.0, sel.1), path, (base + sel.0) as nat, depth),
                    None => None,
                };
                match synthetic {
                    None => Err(build_err(BuildErrorView::BadSelectorList)),
                    Some(synthetic) => Ok(TagOpenView { spans, attributes: explicit + synthetic }),
                }
            },
        },
    }
}

/// The span of the closing tag that matches the opening tag `spans` of `w`,
/// counted from the end of the opening tag.
pub open spec fn tag_close(w: Seq<u8>, spans: TagSpans) -> Result<(int, int), ErrorView> {
    let hay = w.subrange(spans.open_end, w.len() as int);
    let edges = tag_edges(w.subrange(spans.tag.0, spans.tag.1));
    if !regex_valid(edges) {
        Err(ErrorView::RegexError)
    } else {
        match closing_span(hay, edges) {
            None => Err(build_err(BuildErrorView::NoClosingTag)),
            Some(close) => Ok(close),
        }
    }
}

/// Whether an opening tag of `open_end` bytes at the start of `w` closes itself.
pub open spec fn closes_itself(w: Seq<u8>, open_end: int) -> bool {
    has_suffix(w.subrange(0, open_end), seq![0x2fu8, 0x3eu8])
}

/// The opening tag at the start of `w`, with the place of its closing tag.
pub open spec fn tag_head(w: Seq<u8>, path: Seq<char>, base: nat, depth: nat) -> Result<TagHeadView, ErrorView> {
    match tag_open(w, path, base, depth) {
        Err(e) => Err(e),
        Ok(open) => {
            let name = utf8_lossy(lower_ascii(w.subrange(open.spans.tag.0, open.spans.tag.1)));
            if closes_itself(w, open.spans.open_end) {
                Ok(TagHeadView { name, attributes: open.attributes, open_end: open.spans.open_end, close: None })
            } else {
                match tag_close(w, open.spans) {
                    Err(e) => Err(e),
                    Ok(close) => Ok(
                        TagHeadView {
                            name,
                            attributes: open.attributes,
                            open_end: open.spans.open_end,
                            close: Some(close),
                        },
                    ),
                }
            }
        },
    }
}

/// Whether a tag head lies inside a window of `len` bytes.
pub open spec fn head_within(head: TagHeadView, len: nat) -> bool {
    &&& 0 < head.open_end <= len
    &&& head.close matches Some(close) ==> 0 <= close.0 <= close.1 && head.open_end + close.1 <= len
}

/// A tag head that was read from `w` lies inside `w`.
pub proof fn lemma_tag_head_within(w: Seq<u8>, path: Seq<char>, base: nat, depth: nat)
    ensures
        tag_head(w, path, base, depth) matches Ok(head) ==> head_within(head, w.len()),
{
}

/// The element at the start of `w`: its opening tag, and, unless that closes
/// itself, the nodes up to the matching closing tag as its body.
///
/// The definition refuses a head that does not lie inside the window; by
/// `lemma_tag_head_within` there is none.
pub open spec fn element_at(w: Seq<u8>, path: Seq<char>, base: nat, depth: nat) -> Result<ElementView, ErrorView>
    decreases w.len(), 0nat,
{
    match tag_head(w, path, base, depth) {
        Err(e) => Err(e),
        Ok(head) => match head.close {
            None => Ok(
                ElementView {
                    name: head.name,
                    attributes: head.attributes,
                    body: Seq::empty(),
                    origin: origin_at(path, base as int, depth, head.open_end),
                },
            ),
            Some(close) => if !head_within(head, w.len()) {
                Err(build_err(BuildErrorView::NoClosingTag))
            } else {
                match nodes(
                    w.subrange(head.open_end, head.open_end + close.0),
                    path,
                    (base + head.open_end) as nat,
                    depth + 1,
                ) {
                    Err(e) => Err(e),
                    Ok(body) => Ok(
                        ElementView {
                            name: head.name,
                            attributes: head.attributes,
                            body,
                            origin: origin_at(path, base as int, depth, head.open_end + close.1),
                        },
                    ),
                }
            },
        },
    }
}

// ---------------------------------------------------------------- scanning

/// The node at the start of `w`: an expression, else a literal, else an
/// element; `None` if `w` starts with none of them.
pub open spec fn node_at(w: Seq<u8>, path: Seq<char>, base: nat, depth: nat) -> Result<Option<BodyView>, ErrorView>
    decreases w.len(), 1nat,
{
    match expression_at(w, path, base, depth) {
        Ok(expression) => Ok(Some(BodyView::Expression(expression))),
        Err(e) => if e != build_err(BuildErrorView::NotAnExpression) {
            Err(e)
        } else {
            match literal_at(w, path, base, depth) {
                Ok(literal) => Ok(Some(BodyView::Literal(literal))),
                Err(e) => if e != build_err(BuildErrorView::NotALiteral) {
                    Err(e)
                } else {
                    match element_at(w, path, base, depth) {
                        Ok(element) => Ok(Some(BodyView::Element(element))),
                        Err(e) => if e != build_err(BuildErrorView::NotATag) {
                            Err(e)
                        } else {
                            Ok(None)
                        },
                    }
                },
            }
        },
    }
}

/// The nodes of `w` in document order: whitespace and comments are passed
/// over, then one node is read, until no node starts at the scan position.
///
/// The definition ends the list at a node whose token is empty or reaches
/// past the window, and after a skip that leaves the window. Neither occurs:
/// see `lemma_node_within` and `lemma_skip_is_idempotent`.
pub open spec fn nodes(w: Seq<u8>, path: Seq<char>, base: nat, depth: nat) -> Result<Seq<BodyView>, ErrorView>
    decreases w.len(), 2nat,
{
    let skip = skip_len(w);
    if skip > w.len() {
        Ok(Seq::empty())
    } else {
        let rest = w.subrange(skip as int, w.len() as int);
        match node_at(rest, path, base + skip, depth) {
            Err(e) => Err(e),
            Ok(None) => Ok(Seq::empty()),
            Ok(Some(node)) => {
                let used = origin_of(node).token_length;
                if used == 0 || used > rest.len() {
                    Ok(seq![node])
                } else {
                    match nodes(rest.subrange(used as int, rest.len() as int), path, base + skip + used, depth) {
                        Err(e) => Err(e),
                        Ok(more) => Ok(seq![node] + more),
                    }
                }
            },
        }
    }
}

/// `first` followed by the nodes of `rest`, or the error of `rest`.
pub open spec fn prepend(first: Seq<BodyView>, rest: Result<Seq<BodyView>, ErrorView>) -> Result<Seq<BodyView>, ErrorView> {
    match rest {
        Ok(more) => Ok(first + more),
        Err(e) => Err(e),
    }
}

/// The tree of the window `w`: a `fragment` element at depth 0 that carries
/// the file's path as its `origin` attribute and the window's nodes, at depth
/// 1, as its body.
pub open spec fn root_at(w: Seq<u8>, path: Seq<char>, base: nat) -> Result<ElementView, ErrorView> {
    match nodes(w, path, base, 1) {
        Err(e) => Err(e),
        Ok(body) => Ok(
            ElementView {
                name: "fragment"@,
                attributes: seq![
                    AttributeView {
                        name: "origin"@,
                        value: path,
                        origin: origin_at(path, 0, 0, w.len() as int),
                    },
                ],
                body,
                origin: origin_at(path, 0, 0, w.len() as int),
            },
        ),
    }
}

/// The tree of a whole source file.
pub open spec fn document(src: Seq<u8>, path: Seq<char>) -> Result<ElementView, ErrorView> {
    root_at(src, path, 0)
}

} // verus!
