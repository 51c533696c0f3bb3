//! String literals: modifiers, raw bodies and escape sequences.

use vstd::prelude::*;
use vstd::slice::slice_subrange;
use crate::error::BuildError;
use crate::error::BuildErrorView;
use crate::error::ErrorView;
use crate::error::SiteError;
use crate::parse::expression::hex_digit_values;
use crate::parse::expression::parse_hex;
use crate::parse::grammar::code_point;
use crate::parse::grammar::decode_from;
use crate::parse::grammar::digits_value;
use crate::parse::grammar::first_byte;
use crate::parse::grammar::first_quote;
use crate::parse::grammar::group;
use crate::parse::grammar::hex_run_end;
use crate::parse::grammar::is_quote;
use crate::parse::grammar::is_terminator;
use crate::parse::grammar::literal_at;
use crate::parse::grammar::modifier_from;
use crate::parse::grammar::modifier_of;
use crate::parse::grammar::raw_end;
use crate::parse::grammar::Modifier;
use crate::parse::grammar::LEGAL_STRING_MODIFIER;
use crate::parse::tree::Literal;
use crate::parse::tree::LiteralView;
use crate::parse::tree::Origin;
use crate::pattern::captures_at;
use crate::pattern::Groups;
use crate::pattern::Pattern;
use crate::text::text_of;

verus! {

/// Group `i` of a match, as [`group`] defines it.
pub fn group_span(groups: &Groups, i: usize, len: usize) -> (res: Option<(usize, usize)>)
    ensures
        res matches Some(span) ==> group(groups@, i as int, len as nat) == Some((span.0 as int, span.1 as int)),
        res is None ==> group(groups@, i as int, len as nat) is None,
{
    if i < groups.len() {
        match groups[i] {
            Some(span) => {
                if span.0 <= span.1 && span.1 <= len {
                    Some(span)
                } else {
                    None
                }
            },
            None => None,
        }
    } else {
        None
    }
}

/// Whether the byte `b` occurs in `s` from `start` up to `end`.
pub fn contains_byte(s: &[u8], start: usize, end: usize, b: u8) -> (res: bool)
    requires
        start <= end <= s@.len(),
    ensures
        res == s@.subrange(start as int, end as int).contains(b),
{
    let mut i: usize = start;
    while i < end
        invariant
            start <= i <= end <= s@.len(),
            forall|k: int| start <= k < i ==> s@[k] != b,
        decreases end - i,
    {
        if s[i] == b {
            assert(s@.subrange(start as int, end as int)[i - start] == b);
            return true;
        }
        i = i + 1;
    }
    false
}

/// The first index of `s` at or after `from` that holds `b`.
pub fn find_byte(s: &[u8], b: u8, from: usize) -> (res: Option<usize>)
    ensures
        res matches Some(j) ==> first_byte(s@, b, from as int) == Some(j as int) && from <= j < s@.len(),
        res is None ==> first_byte(s@, b, from as int) is None,
{
    let mut i: usize = from;
    while i < s.len()
        invariant
            from <= i,
            first_byte(s@, b, from as int) == first_byte(s@, b, i as int),
        decreases s@.len() - i,
    {
        if s[i] == b {
            return Some(i);
        }
        i = i + 1;
    }
    None
}

/// The first index of `w` that holds a quote.
pub fn find_quote(w: &[u8]) -> (res: Option<usize>)
    ensures
        res matches Some(j) ==> first_quote(w@, 0) == Some(j as int) && j < w@.len() && is_quote(w@[j as int]),
        res is None ==> first_quote(w@, 0) is None,
{
    let mut i: usize = 0;
    while i < w.len()
        invariant
            first_quote(w@, 0) == first_quote(w@, i as int),
        decreases w@.len() - i,
    {
        let b: u8 = w[i];
        if b == 0x22 || b == 0x27 || b == 0x60 {
            return Some(i);
        }
        i = i + 1;
    }
    None
}

/// The modifier that the groups of a match of the modifier pattern in `m`
/// stand for: whether the literal is raw, whether it is a byte string, and
/// the length of its hash fence.
pub fn modifier_from_groups(m: &[u8], groups: &Groups) -> (res: Option<(bool, bool, usize)>)
    ensures
        res matches Some(found) ==> modifier_from(m@, groups@) == Some(
            (Modifier { raw: found.0, bytes: found.1, fence: found.2 as nat }),
        ) && found.2 <= m@.len(),
        res is None ==> modifier_from(m@, groups@) is None,
{
    let letters = group_span(groups, 1, m.len());
    let hash = group_span(groups, 2, m.len());
    match (letters, hash) {
        (Some(letters), Some(hash)) => {
            let raw = contains_byte(m, letters.0, letters.1, 0x72);
            let bytes = contains_byte(m, letters.0, letters.1, 0x62);
            Some((raw, bytes, hash.1 - hash.0))
        },
        _ => None,
    }
}

/// Reads what stands before the opening quote of a literal, where `m` runs
/// up to and including the quote.
pub fn read_modifier(pattern: &Pattern, m: &[u8]) -> (res: Option<(bool, bool, usize)>)
    requires
        pattern@ == LEGAL_STRING_MODIFIER@,
    ensures
        res matches Some(found) ==> modifier_of(m@) == Some(
            (Modifier { raw: found.0, bytes: found.1, fence: found.2 as nat }),
        ) && found.2 <= m@.len(),
        res is None ==> modifier_of(m@) is None,
{
    match captures_at(pattern, m, 0) {
        None => None,
        Some(groups) => modifier_from_groups(m, &groups),
    }
}

/// Whether a raw literal ends at index `t` of `rest`.
pub fn terminates_at(rest: &[u8], t: usize, quote: u8, fence: usize) -> (res: bool)
    requires
        t < rest@.len(),
    ensures
        res == is_terminator(rest@, t as int, quote, fence as nat),
{
    if rest.len() - t <= fence || rest[t] != quote {
        return false;
    }
    let mut k: usize = 0;
    while k < fence
        invariant
            k <= fence,
            t + 1 + fence <= rest@.len() <= usize::MAX,
            forall|j: int| t < j <= t + k ==> rest@[j] == 0x23,
        decreases fence - k,
    {
        if rest[t + 1 + k] != 0x23 {
            return false;
        }
        k = k + 1;
    }
    true
}

/// The first index of `rest` at which a raw literal with this quote and
/// fence ends.
pub fn find_raw_end(rest: &[u8], quote: u8, fence: usize) -> (res: Option<usize>)
    ensures
        res matches Some(t) ==> raw_end(rest@, quote, fence as nat, 0) == Some(t as int) && t + 1 + fence <= rest@.len(),
        res is None ==> raw_end(rest@, quote, fence as nat, 0) is None,
{
    let mut i: usize = 0;
    while i < rest.len()
        invariant
            raw_end(rest@, quote, fence as nat, 0) == raw_end(rest@, quote, fence as nat, i as int),
        decreases rest@.len() - i,
    {
        if terminates_at(rest, i, quote, fence) {
            return Some(i);
        }
        i = i + 1;
    }
    None
}

/// The end of the run of hexadecimal digits that starts at `from`.
pub fn hex_run(s: &[u8], from: usize) -> (res: usize)
    requires
        from <= s@.len(),
    ensures
        res == hex_run_end(s@, from as int),
        from <= res <= s@.len(),
{
    let mut i: usize = from;
    while i < s.len()
        invariant
            from <= i <= s@.len(),
            hex_run_end(s@, from as int) == hex_run_end(s@, i as int),
        decreases s@.len() - i,
    {
        let b: u8 = s[i];
        let is_hex = (b >= 0x30 && b <= 0x39) || (b >= 0x61 && b <= 0x66) || (b >= 0x41 && b <= 0x46);
        if !is_hex {
            return i;
        }
        i = i + 1;
    }
    i
}

/// 16 to the power `k`.
pub open spec fn pow16(k: nat) -> nat
    decreases k,
{
    if k == 0 {
        1
    } else {
        16 * pow16((k - 1) as nat)
    }
}

/// The code point that the text of a `\u{..}` escape names.
pub fn code_point_of(text: &[u8]) -> (res: u64)
    ensures
        res == code_point(text@),
        res <= 0xFFFF_FFFF,
{
    let digits = hex_digit_values(text);
    let n: usize = if digits.len() > 8 { 8 } else { digits.len() };
    let ghost used: Seq<u8> = if digits@.len() > 8 { digits@.subrange(0, 8) } else { digits@ };
    let mut v: u64 = 0;
    let mut k: usize = 0;
    proof {
        reveal_with_fuel(pow16, 10);
    }
    while k < n
        invariant
            k <= n <= 8,
            n == used.len(),
            n <= digits@.len(),
            forall|i: int| 0 <= i < n ==> used[i] == digits@[i],
            forall|i: int| 0 <= i < digits@.len() ==> digits@[i] < 16,
            v == digits_value(used.subrange(0, k as int)),
            v < pow16(k as nat),
            pow16(8) == 0x1_0000_0000,
        decreases n - k,
    {
        proof {
            reveal_with_fuel(pow16, 10);
            assert(used.subrange(0, k + 1).drop_last() =~= used.subrange(0, k as int));
            assert(pow16(k as nat) <= 0x1000_0000) by {
                assert(k == 0 || k == 1 || k == 2 || k == 3 || k == 4 || k == 5 || k == 6 || k == 7);
            }
        }
        v = v * 16 + digits[k] as u64;
        k = k + 1;
    }
    proof {
        reveal_with_fuel(pow16, 10);
        assert(used.subrange(0, k as int) =~= used);
        assert(pow16(k as nat) <= 0x1_0000_0000) by {
            assert(k == 0 || k == 1 || k == 2 || k == 3 || k == 4 || k == 5 || k == 6 || k == 7 || k == 8);
        }
    }
    v
}

/// The UTF-8 encoding of a Unicode scalar value.
pub fn encode_code_point(v: u32) -> (res: Vec<u8>)
    requires
        vstd::utf8::is_scalar(v),
    ensures
        res@ == vstd::utf8::encode_scalar(v),
{
    let mut out: Vec<u8> = Vec::new();
    proof {
        assert((v & 0x7F) < 256) by (bit_vector);
        assert(((v >> 6) & 0x1F) < 256) by (bit_vector);
        assert(((v >> 12) & 0x0F) < 256) by (bit_vector);
        assert(((v >> 18) & 0x7) < 256) by (bit_vector);
        assert((v & 0x3F) < 256) by (bit_vector);
        assert(((v >> 6) & 0x3F) < 256) by (bit_vector);
        assert(((v >> 12) & 0x3F) < 256) by (bit_vector);
    }
    if v <= 0x7F {
        out.push((v & 0x7F) as u8);
    } else if v <= 0x7FF {
        out.push(0xC0 | ((v >> 6) & 0x1F) as u8);
        out.push(0x80 | (v & 0x3F) as u8);
    } else if v <= 0xFFFF {
        out.push(0xE0 | ((v >> 12) & 0x0F) as u8);
        out.push(0x80 | ((v >> 6) & 0x3F) as u8);
        out.push(0x80 | (v & 0x3F) as u8);
    } else {
        out.push(0xF0 | ((v >> 18) & 0x7) as u8);
        out.push(0x80 | ((v >> 12) & 0x3F) as u8);
        out.push(0x80 | ((v >> 6) & 0x3F) as u8);
        out.push(0x80 | (v & 0x3F) as u8);
    }
    assert(out@ =~= vstd::utf8::encode_scalar(v));
    out
}

/// Decodes the body of an escaped literal, which `rest` holds from its first
/// byte on. Yields the decoded bytes and the number of bytes of `rest` that
/// the body and its closing quote take.
pub fn decode_escaped(rest: &[u8], quote: u8, bytes: bool) -> (res: Result<(Vec<u8>, usize), BuildError>)
    ensures
        res matches Ok(found) ==> decode_from(rest@, quote, bytes, 0, Seq::empty()) == Ok::<(Seq<u8>, int), BuildErrorView>(
            (found.0@, found.1 as int),
        ) && 0 < found.1 <= rest@.len(),
        res matches Err(e) ==> decode_from(rest@, quote, bytes, 0, Seq::empty()) == Err::<(Seq<u8>, int), BuildErrorView>(e@),
{
    let mut body: Vec<u8> = Vec::new();
    let mut i: usize = 0;
    loop
        invariant
            i <= rest@.len(),
            decode_from(rest@, quote, bytes, 0, Seq::empty()) == decode_from(rest@, quote, bytes, i as int, body@),
        decreases rest@.len() - i,
    {
        if i >= rest.len() {
            return Err(BuildError::UnexpectedEOF);
        }
        let b: u8 = rest[i];
        if b == 0x5c {
            if rest.len() - i <= 1 {
                return Err(BuildError::UnexpectedEOF);
            }
            let c: u8 = rest[i + 1];
            if c == 0x74 {
                body.push(0x09);
                i = i + 2;
            } else if c == 0x6e {
                body.push(0x0a);
                i = i + 2;
            } else if c == 0x72 {
                body.push(0x0d);
                i = i + 2;
            } else if c == 0x30 {
                body.push(0x00);
                i = i + 2;
            } else if c == 0x62 {
                body.pop();
                i = i + 2;
            } else if c == 0x78 {
                if !bytes {
                    return Err(BuildError::ByteStringNotSupported);
                }
                let end = hex_run(rest, i + 2);
                let mut decoded = parse_hex(slice_subrange(rest, i + 2, end));
                body.append(&mut decoded);
                i = end;
            } else if c == 0x75 && !bytes {
                match find_byte(rest, 0x7d, i + 2) {
                    None => {
                        return Err(BuildError::UnexpectedEOF);
                    },
                    Some(close) => {
                        let text = if close > i + 2 {
                            slice_subrange(rest, i + 3, close)
                        } else {
                            slice_subrange(rest, close, close)
                        };
                        assert(close == i + 2 ==> text@ =~= Seq::<u8>::empty());
                        let v = code_point_of(text);
                        if v <= 0x10FFFF && !(0xD800 <= v && v <= 0xDFFF) {
                            let mut encoded = encode_code_point(v as u32);
                            body.append(&mut encoded);
                            i = close + 1;
                        } else {
                            return Err(BuildError::InvalidCharacterCode(text_of(text)));
                        }
                    },
                }
            } else {
                body.push(c);
                i = i + 2;
            }
        } else if b == quote {
            return Ok((body, i + 1));
        } else {
            body.push(b);
            i = i + 1;
        }
    }
}

/// Parses the string literal at the start of the window `w` of the file
/// `path`, where the window begins at offset `base`.
pub fn parse_literal_at(w: &[u8], modifier: &Pattern, path: &str, base: usize, depth: usize) -> (res: Result<Literal, SiteError>)
    requires
        modifier@ == LEGAL_STRING_MODIFIER@,
    ensures
        res matches Ok(l) ==> literal_at(w@, path@, base as nat, depth as nat) == Ok::<LiteralView, ErrorView>(l@)
            && 0 < l.origin.token_length <= w@.len(),
        res matches Err(e) ==> literal_at(w@, path@, base as nat, depth as nat) == Err::<LiteralView, ErrorView>(e@),
{
    let len: usize = w.len();
    let q = match find_quote(w) {
        Some(q) => q,
        None => {
            return Err(SiteError::BuildError(BuildError::NotALiteral));
        },
    };
    let found = match read_modifier(modifier, slice_subrange(w, 0, q + 1)) {
        Some(found) => found,
        None => {
            return Err(SiteError::BuildError(BuildError::NotALiteral));
        },
    };
    let raw = found.0;
    let bytes = found.1;
    let fence = found.2;
    let quote: u8 = w[q];
    let rest = slice_subrange(w, q + 1, len);
    if raw {
        match find_raw_end(rest, quote, fence) {
            Some(t) => {
                let body = crate::text::copy_range(rest, 0, t);
                Ok(
                    Literal {
                        body,
                        origin: Origin {
                            source: path.to_owned(),
                            offset: base,
                            depth,
                            token_length: q + 1 + t + 1 + fence,
                        },
                        is_byte_string: bytes,
                    },
                )
            },
            None => Err(SiteError::BuildError(BuildError::InvalidSyntax(text_of(rest)))),
        }
    } else if fence > 0 {
        Err(SiteError::BuildError(BuildError::NotALiteral))
    } else {
        match decode_escaped(rest, quote, bytes) {
            Ok(found) => {
                let body = found.0;
                let used = found.1;
                Ok(
                    Literal {
                        body,
                        origin: Origin { source: path.to_owned(), offset: base, depth, token_length: q + 1 + used },
                        is_byte_string: bytes,
                    },
                )
            },
            Err(e) => Err(SiteError::BuildError(e)),
        }
    }
}

} // verus!
