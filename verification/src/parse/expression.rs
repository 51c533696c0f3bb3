//! Script expressions: balanced-brace extraction, and hexadecimal digits.

use vstd::prelude::*;
use crate::error::BuildError;
use crate::error::SiteError;
use crate::parse::grammar::brace_close;
use crate::parse::grammar::expression_at;
use crate::parse::grammar::hex_bytes;
use crate::parse::grammar::hex_digits;
use crate::parse::grammar::lemma_hex_digits_small;
use crate::parse::grammar::pair_bytes;
use crate::parse::tree::Expression;
use crate::parse::tree::Origin;
use crate::text::text_range;

verus! {

/// Parses the expression at the start of the window `w` of a file `path`,
/// where the window begins at offset `base`.
pub fn parse_expression(w: &[u8], path: &str, base: usize, depth: usize) -> (res: Result<Expression, SiteError>)
    ensures
        res matches Ok(e) ==> expression_at(w@, path@, base as nat, depth as nat) == Ok::<_, crate::error::ErrorView>(e@)
            && 0 < e.origin.token_length <= w@.len(),
        res matches Err(e) ==> expression_at(w@, path@, base as nat, depth as nat) == Err::<crate::parse::tree::ExpressionView, _>(e@),
{
    if w.len() == 0 || w[0] != 0x7b {
        return Err(SiteError::BuildError(BuildError::NotAnExpression));
    }
    let mut count: usize = 0;
    let mut i: usize = 0;
    while i < w.len()
        invariant
            i <= w@.len(),
            count <= i,
            i > 0 ==> count > 0,
            brace_close(w@, 0, 0) == brace_close(w@, i as int, count as int),
            w@.len() > 0 && w@[0] == 0x7b,
        decreases w@.len() - i,
    {
        let b: u8 = w[i];
        if b == 0x7b {
            count = count + 1;
        } else if b == 0x7d {
            count = count - 1;
        }
        if count == 0 {
            let body = text_range(w, 1, i);
            return Ok(
                Expression {
                    body,
                    origin: Origin { source: path.to_owned(), offset: base, depth, token_length: i + 1 },
                },
            );
        }
        i = i + 1;
    }
    Err(SiteError::BuildError(BuildError::BracketMismatch))
}

/// The values of the hexadecimal digits among `s`, in order.
pub fn hex_digit_values(s: &[u8]) -> (res: Vec<u8>)
    ensures
        res@ == hex_digits(s@),
        forall|i: int| 0 <= i < res@.len() ==> res@[i] < 16,
{
    let mut digits: Vec<u8> = Vec::new();
    let mut i: usize = 0;
    while i < s.len()
        invariant
            i <= s@.len(),
            digits@ == hex_digits(s@.subrange(0, i as int)),
        decreases s@.len() - i,
    {
        let b: u8 = s[i];
        proof {
            assert(s@.subrange(0, i + 1).drop_last() =~= s@.subrange(0, i as int));
        }
        if b >= 0x30 && b <= 0x39 {
            digits.push(b - 0x30);
        } else if b >= 0x61 && b <= 0x66 {
            digits.push(b - 0x61 + 10);
        } else if b >= 0x41 && b <= 0x46 {
            digits.push(b - 0x41 + 10);
        }
        i = i + 1;
    }
    proof {
        assert(s@.subrange(0, i as int) =~= s@);
        lemma_hex_digits_small(s@);
    }
    digits
}

/// Decodes hexadecimal digits pairwise into bytes, the first digit of a pair
/// being the high half. Bytes that are no hexadecimal digit are passed over,
/// and a last digit without a partner is dropped.
pub fn parse_hex(hex_asm: &[u8]) -> (res: Vec<u8>)
    ensures
        res@ == hex_bytes(hex_asm@),
{
    let digits = hex_digit_values(hex_asm);
    pair_up(&digits)
}

/// Joins half-bytes pairwise into bytes.
pub fn pair_up(digits: &Vec<u8>) -> (res: Vec<u8>)
    requires
        forall|i: int| 0 <= i < digits@.len() ==> digits@[i] < 16,
    ensures
        res@ == pair_bytes(digits@),
{
    let mut out: Vec<u8> = Vec::new();
    let mut k: usize = 0;
    let pairs: usize = digits.len() / 2;
    while k < pairs
        invariant
            pairs == digits@.len() / 2,
            2 * pairs <= digits@.len() <= usize::MAX,
            k <= pairs,
            out@.len() == k,
            forall|j: int| 0 <= j < k ==> out@[j] == pair_bytes(digits@)[j],
            forall|i: int| 0 <= i < digits@.len() ==> digits@[i] < 16,
        decreases pairs - k,
    {
        let high: u8 = digits[2 * k];
        let low: u8 = digits[2 * k + 1];
        out.push(high * 16 + low);
        k = k + 1;
    }
    assert(out@ =~= pair_bytes(digits@));
    out
}

} // verus!
