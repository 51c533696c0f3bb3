//! What holds of every parse.

use vstd::prelude::*;
use crate::error::build_err;
use crate::error::is_refusal;
use crate::error::BuildErrorView;
use crate::error::ErrorView;
use crate::parse::grammar::attributes_from;
use crate::parse::grammar::brace_close;
use crate::parse::grammar::close_index;
use crate::parse::grammar::closes_itself;
use crate::parse::grammar::group;
use crate::parse::grammar::is_closing;
use crate::parse::grammar::origin_at;
use crate::parse::grammar::decode_from;
use crate::parse::grammar::document;
use crate::parse::grammar::element_at;
use crate::parse::grammar::expression_at;
use crate::parse::grammar::first_byte;
use crate::parse::grammar::first_quote;
use crate::parse::grammar::hex_run_end;
use crate::parse::grammar::leading_garbage;
use crate::parse::grammar::literal_at;
use crate::parse::grammar::node_at;
use crate::parse::grammar::nodes;
use crate::parse::grammar::raw_end;
use crate::parse::grammar::skip_len;
use crate::parse::grammar::tag_head;
use crate::parse::grammar::tag_open;
use crate::parse::grammar::ATTRIBUTE;
use crate::parse::tree::AttributeView;
use crate::parse::tree::BodyView;
use crate::parse::tree::ElementView;
use crate::parse::tree::OriginView;
use crate::pattern::regex_captures_at;
use crate::pattern::regex_captures_iter;
use crate::pattern::Span;
use crate::text::lower_ascii;
use crate::text::utf8_lossy;

verus! {

/// Whitespace skipping stays inside the window, and after it no whitespace
/// or comment is left at the scan position: skipping twice is skipping once.
pub proof fn lemma_skip_is_idempotent(w: Seq<u8>)
    ensures
        skip_len(w) <= w.len(),
        skip_len(w.subrange(skip_len(w) as int, w.len() as int)) == 0,
    decreases w.len(),
{
    let n = leading_garbage(w);
    if n == 0 {
        assert(w.subrange(0, w.len() as int) =~= w);
    } else {
        let rest = w.subrange(n as int, w.len() as int);
        lemma_skip_is_idempotent(rest);
        assert(rest.subrange(skip_len(rest) as int, rest.len() as int) =~= w.subrange(
            (n + skip_len(rest)) as int,
            w.len() as int,
        ));
    }
}

/// At the end of input there is nothing to skip.
pub proof fn lemma_skip_at_end(w: Seq<u8>)
    requires
        w.len() == 0,
    ensures
        skip_len(w) == 0,
{
}

/// An origin of the file `path` at depth `depth` whose token lies in the
/// bytes from `lo` up to `hi`.
pub open spec fn origin_within(origin: OriginView, path: Seq<char>, lo: nat, hi: nat, depth: nat) -> bool {
    &&& origin.source == path
    &&& origin.depth == depth
    &&& lo <= origin.offset
    &&& origin.offset + origin.token_length <= hi
}

/// Whether every attribute's origin lies in the bytes from `lo` up to `hi`.
pub open spec fn attributes_within(attributes: Seq<AttributeView>, path: Seq<char>, lo: nat, hi: nat, depth: nat) -> bool {
    forall|i: int| 0 <= i < attributes.len() ==> origin_within(#[trigger] attributes[i].origin, path, lo, hi, depth)
}

/// Whether the origins of `node`, of its attributes and of all nodes below
/// it lie in the bytes from `lo` up to `hi`, each at its depth.
pub open spec fn node_within(node: BodyView, path: Seq<char>, lo: nat, hi: nat, depth: nat) -> bool
    decreases node,
{
    match node {
        BodyView::Element(el) => {
            &&& origin_within(el.origin, path, lo, hi, depth)
            &&& attributes_within(el.attributes, path, lo, hi, depth)
            &&& nodes_within(el.body, path, lo, hi, depth + 1)
        },
        BodyView::Expression(e) => origin_within(e.origin, path, lo, hi, depth),
        BodyView::Literal(l) => origin_within(l.origin, path, lo, hi, depth),
    }
}

/// [`node_within`] for every node of a list.
pub open spec fn nodes_within(nodes: Seq<BodyView>, path: Seq<char>, lo: nat, hi: nat, depth: nat) -> bool
    decreases nodes,
{
    forall|i: int| 0 <= i < nodes.len() ==> node_within(#[trigger] nodes[i], path, lo, hi, depth)
}

/// What lies in a range lies in every wider range.
pub proof fn lemma_within_widens(node: BodyView, path: Seq<char>, lo: nat, hi: nat, depth: nat, lo2: nat, hi2: nat)
    requires
        node_within(node, path, lo, hi, depth),
        lo2 <= lo,
        hi <= hi2,
    ensures
        node_within(node, path, lo2, hi2, depth),
    decreases node,
{
    match node {
        BodyView::Element(el) => {
            assert forall|i: int| 0 <= i < el.body.len() implies node_within(
                #[trigger] el.body[i],
                path,
                lo2,
                hi2,
                depth + 1,
            ) by {
                lemma_within_widens(el.body[i], path, lo, hi, depth + 1, lo2, hi2);
            }
            assert forall|i: int| 0 <= i < el.attributes.len() implies origin_within(
                #[trigger] el.attributes[i].origin,
                path,
                lo2,
                hi2,
                depth,
            ) by {
                assert(origin_within(el.attributes[i].origin, path, lo, hi, depth));
            }
        },
        _ => {},
    }
}

/// The closing brace of an expression lies in the window.
pub proof fn lemma_brace_close_bounds(w: Seq<u8>, i: int, count: int)
    requires
        0 <= i,
    ensures
        brace_close(w, i, count) matches Some(j) ==> i <= j < w.len(),
    decreases w.len() - i,
{
    if i < w.len() {
        lemma_brace_close_bounds(w, i + 1, crate::parse::grammar::brace_step(count, w[i]));
    }
}

/// The first quote of a window lies in the window.
pub proof fn lemma_first_quote_bounds(w: Seq<u8>, i: int)
    requires
        0 <= i,
    ensures
        first_quote(w, i) matches Some(j) ==> i <= j < w.len(),
    decreases w.len() - i,
{
    if i < w.len() {
        lemma_first_quote_bounds(w, i + 1);
    }
}

/// The end of a raw literal lies in what follows its opening quote.
pub proof fn lemma_raw_end_bounds(rest: Seq<u8>, quote: u8, fence: nat, i: int)
    requires
        0 <= i,
    ensures
        raw_end(rest, quote, fence, i) matches Some(t) ==> i <= t && t + 1 + fence <= rest.len(),
    decreases rest.len() - i,
{
    if i < rest.len() {
        lemma_raw_end_bounds(rest, quote, fence, i + 1);
    }
}

/// A run of digits ends in the sequence.
pub proof fn lemma_hex_run_bounds(s: Seq<u8>, i: int)
    requires
        0 <= i <= s.len(),
    ensures
        i <= hex_run_end(s, i) <= s.len(),
    decreases s.len() - i,
{
    if i < s.len() && crate::parse::grammar::hex_value(s[i]) is Some {
        lemma_hex_run_bounds(s, i + 1);
    }
}

/// The first occurrence of a byte lies in the sequence.
pub proof fn lemma_first_byte_bounds(s: Seq<u8>, b: u8, i: int)
    requires
        0 <= i,
    ensures
        first_byte(s, b, i) matches Some(j) ==> i <= j < s.len(),
    decreases s.len() - i,
{
    if i < s.len() {
        lemma_first_byte_bounds(s, b, i + 1);
    }
}

/// An escaped body ends behind its closing quote, inside what follows the
/// opening quote.
pub proof fn lemma_decode_bounds(rest: Seq<u8>, quote: u8, bytes: bool, i: int, body: Seq<u8>)
    requires
        0 <= i,
    ensures
        decode_from(rest, quote, bytes, i, body) matches Ok(found) ==> i < found.1 <= rest.len(),
    decreases rest.len() - i,
{
    if i < rest.len() {
        if rest[i] == 0x5c {
            if i + 1 < rest.len() {
                let c = rest[i + 1];
                if c == 0x74 {
                    lemma_decode_bounds(rest, quote, bytes, i + 2, body.push(0x09));
                } else if c == 0x6e {
                    lemma_decode_bounds(rest, quote, bytes, i + 2, body.push(0x0a));
                } else if c == 0x72 {
                    lemma_decode_bounds(rest, quote, bytes, i + 2, body.push(0x0d));
                } else if c == 0x30 {
                    lemma_decode_bounds(rest, quote, bytes, i + 2, body.push(0x00));
                } else if c == 0x62 {
                    lemma_decode_bounds(
                        rest,
                        quote,
                        bytes,
                        i + 2,
                        if body.len() > 0 {
                            body.drop_last()
                        } else {
                            body
                        },
                    );
                } else if c == 0x78 {
                    if bytes {
                        let end = hex_run_end(rest, i + 2);
                        if !(end < i + 2 || end > rest.len()) {
                            lemma_decode_bounds(
                                rest,
                                quote,
                                bytes,
                                end,
                                body + crate::parse::grammar::hex_bytes(rest.subrange(i + 2, end)),
                            );
                        }
                    }
                } else if c == 0x75 && !bytes {
                    if let Some(close) = first_byte(rest, 0x7d, i + 2) {
                        let text = if i + 2 < close <= rest.len() {
                            rest.subrange(i + 3, close)
                        } else {
                            Seq::empty()
                        };
                        if !(close < i + 2 || close >= rest.len()) && crate::parse::grammar::is_scalar_value(
                            crate::parse::grammar::code_point(text),
                        ) {
                            lemma_decode_bounds(
                                rest,
                                quote,
                                bytes,
                                close + 1,
                                body + vstd::utf8::encode_scalar(crate::parse::grammar::code_point(text) as u32),
                            );
                        }
                    }
                } else {
                    lemma_decode_bounds(rest, quote, bytes, i + 2, body.push(c));
                }
            }
        } else if rest[i] != quote {
            lemma_decode_bounds(rest, quote, bytes, i + 1, body.push(rest[i]));
        }
    }
}

/// The attributes written out in a tag lie in the attribute region.
pub proof fn lemma_attributes_from_within(
    text: Seq<u8>,
    matches: Seq<Seq<Option<Span>>>,
    path: Seq<char>,
    base: nat,
    depth: nat,
)
    ensures
        attributes_within(attributes_from(text, matches, path, base, depth), path, base, base + text.len(), depth),
    decreases matches.len(),
{
    if matches.len() > 0 {
        lemma_attributes_from_within(text, matches.drop_last(), path, base, depth);
    }
}

/// The origins of an expression, a literal or an element read from a window
/// lie in the window, and their tokens are not empty.
pub proof fn lemma_node_within(w: Seq<u8>, path: Seq<char>, base: nat, depth: nat)
    ensures
        node_at(w, path, base, depth) matches Ok(Some(node)) ==> {
            &&& node_within(node, path, base, base + w.len(), depth)
            &&& crate::parse::tree::origin_of(node).offset == base
            &&& 0 < crate::parse::tree::origin_of(node).token_length <= w.len()
        },
    decreases w.len(), 1nat,
{
    lemma_brace_close_bounds(w, 0, 0);
    match expression_at(w, path, base, depth) {
        Ok(_) => {},
        Err(_) => {
            match literal_at(w, path, base, depth) {
                Ok(_) => {
                    lemma_first_quote_bounds(w, 0);
                    let q = first_quote(w, 0).unwrap();
                    let rest = w.subrange(q + 1, w.len() as int);
                    let m = crate::parse::grammar::modifier_of(w.subrange(0, q + 1)).unwrap();
                    lemma_raw_end_bounds(rest, w[q], m.fence, 0);
                    lemma_decode_bounds(rest, w[q], m.bytes, 0, Seq::empty());
                },
                Err(_) => {
                    lemma_element_within(w, path, base, depth);
                },
            }
        },
    }
}

/// The origins of an element read from a window, of its attributes and of
/// everything in its body lie in the window.
pub proof fn lemma_element_within(w: Seq<u8>, path: Seq<char>, base: nat, depth: nat)
    ensures
        element_at(w, path, base, depth) matches Ok(el) ==> {
            &&& node_within(BodyView::Element(el), path, base, base + w.len(), depth)
            &&& el.origin.offset == base
            &&& 0 < el.origin.token_length <= w.len()
        },
    decreases w.len(), 0nat,
{
    if let Ok(head) = tag_head(w, path, base, depth) {
        if let Ok(open) = tag_open(w, path, base, depth) {
            if let Some(a) = open.spans.attributes {
                let region = w.subrange(a.0, a.1);
                lemma_attributes_from_within(
                    region,
                    regex_captures_iter(ATTRIBUTE@, region),
                    path,
                    (base + a.0) as nat,
                    depth,
                );
            }
        }
        assert(attributes_within(head.attributes, path, base, base + w.len(), depth));
        match head.close {
            None => {},
            Some(close) => {
                let inner = w.subrange(head.open_end, head.open_end + close.0);
                lemma_nodes_within(inner, path, (base + head.open_end) as nat, depth + 1);
                if let Ok(body) = nodes(inner, path, (base + head.open_end) as nat, depth + 1) {
                    assert forall|i: int| 0 <= i < body.len() implies node_within(
                        #[trigger] body[i],
                        path,
                        base,
                        base + w.len(),
                        depth + 1,
                    ) by {
                        lemma_within_widens(
                            body[i],
                            path,
                            (base + head.open_end) as nat,
                            (base + head.open_end + inner.len()) as nat,
                            depth + 1,
                            base,
                            base + w.len(),
                        );
                    }
                }
            },
        }
    }
}

/// The origins of all nodes read from a window lie in the window.
pub proof fn lemma_nodes_within(w: Seq<u8>, path: Seq<char>, base: nat, depth: nat)
    ensures
        nodes(w, path, base, depth) matches Ok(found) ==> nodes_within(found, path, base, base + w.len(), depth),
    decreases w.len(), 2nat,
{
    let skip = skip_len(w);
    lemma_skip_is_idempotent(w);
    let rest = w.subrange(skip as int, w.len() as int);
    lemma_node_within(rest, path, base + skip, depth);
    if let Ok(Some(node)) = node_at(rest, path, base + skip, depth) {
        let used = crate::parse::tree::origin_of(node).token_length;
        lemma_within_widens(node, path, base + skip, base + skip + rest.len(), depth, base, base + w.len());
        let after = rest.subrange(used as int, rest.len() as int);
        lemma_nodes_within(after, path, base + skip + used, depth);
        if let Ok(more) = nodes(after, path, base + skip + used, depth) {
            let found = seq![node] + more;
            assert forall|i: int| 0 <= i < found.len() implies node_within(
                #[trigger] found[i],
                path,
                base,
                base + w.len(),
                depth,
            ) by {
                if i > 0 {
                    assert(found[i] == more[i - 1]);
                    lemma_within_widens(
                        more[i - 1],
                        path,
                        base + skip + used,
                        base + skip + used + after.len(),
                        depth,
                        base,
                        base + w.len(),
                    );
                }
            }
        }
    }
}

/// Every origin in the tree of a source file lies inside the file: the
/// offset of a node and the length of its token never reach past the end of
/// the source, the root is at depth 0 and every child one deeper than its
/// parent.
pub proof fn lemma_document_origins(src: Seq<u8>, path: Seq<char>)
    ensures
        document(src, path) matches Ok(tree) ==> node_within(BodyView::Element(tree), path, 0, src.len(), 0),
{
    lemma_nodes_within(src, path, 0, 1);
}

/// The brace depth after the first `n` bytes of `w`.
pub open spec fn brace_depth(w: Seq<u8>, n: int) -> int
    decreases n,
{
    if n <= 0 || n > w.len() {
        0
    } else {
        crate::parse::grammar::brace_step(brace_depth(w, n - 1), w[n - 1])
    }
}

/// Where [`brace_close`] finds the closing index `j` from index `i` on, the
/// depth is 0 right behind `j` and at no place from `i` up to `j`.
pub proof fn lemma_brace_close_is_first(w: Seq<u8>, i: int, count: int)
    requires
        0 <= i <= w.len(),
        count == brace_depth(w, i),
    ensures
        brace_close(w, i, count) matches Some(j) ==> {
            &&& brace_depth(w, j + 1) == 0
            &&& forall|k: int| i < k <= j ==> brace_depth(w, k) != 0
        },
        brace_close(w, i, count) is None ==> forall|k: int| i < k <= w.len() ==> brace_depth(w, k) != 0,
    decreases w.len() - i,
{
    if i < w.len() {
        let next = crate::parse::grammar::brace_step(count, w[i]);
        assert(brace_depth(w, i + 1) == next);
        if next != 0 {
            lemma_brace_close_is_first(w, i + 1, next);
        }
    }
}

/// An expression is cut where its braces balance for the first time: the
/// token of an expression read from `w` has as many `}` as `{`, and no
/// shorter start of `w` has; and where no expression is found though `w`
/// starts with `{`, no start of `w` balances.
pub proof fn lemma_expression_is_balanced(w: Seq<u8>, path: Seq<char>, base: nat, depth: nat)
    ensures
        expression_at(w, path, base, depth) matches Ok(e) ==> {
            &&& 0 < e.origin.token_length <= w.len()
            &&& brace_depth(w, e.origin.token_length as int) == 0
            &&& forall|k: int| 0 < k < e.origin.token_length ==> brace_depth(w, k) != 0
        },
        expression_at(w, path, base, depth) == Err::<crate::parse::tree::ExpressionView, crate::error::ErrorView>(
            crate::error::build_err(crate::error::BuildErrorView::BracketMismatch),
        ) ==> forall|k: int| 0 < k <= w.len() ==> brace_depth(w, k) != 0,
{
    lemma_brace_close_bounds(w, 0, 0);
    lemma_brace_close_is_first(w, 0, 0);
}

/// Decoding an escaped body fails in three ways only.
pub proof fn lemma_decode_errors(rest: Seq<u8>, quote: u8, bytes: bool, i: int, body: Seq<u8>)
    requires
        0 <= i,
    ensures
        decode_from(rest, quote, bytes, i, body) matches Err(e) ==> {
            ||| e == BuildErrorView::UnexpectedEOF
            ||| e == BuildErrorView::ByteStringNotSupported
            ||| e is InvalidCharacterCode
        },
    decreases rest.len() - i,
{
    if i < rest.len() {
        if rest[i] == 0x5c {
            if i + 1 < rest.len() {
                let c = rest[i + 1];
                if c == 0x74 {
                    lemma_decode_errors(rest, quote, bytes, i + 2, body.push(0x09));
                } else if c == 0x6e {
                    lemma_decode_errors(rest, quote, bytes, i + 2, body.push(0x0a));
                } else if c == 0x72 {
                    lemma_decode_errors(rest, quote, bytes, i + 2, body.push(0x0d));
                } else if c == 0x30 {
                    lemma_decode_errors(rest, quote, bytes, i + 2, body.push(0x00));
                } else if c == 0x62 {
                    lemma_decode_errors(
                        rest,
                        quote,
                        bytes,
                        i + 2,
                        if body.len() > 0 {
                            body.drop_last()
                        } else {
                            body
                        },
                    );
                } else if c == 0x78 {
                    if bytes {
                        let end = hex_run_end(rest, i + 2);
                        if !(end < i + 2 || end > rest.len()) {
                            lemma_decode_errors(
                                rest,
                                quote,
                                bytes,
                                end,
                                body + crate::parse::grammar::hex_bytes(rest.subrange(i + 2, end)),
                            );
                        }
                    }
                } else if c == 0x75 && !bytes {
                    if let Some(close) = first_byte(rest, 0x7d, i + 2) {
                        let text = if i + 2 < close <= rest.len() {
                            rest.subrange(i + 3, close)
                        } else {
                            Seq::empty()
                        };
                        if !(close < i + 2 || close >= rest.len()) && crate::parse::grammar::is_scalar_value(
                            crate::parse::grammar::code_point(text),
                        ) {
                            lemma_decode_errors(
                                rest,
                                quote,
                                bytes,
                                close + 1,
                                body + vstd::utf8::encode_scalar(crate::parse::grammar::code_point(text) as u32),
                            );
                        }
                    }
                } else {
                    lemma_decode_errors(rest, quote, bytes, i + 2, body.push(c));
                }
            }
        } else if rest[i] != quote {
            lemma_decode_errors(rest, quote, bytes, i + 1, body.push(rest[i]));
        }
    }
}

/// The literal parser refuses with `NotALiteral` and with no other refusal.
pub proof fn lemma_literal_errors(w: Seq<u8>, path: Seq<char>, base: nat, depth: nat)
    ensures
        literal_at(w, path, base, depth) matches Err(e) ==> (is_refusal(e) ==> e == build_err(
            BuildErrorView::NotALiteral,
        )),
{
    if let Some(q) = first_quote(w, 0) {
        if let Some(m) = crate::parse::grammar::modifier_of(w.subrange(0, q + 1)) {
            lemma_decode_errors(w.subrange(q + 1, w.len() as int), w[q], m.bytes, 0, Seq::empty());
        }
    }
}

/// No refusal leaves the element parser but its own, `NotATag`.
pub proof fn lemma_element_errors(w: Seq<u8>, path: Seq<char>, base: nat, depth: nat)
    ensures
        element_at(w, path, base, depth) matches Err(e) ==> (is_refusal(e) ==> e == build_err(BuildErrorView::NotATag)),
    decreases w.len(), 0nat,
{
    if let Ok(head) = tag_head(w, path, base, depth) {
        if let Some(close) = head.close {
            if crate::parse::grammar::head_within(head, w.len()) {
                lemma_nodes_errors(
                    w.subrange(head.open_end, head.open_end + close.0),
                    path,
                    (base + head.open_end) as nat,
                    depth + 1,
                );
            }
        }
    }
}

/// No refusal leaves the dispatcher: where a parser finds no construct of
/// its kind the next one is asked, and where none finds one there is no
/// node. Every error that comes out is a malformed construct.
pub proof fn lemma_node_errors(w: Seq<u8>, path: Seq<char>, base: nat, depth: nat)
    ensures
        node_at(w, path, base, depth) matches Err(e) ==> !is_refusal(e),
    decreases w.len(), 1nat,
{
    lemma_literal_errors(w, path, base, depth);
    lemma_element_errors(w, path, base, depth);
}

/// No refusal leaves the parse of a body, at any depth.
pub proof fn lemma_nodes_errors(w: Seq<u8>, path: Seq<char>, base: nat, depth: nat)
    ensures
        nodes(w, path, base, depth) matches Err(e) ==> !is_refusal(e),
    decreases w.len(), 2nat,
{
    let skip = skip_len(w);
    if skip <= w.len() {
        let rest = w.subrange(skip as int, w.len() as int);
        lemma_node_errors(rest, path, base + skip, depth);
        if let Ok(Some(node)) = node_at(rest, path, base + skip, depth) {
            let used = crate::parse::tree::origin_of(node).token_length;
            if !(used == 0 || used > rest.len()) {
                lemma_nodes_errors(rest.subrange(used as int, rest.len() as int), path, base + skip + used, depth);
            }
        }
    }
}

/// No refusal leaves the parse of a source file.
pub proof fn lemma_document_errors(src: Seq<u8>, path: Seq<char>)
    ensures
        document(src, path) matches Err(e) ==> !is_refusal(e),
{
    lemma_nodes_errors(src, path, 0, 1);
}

/// The offset just behind the token of an origin.
pub open spec fn token_end(origin: OriginView) -> nat {
    origin.offset + origin.token_length
}

/// Whether the nodes of a list stand in document order without overlap:
/// each token ends before the next one begins.
pub open spec fn siblings_ordered(nodes: Seq<BodyView>) -> bool {
    forall|i: int, j: int|
        0 <= i < j < nodes.len() ==> token_end(crate::parse::tree::origin_of(#[trigger] nodes[i]))
            <= crate::parse::tree::origin_of(#[trigger] nodes[j]).offset
}

/// Whether siblings stand in document order without overlap at every level
/// below `node`.
pub open spec fn node_ordered(node: BodyView) -> bool
    decreases node,
{
    match node {
        BodyView::Element(el) => nodes_ordered(el.body),
        _ => true,
    }
}

/// Whether the nodes of a list stand in document order without overlap, and
/// so do the siblings at every level below them.
pub open spec fn nodes_ordered(nodes: Seq<BodyView>) -> bool
    decreases nodes,
{
    &&& siblings_ordered(nodes)
    &&& forall|i: int| 0 <= i < nodes.len() ==> node_ordered(#[trigger] nodes[i])
}

/// The origin of a node that lies in a range lies in that range.
pub proof fn lemma_origin_of_within(node: BodyView, path: Seq<char>, lo: nat, hi: nat, depth: nat)
    requires
        node_within(node, path, lo, hi, depth),
    ensures
        origin_within(crate::parse::tree::origin_of(node), path, lo, hi, depth),
{
}

/// Below the node read from a window, siblings stand in document order
/// without overlap at every level.
pub proof fn lemma_node_ordered(w: Seq<u8>, path: Seq<char>, base: nat, depth: nat)
    ensures
        node_at(w, path, base, depth) matches Ok(Some(node)) ==> node_ordered(node),
    decreases w.len(), 1nat,
{
    if let Ok(Some(BodyView::Element(_))) = node_at(w, path, base, depth) {
        if let Ok(head) = tag_head(w, path, base, depth) {
            if let Some(close) = head.close {
                if crate::parse::grammar::head_within(head, w.len()) {
                    lemma_nodes_ordered(
                        w.subrange(head.open_end, head.open_end + close.0),
                        path,
                        (base + head.open_end) as nat,
                        depth + 1,
                    );
                }
            }
        }
    }
}

/// The nodes read from a window stand in document order without overlap,
/// and so do the siblings at every level below them.
pub proof fn lemma_nodes_ordered(w: Seq<u8>, path: Seq<char>, base: nat, depth: nat)
    ensures
        nodes(w, path, base, depth) matches Ok(found) ==> nodes_ordered(found),
    decreases w.len(), 2nat,
{
    let skip = skip_len(w);
    lemma_skip_is_idempotent(w);
    let rest = w.subrange(skip as int, w.len() as int);
    lemma_node_within(rest, path, base + skip, depth);
    lemma_node_ordered(rest, path, base + skip, depth);
    if let Ok(Some(node)) = node_at(rest, path, base + skip, depth) {
        let used = crate::parse::tree::origin_of(node).token_length;
        let after = rest.subrange(used as int, rest.len() as int);
        lemma_nodes_ordered(after, path, base + skip + used, depth);
        lemma_nodes_within(after, path, base + skip + used, depth);
        if let Ok(more) = nodes(after, path, base + skip + used, depth) {
            let found = seq![node] + more;
            assert forall|i: int, j: int| 0 <= i < j < found.len() implies token_end(
                crate::parse::tree::origin_of(#[trigger] found[i]),
            ) <= crate::parse::tree::origin_of(#[trigger] found[j]).offset by {
                assert(found[j] == more[j - 1]);
                if i == 0 {
                    lemma_origin_of_within(
                        more[j - 1],
                        path,
                        base + skip + used,
                        base + skip + used + after.len(),
                        depth,
                    );
                } else {
                    assert(found[i] == more[i - 1]);
                }
            }
            assert forall|i: int| 0 <= i < found.len() implies node_ordered(#[trigger] found[i]) by {
                if i > 0 {
                    assert(found[i] == more[i - 1]);
                }
            }
        }
    }
}

/// In the tree of a source file siblings stand in document order without
/// overlap at every level.
pub proof fn lemma_document_ordered(src: Seq<u8>, path: Seq<char>)
    ensures
        document(src, path) matches Ok(tree) ==> node_ordered(BodyView::Element(tree)),
{
    lemma_nodes_ordered(src, path, 0, 1);
}

/// How many elements are open behind the first `n` tag edges, where one
/// is open before the first: an opening edge adds one, a closing edge takes
/// one away.
pub open spec fn open_after(hay: Seq<u8>, matches: Seq<Span>, n: int) -> int
    decreases n,
{
    if n <= 0 || n > matches.len() {
        1
    } else if is_closing(hay, matches[n - 1]) {
        open_after(hay, matches, n - 1) - 1
    } else {
        open_after(hay, matches, n - 1) + 1
    }
}

/// The closing edge is the first edge behind which no element is open: where
/// [`close_index`] finds the edge `j` from edge `i` on, none is open behind
/// `j` and one is open behind every edge from `i` up to `j`; where it finds
/// none, one is open behind every edge from `i` on.
pub proof fn lemma_close_index_is_first(hay: Seq<u8>, matches: Seq<Span>, i: int, count: int)
    requires
        0 <= i <= matches.len(),
        count == open_after(hay, matches, i),
    ensures
        close_index(hay, matches, i, count) matches Some(j) ==> {
            &&& i <= j < matches.len()
            &&& open_after(hay, matches, j + 1) <= 0
            &&& forall|k: int| i < k <= j ==> open_after(hay, matches, k) > 0
        },
        close_index(hay, matches, i, count) is None ==> forall|k: int|
            i < k <= matches.len() ==> open_after(hay, matches, k) > 0,
    decreases matches.len() - i,
{
    if i < matches.len() {
        let next = if is_closing(hay, matches[i]) {
            count - 1
        } else {
            count + 1
        };
        assert(open_after(hay, matches, i + 1) == next);
        if next > 0 {
            lemma_close_index_is_first(hay, matches, i + 1, next);
        }
    }
}

/// Behind `n` edges of `opens` opening edges followed by closing edges.
pub proof fn lemma_open_after_nested(hay: Seq<u8>, matches: Seq<Span>, opens: int, n: int)
    requires
        0 <= opens,
        0 <= n <= matches.len(),
        forall|k: int| 0 <= k < opens && k < matches.len() ==> !is_closing(hay, #[trigger] matches[k]),
        forall|k: int| opens <= k < matches.len() ==> is_closing(hay, #[trigger] matches[k]),
    ensures
        n <= opens ==> open_after(hay, matches, n) == 1 + n,
        n >= opens ==> open_after(hay, matches, n) == 1 + 2 * opens - n,
    decreases n,
{
    if n > 0 {
        lemma_open_after_nested(hay, matches, opens, n - 1);
    }
}

/// Counting handles every depth of nesting: behind an opening tag whose
/// body holds `opens` opening edges of its name and then at least as many
/// closing edges and one more, the closing edge is the last of these, the
/// one that pairs with the opening tag, and none before it.
pub proof fn lemma_nested_edges_close_last(hay: Seq<u8>, matches: Seq<Span>, opens: int)
    requires
        0 <= opens,
        2 * opens + 1 <= matches.len(),
        forall|k: int| 0 <= k < opens ==> !is_closing(hay, #[trigger] matches[k]),
        forall|k: int| opens <= k < matches.len() ==> is_closing(hay, #[trigger] matches[k]),
    ensures
        close_index(hay, matches, 0, 1) == Some(2 * opens),
{
    lemma_close_index_is_first(hay, matches, 0, 1);
    lemma_open_after_nested(hay, matches, opens, 2 * opens + 1);
    match close_index(hay, matches, 0, 1) {
        Some(j) => {
            lemma_open_after_nested(hay, matches, opens, j + 1);
            if j + 1 > 2 * opens + 1 {
                assert(open_after(hay, matches, 2 * opens + 1) > 0);
            }
        },
        None => {
            assert(open_after(hay, matches, 2 * opens + 1) > 0);
        },
    }
}

/// What the patterns find in a self-closing tag with one attribute:
/// the opening-tag pattern finds the whole window `w` with the name at
/// `name`, no selector shorthand and the attribute region at `region`; the
/// selector pattern finds no id in the empty shorthand; and the attribute
/// pattern finds one attribute in the region, at `whole`, with its name at
/// `key` and its quoted value at `value`.
pub open spec fn finds_one_attribute_tag(
    w: Seq<u8>,
    tag: Seq<Option<Span>>,
    selector: Seq<Option<Span>>,
    attribute: Seq<Option<Span>>,
    name: (int, int),
    region: (int, int),
    whole: (int, int),
    key: (int, int),
    value: (int, int),
) -> bool {
    let text = w.subrange(region.0, region.1);
    &&& closes_itself(w, w.len() as int)
    &&& regex_captures_at(crate::parse::grammar::COMBINED@, w, 0) == Some(tag)
    &&& group(tag, 0, w.len()) == Some((0int, w.len() as int))
    &&& group(tag, 1, w.len()) == Some(name)
    &&& group(tag, 2, w.len()) == Some((name.1, name.1))
    &&& group(tag, 3, w.len()) == Some(region)
    &&& regex_captures_at(crate::parse::grammar::CSS_SELECTOR_SHORTHAND@, Seq::<u8>::empty(), 0) == Some(selector)
    &&& group(selector, 2, 0) is None
    &&& regex_captures_iter(ATTRIBUTE@, text) == seq![attribute]
    &&& group(attribute, 0, text.len()) == Some(whole)
    &&& group(attribute, 1, text.len()) == Some(key)
    &&& (group(attribute, 2, text.len()) == Some(value) || (group(attribute, 2, text.len()) is None && group(
        attribute,
        3,
        text.len(),
    ) == Some(value)))
    &&& value.1 - value.0 >= 2
}

/// A self-closing tag with one attribute, read from what the patterns find
/// in it, is an element of the tag's name in lower case, with that one
/// attribute, its value without the quotes, and an empty body; its token is
/// the whole window. This holds of every name, attribute and value, and of
/// double and single quotes alike.
pub proof fn lemma_self_closing_tag(
    w: Seq<u8>,
    path: Seq<char>,
    base: nat,
    depth: nat,
    tag: Seq<Option<Span>>,
    selector: Seq<Option<Span>>,
    attribute: Seq<Option<Span>>,
    name: (int, int),
    region: (int, int),
    whole: (int, int),
    key: (int, int),
    value: (int, int),
)
    ensures
        finds_one_attribute_tag(w, tag, selector, attribute, name, region, whole, key, value) ==> element_at(
            w,
            path,
            base,
            depth,
        ) == Ok::<ElementView, ErrorView>(
            ElementView {
                name: utf8_lossy(lower_ascii(w.subrange(name.0, name.1))),
                attributes: seq![
                    AttributeView {
                        name: utf8_lossy(w.subrange(region.0, region.1).subrange(key.0, key.1)),
                        value: utf8_lossy(w.subrange(region.0, region.1).subrange(value.0 + 1, value.1 - 1)),
                        origin: origin_at(path, base + region.0 + whole.0, depth, whole.1 - whole.0),
                    },
                ],
                body: Seq::empty(),
                origin: origin_at(path, base as int, depth, w.len() as int),
            },
        ),
{
    if finds_one_attribute_tag(w, tag, selector, attribute, name, region, whole, key, value) {
        let text = w.subrange(region.0, region.1);
        let found = seq![attribute];
        assert(found.drop_last() =~= Seq::<Seq<Option<Span>>>::empty());
        assert(found.last() == attribute);
        let one = crate::parse::grammar::attribute_of(text, attribute, path, (base + region.0) as nat, depth);
        assert(one is Some);
        assert(crate::parse::grammar::unquoted(text.subrange(value.0, value.1)) =~= text.subrange(
            value.0 + 1,
            value.1 - 1,
        ));
        assert(attributes_from(
            text,
            Seq::<Seq<Option<Span>>>::empty(),
            path,
            (base + region.0) as nat,
            depth,
        ) =~= Seq::<AttributeView>::empty());
        assert(attributes_from(text, found, path, (base + region.0) as nat, depth) =~= seq![one.unwrap()]);
        assert(w.subrange(name.1, name.1) =~= Seq::<u8>::empty());
        let none = crate::parse::grammar::selector_from(
            Seq::<u8>::empty(),
            selector,
            path,
            (base + name.1) as nat,
            depth,
        );
        assert(none =~= Seq::<AttributeView>::empty());
        assert(seq![one.unwrap()] + none =~= seq![one.unwrap()]);
    }
}

} // verus!
