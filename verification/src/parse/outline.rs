//! A tree as indented text, for inspection.

use vstd::prelude::*;
use crate::parse::tree::attributes_view;
use crate::parse::tree::bodies_view;
use crate::parse::tree::body_view;
use crate::parse::tree::lemma_bodies_view_push;
use crate::parse::tree::Attribute;
use crate::parse::tree::AttributeView;
use crate::parse::tree::Body;
use crate::parse::tree::BodyView;
use crate::parse::tree::Element;
use crate::parse::tree::ElementView;
use crate::parse::tree::Expression;
use crate::parse::tree::ExpressionView;
use crate::parse::tree::Literal;
use crate::parse::tree::LiteralView;
use crate::text::chars_of;
use crate::text::lossy_text;
use crate::text::string_of;
use crate::text::utf8_lossy;

verus! {

/// Four spaces for every level of depth.
pub open spec fn indent(depth: nat) -> Seq<char>
    decreases depth,
{
    if depth == 0 {
        Seq::empty()
    } else {
        indent((depth - 1) as nat) + seq![' ', ' ', ' ', ' ']
    }
}

/// The lower-case hexadecimal digit of a half-byte.
pub open spec fn hex_char(v: u8) -> char {
    if v < 10 {
        ((v + 0x30) as u8) as char
    } else {
        ((v - 10 + 0x61) as u8) as char
    }
}

/// A byte in hexadecimal, without a leading zero.
pub open spec fn hex_text(b: u8) -> Seq<char> {
    if b < 16 {
        seq![hex_char(b)]
    } else {
        seq![hex_char(b / 16), hex_char(b % 16)]
    }
}

/// The first `n` bytes in hexadecimal, separated by a comma and a space.
pub open spec fn hex_items(bytes: Seq<u8>, n: int) -> Seq<char>
    decreases n,
{
    if n <= 0 || n > bytes.len() {
        Seq::empty()
    } else if n == 1 {
        hex_text(bytes[0])
    } else {
        hex_items(bytes, n - 1) + seq![',', ' '] + hex_text(bytes[n - 1])
    }
}

/// A literal as text: a text literal in double quotes, a byte string as `b`
/// and the list of its bytes in hexadecimal.
pub open spec fn literal_text(l: LiteralView) -> Seq<char> {
    if l.is_byte_string {
        indent(l.origin.depth) + seq!['b', '"', '['] + hex_items(l.body, l.body.len() as int) + seq![']', '"']
    } else {
        indent(l.origin.depth) + seq!['"'] + utf8_lossy(l.body) + seq!['"']
    }
}

/// An expression as text: its body in braces.
pub open spec fn expression_text(e: ExpressionView) -> Seq<char> {
    indent(e.origin.depth) + seq!['{'] + e.body + seq!['}']
}

/// An attribute as text: a space, the name, and the value in double quotes.
pub open spec fn attribute_text(a: AttributeView) -> Seq<char> {
    seq![' '] + a.name + seq!['=', '"'] + a.value + seq!['"']
}

/// The first `n` attributes as text.
pub open spec fn attributes_text(attributes: Seq<AttributeView>, n: int) -> Seq<char>
    decreases n,
{
    if n <= 0 || n > attributes.len() {
        Seq::empty()
    } else {
        attributes_text(attributes, n - 1) + attribute_text(attributes[n - 1])
    }
}

/// An element as text: the opening tag, every child on a line of its own,
/// and the closing tag; an element without children closes itself.
pub open spec fn element_text(el: ElementView) -> Seq<char>
    decreases el,
{
    let open = indent(el.origin.depth) + seq!['<'] + el.name + attributes_text(
        el.attributes,
        el.attributes.len() as int,
    );
    if el.body.len() > 0 {
        open + seq!['>'] + children_text(el.body) + seq!['\n'] + indent(el.origin.depth) + seq!['<', '/'] + el.name
            + seq!['>']
    } else {
        open + seq![' ', '/', '>']
    }
}

/// A node as text.
pub open spec fn body_text(body: BodyView) -> Seq<char>
    decreases body,
{
    match body {
        BodyView::Element(el) => element_text(el),
        BodyView::Expression(e) => expression_text(e),
        BodyView::Literal(l) => literal_text(l),
    }
}

/// Every node of a list as text, each behind a line break.
pub open spec fn children_text(bodies: Seq<BodyView>) -> Seq<char>
    decreases bodies,
{
    if bodies.len() == 0 {
        Seq::empty()
    } else {
        children_text(bodies.drop_last()) + seq!['\n'] + body_text(bodies.last())
    }
}

/// Appends the characters of `text` to `out`.
pub fn write_text(out: &mut Vec<char>, text: &str)
    ensures
        final(out)@ == old(out)@ + text@,
{
    let mut chars = chars_of(text);
    out.append(&mut chars);
}

/// Appends the indentation of `depth` levels to `out`.
pub fn write_indent(out: &mut Vec<char>, depth: usize)
    ensures
        final(out)@ == old(out)@ + indent(depth as nat),
{
    let mut k: usize = 0;
    assert(out@ =~= old(out)@ + indent(0));
    while k < depth
        invariant
            k <= depth,
            out@ == old(out)@ + indent(k as nat),
        decreases depth - k,
    {
        out.push(' ');
        out.push(' ');
        out.push(' ');
        out.push(' ');
        k = k + 1;
        assert(out@ =~= old(out)@ + indent(k as nat));
    }
}

/// The lower-case hexadecimal digit of a half-byte.
pub fn hex_digit(v: u8) -> (res: char)
    requires
        v < 16,
    ensures
        res == hex_char(v),
{
    if v < 10 {
        (v + 0x30) as char
    } else {
        (v - 10 + 0x61) as char
    }
}

/// Appends a byte in hexadecimal to `out`.
pub fn write_hex(out: &mut Vec<char>, b: u8)
    ensures
        final(out)@ == old(out)@ + hex_text(b),
{
    if b < 16 {
        out.push(hex_digit(b));
        assert(out@ =~= old(out)@ + hex_text(b));
    } else {
        out.push(hex_digit(b / 16));
        out.push(hex_digit(b % 16));
        assert(out@ =~= old(out)@ + hex_text(b));
    }
}

/// Appends a literal as text to `out`.
pub fn write_literal(out: &mut Vec<char>, l: &Literal)
    ensures
        final(out)@ == old(out)@ + literal_text(l@),
{
    write_indent(out, l.origin.depth);
    if l.is_byte_string {
        out.push('b');
        out.push('"');
        out.push('[');
        let ghost start = out@;
        let mut k: usize = 0;
        assert(out@ =~= start + hex_items(l.body@, 0));
        while k < l.body.len()
            invariant
                k <= l.body@.len(),
                out@ == start + hex_items(l.body@, k as int),
            decreases l.body@.len() - k,
        {
            if k > 0 {
                out.push(',');
                out.push(' ');
            }
            write_hex(out, l.body[k]);
            k = k + 1;
            assert(out@ =~= start + hex_items(l.body@, k as int));
        }
        out.push(']');
        out.push('"');
        assert(out@ =~= old(out)@ + literal_text(l@));
    } else {
        out.push('"');
        let text = lossy_text(l.body.as_slice());
        write_text(out, text.as_str());
        out.push('"');
        assert(out@ =~= old(out)@ + literal_text(l@));
    }
}

/// Appends an expression as text to `out`.
pub fn write_expression(out: &mut Vec<char>, e: &Expression)
    ensures
        final(out)@ == old(out)@ + expression_text(e@),
{
    write_indent(out, e.origin.depth);
    out.push('{');
    write_text(out, e.body.as_str());
    out.push('}');
    assert(out@ =~= old(out)@ + expression_text(e@));
}

/// Appends the attributes as text to `out`.
pub fn write_attributes(out: &mut Vec<char>, attributes: &Vec<Attribute>)
    ensures
        final(out)@ == old(out)@ + attributes_text(attributes_view(attributes@), attributes@.len() as int),
{
    let ghost all = attributes_view(attributes@);
    let mut k: usize = 0;
    assert(out@ =~= old(out)@ + attributes_text(all, 0));
    while k < attributes.len()
        invariant
            k <= attributes@.len(),
            all == attributes_view(attributes@),
            out@ == old(out)@ + attributes_text(all, k as int),
        decreases attributes@.len() - k,
    {
        let ghost before = out@;
        out.push(' ');
        write_text(out, attributes[k].name.as_str());
        out.push('=');
        out.push('"');
        write_text(out, attributes[k].value.as_str());
        out.push('"');
        assert(out@ =~= before + attribute_text(all[k as int]));
        k = k + 1;
        assert(out@ =~= old(out)@ + attributes_text(all, k as int));
    }
}

/// Appends an element with everything below it as text to `out`.
pub fn write_element(out: &mut Vec<char>, el: &Element)
    ensures
        final(out)@ == old(out)@ + element_text(el@),
    decreases el,
{
    write_indent(out, el.origin.depth);
    out.push('<');
    write_text(out, el.name.as_str());
    write_attributes(out, &el.attributes);
    let ghost open = indent(el.origin.depth as nat) + seq!['<'] + el.name@ + attributes_text(
        attributes_view(el.attributes@),
        el.attributes@.len() as int,
    );
    assert(out@ =~= old(out)@ + open);
    if el.body.len() > 0 {
        out.push('>');
        let ghost start = out@;
        let mut k: usize = 0;
        assert(el.body@.subrange(0, 0) =~= Seq::<Body>::empty());
        assert(out@ =~= start + children_text(bodies_view(el.body@.subrange(0, 0))));
        while k < el.body.len()
            invariant
                k <= el.body@.len(),
                out@ == start + children_text(bodies_view(el.body@.subrange(0, k as int))),
            decreases el.body@.len() - k,
        {
            let ghost before = el.body@.subrange(0, k as int);
            let ghost shown = out@;
            proof {
                assert(before.push(el.body@[k as int]) =~= el.body@.subrange(0, k + 1));
                lemma_bodies_view_push(before, el.body@[k as int]);
                assert(bodies_view(before).push(body_view(el.body@[k as int])).drop_last() =~= bodies_view(before));
            }
            out.push('\n');
            write_body(out, &el.body[k]);
            assert(out@ =~= shown + seq!['\n'] + body_text(body_view(el.body@[k as int])));
            k = k + 1;
            assert(out@ =~= start + children_text(bodies_view(el.body@.subrange(0, k as int))));
        }
        assert(el.body@.subrange(0, k as int) =~= el.body@);
        out.push('\n');
        write_indent(out, el.origin.depth);
        out.push('<');
        out.push('/');
        write_text(out, el.name.as_str());
        out.push('>');
        proof {
            crate::parse::tree::lemma_bodies_view_index(el.body@);
            assert(out@ =~= old(out)@ + element_text(el@));
        }
    } else {
        out.push(' ');
        out.push('/');
        out.push('>');
        proof {
            crate::parse::tree::lemma_bodies_view_index(el.body@);
            assert(out@ =~= old(out)@ + element_text(el@));
        }
    }
}

/// Appends a node with everything below it as text to `out`.
pub fn write_body(out: &mut Vec<char>, body: &Body)
    ensures
        final(out)@ == old(out)@ + body_text(body_view(*body)),
    decreases body,
{
    match body {
        Body::Element(el) => write_element(out, el),
        Body::Expression(e) => write_expression(out, e),
        Body::Literal(l) => write_literal(out, l),
    }
}

impl Literal {
    /// The literal as indented text.
    pub fn outline(&self) -> (res: String)
        ensures
            res@ == literal_text(self@),
    {
        let mut out: Vec<char> = Vec::new();
        write_literal(&mut out, self);
        assert(out@ =~= literal_text(self@));
        string_of(out.as_slice())
    }
}

impl Expression {
    /// The expression as indented text.
    pub fn outline(&self) -> (res: String)
        ensures
            res@ == expression_text(self@),
    {
        let mut out: Vec<char> = Vec::new();
        write_expression(&mut out, self);
        assert(out@ =~= expression_text(self@));
        string_of(out.as_slice())
    }
}

impl Element {
    /// The element and everything below it as indented text.
    pub fn outline(&self) -> (res: String)
        ensures
            res@ == element_text(self@),
    {
        let mut out: Vec<char> = Vec::new();
        write_element(&mut out, self);
        assert(out@ =~= element_text(self@));
        string_of(out.as_slice())
    }
}

impl Body {
    /// The node and everything below it as indented text.
    pub fn outline(&self) -> (res: String)
        ensures
            res@ == body_text(self@),
    {
        let mut out: Vec<char> = Vec::new();
        write_body(&mut out, self);
        assert(out@ =~= body_text(self@));
        string_of(out.as_slice())
    }
}

} // verus!
