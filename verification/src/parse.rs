//! The parser: scanning core, element, expression and literal parsers.

pub mod element;
pub mod expression;
pub mod grammar;
pub mod laws;
pub mod literal;
pub mod outline;
pub mod tree;

use std::ops::Range;
use vstd::prelude::*;
use vstd::slice::slice_subrange;
use vstd::string::StrSliceExecFns;
use vstd::string::StringSliceAdditionalSpecFns;
use crate::error::is_refusal;
use crate::error::BuildError;
use crate::error::ErrorView;
use crate::error::SiteError;
use crate::parse::element::read_tag_head;
use crate::parse::expression::parse_expression;
use crate::parse::expression::parse_hex;
use crate::parse::grammar::document;
use crate::parse::grammar::element_at;
use crate::parse::grammar::expression_at;
use crate::parse::grammar::hex_bytes;
use crate::parse::grammar::literal_at;
use crate::parse::grammar::node_at;
use crate::parse::grammar::nodes;
use crate::parse::grammar::prepend;
use crate::parse::grammar::root_at;
use crate::parse::literal::parse_literal_at;
use crate::parse::tree::attributes_view;
use crate::parse::tree::bodies_view;
use crate::parse::tree::lemma_bodies_view_push;
use crate::parse::tree::origin_of;
use crate::parse::tree::Attribute;
use crate::parse::tree::Body;
use crate::parse::tree::BodyView;
use crate::parse::tree::Element;
use crate::parse::tree::ElementView;
use crate::parse::tree::Expression;
use crate::parse::tree::ExpressionView;
use crate::parse::tree::Literal;
use crate::parse::tree::LiteralView;
use crate::parse::tree::Origin;
use crate::parse::grammar::leading_garbage;
use crate::parse::grammar::match_len;
use crate::parse::laws::lemma_document_ordered;
use crate::parse::laws::lemma_document_origins;
use crate::parse::laws::lemma_node_errors;
use crate::parse::laws::lemma_nodes_errors;
use crate::parse::laws::lemma_nodes_ordered;
use crate::parse::laws::node_ordered;
use crate::parse::laws::nodes_ordered;
use crate::parse::laws::lemma_nodes_within;
use crate::parse::laws::nodes_within;
use crate::parse::laws::node_within;
use crate::parse::grammar::skip_len;
use crate::parse::grammar::ATTRIBUTE;
use crate::parse::grammar::CLOSING;
use crate::parse::grammar::COMBINED;
use crate::parse::grammar::CSS_SELECTOR_SHORTHAND;
use crate::parse::grammar::GARBAGE;
use crate::parse::grammar::LEGAL_STRING_MODIFIER;
use crate::parse::grammar::OPEN_OR_CLOSING_TAG;
use crate::parse::grammar::TAG_NAME;
use crate::pattern::compile;
use crate::pattern::find_at;
use crate::pattern::regex_valid;
use crate::pattern::Pattern;
use crate::pattern::Span;

verus! {

/// The scanning core: the source text, the path it came from, the compiled
/// patterns and a stack of scan windows, the last of which is the current one.
pub struct ParsingContext {
    pub tag_name: Pattern,
    pub css_selector_shorthand: Pattern,
    pub attribute: Pattern,
    pub open_or_closing_tag: Pattern,
    pub combined: Pattern,
    pub garbage: Pattern,
    pub closing: Pattern,
    pub legal_string_modifier: Pattern,
    source: Vec<u8>,
    origin: String,
    range_stack: Vec<Range<usize>>,
}

/// Length of a match in a window of `len` bytes; 0 for no match.
pub fn match_length(found: Option<Span>, len: usize) -> (res: usize)
    ensures
        res == match_len(found, len as nat),
        res <= len,
{
    match found {
        Some(span) => if span.0 <= span.1 && span.1 <= len {
            span.1 - span.0
        } else {
            0
        },
        None => 0,
    }
}

/// The offset behind the whitespace and comments that begin the bytes of
/// `src` from `start` up to `end`.
pub fn skip_garbage(garbage: &Pattern, src: &[u8], start: usize, end: usize) -> (res: usize)
    requires
        garbage@ == GARBAGE@,
        start <= end <= src@.len(),
    ensures
        res == start + skip_len(src@.subrange(start as int, end as int)),
        start <= res <= end,
        leading_garbage(src@.subrange(res as int, end as int)) == 0,
{
    let mut at: usize = start;
    loop
        invariant
            start <= at <= end <= src@.len(),
            start + skip_len(src@.subrange(start as int, end as int)) == at + skip_len(
                src@.subrange(at as int, end as int),
            ),
            garbage@ == GARBAGE@,
        ensures
            leading_garbage(src@.subrange(at as int, end as int)) == 0,
        decreases end - at,
    {
        let found = find_at(garbage, slice_subrange(src, at, end), 0);
        let ghost w = src@.subrange(at as int, end as int);
        let n: usize = match_length(found, end - at);
        if n == 0 {
            break ;
        }
        assert(w.subrange(n as int, w.len() as int) =~= src@.subrange(at + n, end as int));
        at = at + n;
    }
    at
}

/// Whether the regex engine accepts every pattern the parser is built on.
pub open spec fn patterns_valid() -> bool {
    &&& regex_valid(TAG_NAME@)
    &&& regex_valid(CSS_SELECTOR_SHORTHAND@)
    &&& regex_valid(ATTRIBUTE@)
    &&& regex_valid(OPEN_OR_CLOSING_TAG@)
    &&& regex_valid(COMBINED@)
    &&& regex_valid(CLOSING@)
    &&& regex_valid(GARBAGE@)
    &&& regex_valid(LEGAL_STRING_MODIFIER@)
}

impl ParsingContext {
    /// The source text, as bytes.
    pub closed spec fn source(&self) -> Seq<u8> {
        self.source@
    }

    /// The path of the source file.
    pub closed spec fn origin(&self) -> Seq<char> {
        self.origin@
    }

    /// The stack of scan windows, innermost last, as pairs of start and end.
    pub closed spec fn windows(&self) -> Seq<(int, int)> {
        Seq::new(self.range_stack@.len(), |i: int| (self.range_stack@[i].start as int, self.range_stack@[i].end as int))
    }

    /// The current scan window: start and end offsets into the source.
    pub open spec fn window(&self) -> (int, int) {
        self.windows().last()
    }

    /// Length of the current scan window.
    pub open spec fn window_len(&self) -> int {
        self.window().1 - self.window().0
    }

    /// The bytes of the current scan window.
    pub open spec fn window_bytes(&self) -> Seq<u8> {
        self.source().subrange(self.window().0, self.window().1)
    }

    /// The context holds the parser's own patterns, at least one scan window,
    /// and every window lies inside the source.
    pub closed spec fn wf(&self) -> bool {
        &&& self.tag_name@ == TAG_NAME@
        &&& self.css_selector_shorthand@ == CSS_SELECTOR_SHORTHAND@
        &&& self.attribute@ == ATTRIBUTE@
        &&& self.open_or_closing_tag@ == OPEN_OR_CLOSING_TAG@
        &&& self.combined@ == COMBINED@
        &&& self.garbage@ == GARBAGE@
        &&& self.closing@ == CLOSING@
        &&& self.legal_string_modifier@ == LEGAL_STRING_MODIFIER@
        &&& self.source().len() < usize::MAX
        &&& self.windows().len() >= 1
        &&& forall|i: int| 0 <= i < self.windows().len() ==> 0 <= (#[trigger] self.windows()[i]).0 <= self.windows()[i].1 <= self.source().len()
    }

    /// What a well-formed context holds: at least one scan window, every
    /// window inside the source, and a source short enough to count depths.
    pub proof fn lemma_wf_windows(&self)
        requires
            self.wf(),
        ensures
            self.windows().len() >= 1,
            self.source().len() < usize::MAX,
            forall|i: int|
                0 <= i < self.windows().len() ==> 0 <= (#[trigger] self.windows()[i]).0 <= self.windows()[i].1
                    <= self.source().len(),
            0 <= self.window().0 <= self.window().1 <= self.source().len(),
            self.window_bytes().len() == self.window_len(),
    {
        assert(self.windows()[self.windows().len() - 1] == self.window());
    }

    /// A context over `source`, read from the file at `origin`, with the whole
    /// text as its one scan window. Fails only if the regex engine rejects one
    /// of the parser's patterns.
    pub fn new(source: &str, origin: &str) -> (res: Result<ParsingContext, SiteError>)
        requires
            source.spec_bytes().len() < usize::MAX,
        ensures
            res is Ok <==> patterns_valid(),
            res matches Ok(cx) ==> {
                &&& cx.wf()
                &&& cx.source() == source.spec_bytes()
                &&& cx.origin() == origin@
                &&& cx.windows() == seq![(0int, source.spec_bytes().len() as int)]
            },
            res matches Err(e) ==> e@ == crate::error::ErrorView::RegexError,
    {
        let tag_name = match compile(TAG_NAME) {
            Ok(p) => p,
            Err(e) => return Err(SiteError::RegexError(e)),
        };
        let css_selector_shorthand = match compile(CSS_SELECTOR_SHORTHAND) {
            Ok(p) => p,
            Err(e) => return Err(SiteError::RegexError(e)),
        };
        let attribute = match compile(ATTRIBUTE) {
            Ok(p) => p,
            Err(e) => return Err(SiteError::RegexError(e)),
        };
        let open_or_closing_tag = match compile(OPEN_OR_CLOSING_TAG) {
            Ok(p) => p,
            Err(e) => return Err(SiteError::RegexError(e)),
        };
        let combined = match compile(COMBINED) {
            Ok(p) => p,
            Err(e) => return Err(SiteError::RegexError(e)),
        };
        let closing = match compile(CLOSING) {
            Ok(p) => p,
            Err(e) => return Err(SiteError::RegexError(e)),
        };
        let garbage = match compile(GARBAGE) {
            Ok(p) => p,
            Err(e) => return Err(SiteError::RegexError(e)),
        };
        let legal_string_modifier = match compile(LEGAL_STRING_MODIFIER) {
            Ok(p) => p,
            Err(e) => return Err(SiteError::RegexError(e)),
        };
        let bytes = source.as_bytes_vec();
        let mut range_stack: Vec<Range<usize>> = Vec::new();
        range_stack.push(0..bytes.len());
        let cx = ParsingContext {
            tag_name,
            css_selector_shorthand,
            attribute,
            open_or_closing_tag,
            combined,
            garbage,
            closing,
            legal_string_modifier,
            source: bytes,
            origin: origin.to_owned(),
            range_stack,
        };
        assert(cx.windows() =~= seq![(0int, source.spec_bytes().len() as int)]);
        Ok(cx)
    }

    /// The path of the source file.
    pub fn path(&self) -> (res: String)
        ensures
            res@ == self.origin(),
    {
        self.origin.clone()
    }

    /// The current scan window.
    pub fn range(&self) -> (res: &Range<usize>)
        requires
            self.windows().len() >= 1,
        ensures
            (res.start as int, res.end as int) == self.window(),
    {
        &self.range_stack[self.range_stack.len() - 1]
    }

    /// Makes `range` the current scan window, in place of the one that is.
    pub fn set_range(&mut self, range: Range<usize>)
        requires
            old(self).wf(),
            range.start <= range.end <= old(self).source().len(),
        ensures
            final(self).wf(),
            final(self).source() == old(self).source(),
            final(self).origin() == old(self).origin(),
            final(self).windows() == old(self).windows().drop_last().push((range.start as int, range.end as int)),
    {
        let top: usize = self.range_stack.len() - 1;
        let ghost before = self.windows();
        self.range_stack[top] = range;
        assert(self.windows() =~= before.drop_last().push((range.start as int, range.end as int)));
        assert forall|i: int| 0 <= i < self.windows().len() implies 0 <= (#[trigger] self.windows()[i]).0
            <= self.windows()[i].1 <= self.source().len() by {
            if i < top {
                assert(self.windows()[i] == before[i]);
            }
        }
    }

    /// The current scan window, to move its bounds. The context is well
    /// formed again once the window lies inside the source; `set_range`
    /// moves the window and keeps it so.
    pub fn range_mut(&mut self) -> (res: &mut Range<usize>)
        requires
            old(self).windows().len() >= 1,
        ensures
            (res.start as int, res.end as int) == old(self).window(),
            final(self).source() == old(self).source(),
            final(self).origin() == old(self).origin(),
            final(self).windows() == old(self).windows().drop_last().push(
                (final(res).start as int, final(res).end as int),
            ),
    {
        let top: usize = self.range_stack.len() - 1;
        &mut self.range_stack[top]
    }

    /// The bytes of the current scan window.
    pub fn window_slice(&self) -> (res: &[u8])
        requires
            self.wf(),
        ensures
            res@ == self.window_bytes(),
    {
        let top: usize = self.range_stack.len() - 1;
        let start: usize = self.range_stack[top].start;
        let end: usize = self.range_stack[top].end;
        assert(self.windows()[top as int] == (start as int, end as int));
        slice_subrange(self.source.as_slice(), start, end)
    }

    /// Passes over whitespace and comments at the start of the current window.
    pub fn skip_whitespace(&mut self)
        requires
            old(self).wf(),
        ensures
            final(self).wf(),
            final(self).source() == old(self).source(),
            final(self).origin() == old(self).origin(),
            final(self).windows() == old(self).windows().drop_last().push(
                (old(self).window().0 + skip_len(old(self).window_bytes()), old(self).window().1),
            ),
            leading_garbage(final(self).window_bytes()) == 0,
    {
        let top: usize = self.range_stack.len() - 1;
        let end: usize = self.range_stack[top].end;
        let first: usize = self.range_stack[top].start;
        assert(self.windows()[top as int] == (first as int, end as int));
        let start = skip_garbage(&self.garbage, self.source.as_slice(), first, end);
        self.range_stack[top].start = start;
        assert(final(self).windows() =~= old(self).windows().drop_last().push(
            (old(self).window().0 + skip_len(old(self).window_bytes()), old(self).window().1),
        ));
    }
    /// Parses the expression at the start of the current window.
    pub fn parse_expr(&self, depth: usize) -> (res: Result<Expression, SiteError>)
        requires
            self.wf(),
        ensures
            res matches Ok(e) ==> expression_at(self.window_bytes(), self.origin(), self.window().0 as nat, depth as nat)
                == Ok::<ExpressionView, ErrorView>(e@) && 0 < e.origin.token_length <= self.window_len(),
            res matches Err(e) ==> expression_at(self.window_bytes(), self.origin(), self.window().0 as nat, depth as nat)
                == Err::<ExpressionView, ErrorView>(e@),
    {
        let top: usize = self.range_stack.len() - 1;
        let start: usize = self.range_stack[top].start;
        let end: usize = self.range_stack[top].end;
        assert(self.windows()[top as int] == (start as int, end as int));
        parse_expression(slice_subrange(self.source.as_slice(), start, end), self.origin.as_str(), start, depth)
    }

    /// Parses the string literal at the start of the current window.
    pub fn parse_literal(&self, depth: usize) -> (res: Result<Literal, SiteError>)
        requires
            self.wf(),
        ensures
            res matches Ok(l) ==> literal_at(self.window_bytes(), self.origin(), self.window().0 as nat, depth as nat)
                == Ok::<LiteralView, ErrorView>(l@) && 0 < l.origin.token_length <= self.window_len(),
            res matches Err(e) ==> literal_at(self.window_bytes(), self.origin(), self.window().0 as nat, depth as nat)
                == Err::<LiteralView, ErrorView>(e@),
    {
        let top: usize = self.range_stack.len() - 1;
        let start: usize = self.range_stack[top].start;
        let end: usize = self.range_stack[top].end;
        assert(self.windows()[top as int] == (start as int, end as int));
        parse_literal_at(
            slice_subrange(self.source.as_slice(), start, end),
            &self.legal_string_modifier,
            self.origin.as_str(),
            start,
            depth,
        )
    }

    /// Decodes hexadecimal digits pairwise into bytes.
    pub fn parse_hex(&self, hex_asm: &str) -> (res: Vec<u8>)
        ensures
            res@ == hex_bytes(hex_asm.spec_bytes()),
    {
        parse_hex(hex_asm.as_bytes())
    }

    /// Parses the element at the start of the current window, body included.
    pub fn parse_tag(&mut self, depth: usize) -> (res: Result<Element, SiteError>)
        requires
            old(self).wf(),
            depth + old(self).window_len() <= usize::MAX,
        ensures
            final(self).wf(),
            final(self).source() == old(self).source(),
            final(self).origin() == old(self).origin(),
            final(self).windows() == old(self).windows(),
            res matches Ok(el) ==> element_at(
                old(self).window_bytes(),
                old(self).origin(),
                old(self).window().0 as nat,
                depth as nat,
            ) == Ok::<ElementView, ErrorView>(el@) && 0 < el.origin.token_length <= old(self).window_len(),
            res matches Err(e) ==> element_at(
                old(self).window_bytes(),
                old(self).origin(),
                old(self).window().0 as nat,
                depth as nat,
            ) == Err::<ElementView, ErrorView>(e@),
        decreases old(self).window_len(), 0nat,
    {
        let top: usize = self.range_stack.len() - 1;
        let start: usize = self.range_stack[top].start;
        let end: usize = self.range_stack[top].end;
        assert(self.windows()[top as int] == (start as int, end as int));
        let ghost w = self.source@.subrange(start as int, end as int);
        let head = match read_tag_head(
            &self.combined,
            &self.attribute,
            &self.css_selector_shorthand,
            &self.closing,
            slice_subrange(self.source.as_slice(), start, end),
            self.origin.as_str(),
            start,
            depth,
        ) {
            Ok(head) => head,
            Err(e) => {
                return Err(e);
            },
        };
        let origin_path = self.origin.clone();
        match head.close {
            None => {
                let el = Element {
                    name: head.name,
                    attributes: head.attributes,
                    body: Vec::new(),
                    origin: Origin { source: origin_path, offset: start, depth, token_length: head.open_end },
                };
                assert(bodies_view(el.body@) =~= Seq::empty());
                Ok(el)
            },
            Some(close) => {
                let inner: Range<usize> = (start + head.open_end)..(start + head.open_end + close.0);
                assert(w.subrange(head.open_end as int, head.open_end + close.0) =~= self.source@.subrange(
                    inner.start as int,
                    inner.end as int,
                ));
                let body = match self.parse_body(inner, depth + 1) {
                    Ok(body) => body,
                    Err(e) => {
                        return Err(e);
                    },
                };
                Ok(
                    Element {
                        name: head.name,
                        attributes: head.attributes,
                        body,
                        origin: Origin {
                            source: origin_path,
                            offset: start,
                            depth,
                            token_length: head.open_end + close.1,
                        },
                    },
                )
            },
        }
    }

    /// Passes over whitespace and comments, then parses the node at the
    /// start of the current window: an expression, else a literal, else an
    /// element. `None` means that no node starts there.
    pub fn try_parse_any(&mut self, depth: usize) -> (res: Result<Option<Body>, SiteError>)
        requires
            old(self).wf(),
            depth + old(self).window_len() <= usize::MAX,
        ensures
            final(self).wf(),
            final(self).source() == old(self).source(),
            final(self).origin() == old(self).origin(),
            final(self).windows() == old(self).windows().drop_last().push(
                (old(self).window().0 + skip_len(old(self).window_bytes()), old(self).window().1),
            ),
            res matches Ok(Some(node)) ==> node_at(
                final(self).window_bytes(),
                final(self).origin(),
                final(self).window().0 as nat,
                depth as nat,
            ) == Ok::<Option<BodyView>, ErrorView>(Some(node@)) && 0 < origin_of(node@).token_length <= final(self).window_len(),
            res matches Ok(None) ==> node_at(
                final(self).window_bytes(),
                final(self).origin(),
                final(self).window().0 as nat,
                depth as nat,
            ) == Ok::<Option<BodyView>, ErrorView>(None),
            res matches Err(e) ==> node_at(
                final(self).window_bytes(),
                final(self).origin(),
                final(self).window().0 as nat,
                depth as nat,
            ) == Err::<Option<BodyView>, ErrorView>(e@),
            res matches Err(e) ==> !is_refusal(e@),
        decreases old(self).window_len(), 1nat,
    {
        self.skip_whitespace();
        proof {
            lemma_node_errors(self.window_bytes(), self.origin(), self.window().0 as nat, depth as nat);
        }
        match self.parse_expr(depth) {
            Ok(expression) => {
                return Ok(Some(Body::Expression(expression)));
            },
            Err(SiteError::BuildError(BuildError::NotAnExpression)) => {},
            Err(e) => {
                return Err(e);
            },
        }
        match self.parse_literal(depth) {
            Ok(literal) => {
                return Ok(Some(Body::Literal(literal)));
            },
            Err(SiteError::BuildError(BuildError::NotALiteral)) => {},
            Err(e) => {
                return Err(e);
            },
        }
        match self.parse_tag(depth) {
            Ok(element) => {
                return Ok(Some(Body::Element(element)));
            },
            Err(SiteError::BuildError(BuildError::NotATag)) => {},
            Err(e) => {
                return Err(e);
            },
        }
        Ok(None)
    }

    /// Parses the nodes of `range` in document order. The range becomes the
    /// current window for the duration of the call.
    pub fn parse_body(&mut self, range: Range<usize>, depth: usize) -> (res: Result<Vec<Body>, SiteError>)
        requires
            old(self).wf(),
            range.start <= range.end <= old(self).source().len(),
            depth + (range.end - range.start) <= usize::MAX,
        ensures
            final(self).wf(),
            final(self).source() == old(self).source(),
            final(self).origin() == old(self).origin(),
            final(self).windows() == old(self).windows(),
            res matches Ok(body) ==> nodes(
                old(self).source().subrange(range.start as int, range.end as int),
                old(self).origin(),
                range.start as nat,
                depth as nat,
            ) == Ok::<Seq<BodyView>, ErrorView>(bodies_view(body@)),
            res matches Err(e) ==> nodes(
                old(self).source().subrange(range.start as int, range.end as int),
                old(self).origin(),
                range.start as nat,
                depth as nat,
            ) == Err::<Seq<BodyView>, ErrorView>(e@),
            res matches Ok(body) ==> nodes_ordered(bodies_view(body@)) && nodes_within(
                bodies_view(body@),
                old(self).origin(),
                range.start as nat,
                range.end as nat,
                depth as nat,
            ),
            res matches Err(e) ==> !is_refusal(e@),
        decreases range.end - range.start, 2nat,
    {
        proof {
            let w = self.source().subrange(range.start as int, range.end as int);
            lemma_nodes_errors(w, self.origin(), range.start as nat, depth as nat);
            lemma_nodes_ordered(w, self.origin(), range.start as nat, depth as nat);
            lemma_nodes_within(w, self.origin(), range.start as nat, depth as nat);
        }
        let mut body: Vec<Body> = Vec::new();
        let end: usize = range.end;
        let ghost first: int = range.start as int;
        let ghost all = nodes(self.source@.subrange(first, end as int), self.origin@, first as nat, depth as nat);
        let ghost outer = self.windows();
        self.range_stack.push(range);
        let top: usize = self.range_stack.len() - 1;
        let mut cur: usize = self.range_stack[top].start;
        assert(self.windows() =~= outer.push((first, end as int)));
        loop
            invariant_except_break
                self.windows() == outer.push((cur as int, end as int)),
                all == prepend(
                    bodies_view(body@),
                    nodes(self.source@.subrange(cur as int, end as int), self.origin@, cur as nat, depth as nat),
                ),
            invariant
                self.wf(),
                self.source() == old(self).source(),
                self.origin() == old(self).origin(),
                outer == old(self).windows(),
                old(self).wf(),
                all == nodes(
                    old(self).source().subrange(first, end as int),
                    old(self).origin(),
                    first as nat,
                    depth as nat,
                ),
                top == self.range_stack@.len() - 1,
                first <= cur <= end <= self.source@.len(),
                first == range.start,
                end == range.end,
                depth + (end - first) <= usize::MAX,
            ensures
                self.windows().len() == outer.len() + 1,
                self.windows().drop_last() == outer,
                all == Ok::<Seq<BodyView>, ErrorView>(bodies_view(body@)),
            decreases end - cur,
        {
            let ghost here = self.source@.subrange(cur as int, end as int);
            let ghost skip = skip_len(here);
            let ghost before = bodies_view(body@);
            let found = self.try_parse_any(depth);
            assert(self.windows().last() == (cur + skip, end as int));
            assert(self.windows()[top as int] == (cur + skip, end as int));
            let ghost rest = self.source@.subrange(cur + skip, end as int);
            assert(here.subrange(skip as int, here.len() as int) =~= rest);
            match found {
                Err(e) => {
                    assert(nodes(here, self.origin@, cur as nat, depth as nat) == Err::<Seq<BodyView>, ErrorView>(e@));
                    let ghost inner = self.windows();
                    self.range_stack.pop();
                    assert(self.windows() =~= inner.drop_last());
                    assert(inner.drop_last() =~= outer);
                    return Err(e);
                },
                Ok(None) => {
                    assert(before + Seq::<BodyView>::empty() =~= before);
                    assert(self.windows().drop_last() =~= outer);
                    break ;
                },
                Ok(Some(child)) => {
                    let used: usize = child.origin().len();
                    let next: usize = self.range_stack[top].start + used;
                    let ghost inner = self.windows();
                    self.range_stack[top].start = next;
                    assert(self.windows() =~= inner.update(top as int, (next as int, end as int)));
                    assert(inner.update(top as int, (next as int, end as int)) =~= outer.push((next as int, end as int)));
                    proof {
                        assert(rest.subrange(used as int, rest.len() as int) =~= self.source@.subrange(
                            next as int,
                            end as int,
                        ));
                        let more = nodes(self.source@.subrange(next as int, end as int), self.origin@, next as nat, depth as nat);
                        assert(nodes(here, self.origin@, cur as nat, depth as nat) == prepend(seq![child@], more));
                        lemma_bodies_view_push(body@, child);
                        if let Ok(tail) = more {
                            assert(before + (seq![child@] + tail) =~= before.push(child@) + tail);
                        }
                    }
                    body.push(child);
                    cur = next;
                    assert(self.windows() =~= outer.push((cur as int, end as int)));
                },
            }
        }
        let ghost inner = self.windows();
        self.range_stack.pop();
        assert(self.windows() =~= inner.drop_last());
        Ok(body)
    }

    /// Parses the current window into a tree under a synthetic `fragment`
    /// root, which carries the path of the source file as its `origin`
    /// attribute.
    pub fn parse(&mut self) -> (res: Result<Element, SiteError>)
        requires
            old(self).wf(),
        ensures
            final(self).wf(),
            final(self).source() == old(self).source(),
            final(self).origin() == old(self).origin(),
            final(self).windows() == old(self).windows(),
            res matches Ok(el) ==> root_at(old(self).window_bytes(), old(self).origin(), old(self).window().0 as nat)
                == Ok::<ElementView, ErrorView>(el@),
            res matches Ok(el) ==> nodes_within(
                el@.body,
                old(self).origin(),
                old(self).window().0 as nat,
                old(self).window().1 as nat,
                1,
            ),
            res matches Ok(el) ==> nodes_ordered(el@.body),
            res matches Err(e) ==> root_at(old(self).window_bytes(), old(self).origin(), old(self).window().0 as nat)
                == Err::<ElementView, ErrorView>(e@),
            res matches Err(e) ==> !is_refusal(e@),
    {
        let top: usize = self.range_stack.len() - 1;
        let start: usize = self.range_stack[top].start;
        let end: usize = self.range_stack[top].end;
        assert(self.windows()[top as int] == (start as int, end as int));
        proof {
            lemma_nodes_within(self.window_bytes(), self.origin(), start as nat, 1);
        }
        let body = match self.parse_body(start..end, 1) {
            Ok(body) => body,
            Err(e) => {
                return Err(e);
            },
        };
        let mut attributes: Vec<Attribute> = Vec::new();
        attributes.push(
            Attribute {
                name: "origin".to_owned(),
                value: self.origin.clone(),
                origin: Origin { source: self.origin.clone(), offset: 0, depth: 0, token_length: end - start },
            },
        );
        let el = Element {
            name: "fragment".to_owned(),
            attributes,
            body,
            origin: Origin { source: self.origin.clone(), offset: 0, depth: 0, token_length: end - start },
        };
        assert(attributes_view(el.attributes@) =~= seq![el.attributes@[0]@]);
        Ok(el)
    }
}

/// Parses the text of the source file at `path` into its tree.
pub fn parse_source(source: &str, path: &str) -> (res: Result<Element, SiteError>)
    requires
        source.spec_bytes().len() < usize::MAX,
    ensures
        res matches Ok(tree) ==> patterns_valid() && document(source.spec_bytes(), path@) == Ok::<ElementView, ErrorView>(
            tree@,
        ) && node_within(BodyView::Element(tree@), path@, 0, source.spec_bytes().len(), 0) && node_ordered(
            BodyView::Element(tree@),
        ),
        res matches Err(e) ==> if patterns_valid() {
            document(source.spec_bytes(), path@) == Err::<ElementView, ErrorView>(e@)
        } else {
            e@ == ErrorView::RegexError
        },
        res matches Err(e) ==> !is_refusal(e@),
{
    let mut cx = match ParsingContext::new(source, path) {
        Ok(cx) => cx,
        Err(e) => {
            return Err(e);
        },
    };
    proof {
        assert(cx.window_bytes() =~= source.spec_bytes());
        lemma_document_origins(source.spec_bytes(), path@);
        lemma_document_ordered(source.spec_bytes(), path@);
    }
    cx.parse()
}

} // verus!
