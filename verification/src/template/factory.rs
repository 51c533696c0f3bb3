//! A first sketch of a page: the first element at every level of nesting.
//!
//! The sketch reads a source more coarsely than the parser does. It knows
//! tags only: at each level it passes over whitespace and comments, reads
//! one tag with its attributes and finds its closing tag, and goes on inside.
//! What follows the closing tag is left alone, a tag name is kept as it is
//! written, and every tag needs a closing tag.

use vstd::prelude::*;
use vstd::slice::slice_subrange;
use vstd::string::StrSliceExecFns;
use vstd::string::StringSliceAdditionalSpecFns;
use crate::error::build_err;
use crate::error::BuildError;
use crate::error::BuildErrorView;
use crate::error::ErrorView;
use crate::error::SiteError;
use crate::parse::element::read_tag_close;
use crate::parse::element::read_tag_open;
use crate::parse::grammar::skip_len;
use crate::parse::grammar::tag_close;
use crate::parse::grammar::tag_open;
use crate::parse::grammar::ATTRIBUTE;
use crate::parse::grammar::CLOSING;
use crate::parse::grammar::COMBINED;
use crate::parse::grammar::CSS_SELECTOR_SHORTHAND;
use crate::parse::grammar::GARBAGE;
use crate::parse::grammar::OPEN_OR_CLOSING_TAG;
use crate::parse::grammar::TAG_NAME;
use crate::parse::skip_garbage;
use crate::parse::tree::attributes_view;
use crate::parse::tree::AttributeView;
use crate::pattern::compile;
use crate::pattern::regex_valid;
use crate::pattern::Pattern;
use crate::text::text_range;
use crate::text::utf8_lossy;

verus! {

/// A node of a sketch, with the file and the offset it came from.
#[derive(Debug)]
#[allow(inconsistent_fields)]
pub enum Element {
    Element { name: String, attributes: Vec<Attribute>, body: Vec<Element>, origin: (String, usize) },
    Expression { body: String, origin: (String, usize) },
    String { body: String, origin: (String, usize) },
}

/// An attribute of a sketched element.
#[derive(Debug)]
pub struct Attribute {
    pub name: String,
    pub value: String,
    pub origin: (String, usize),
}

/// Model of a sketched [`Attribute`].
pub struct SketchAttributeView {
    pub name: Seq<char>,
    pub value: Seq<char>,
    pub origin: (Seq<char>, nat),
}

/// Model of a sketched [`Element`].
#[allow(inconsistent_fields)]
pub enum SketchView {
    Element { name: Seq<char>, attributes: Seq<SketchAttributeView>, body: Seq<SketchView>, origin: (Seq<char>, nat) },
    Expression { body: Seq<char>, origin: (Seq<char>, nat) },
    String { body: Seq<char>, origin: (Seq<char>, nat) },
}

impl View for Attribute {
    type V = SketchAttributeView;

    open spec fn view(&self) -> SketchAttributeView {
        SketchAttributeView { name: self.name@, value: self.value@, origin: (self.origin.0@, self.origin.1 as nat) }
    }
}

/// The models of a list of sketched attributes.
pub open spec fn sketch_attributes_view(attributes: Seq<Attribute>) -> Seq<SketchAttributeView> {
    Seq::new(attributes.len(), |i: int| attributes[i]@)
}

/// The model of a sketched element.
pub open spec fn sketch_view(element: Element) -> SketchView
    decreases element,
{
    match element {
        Element::Element { name, attributes, body, origin } => SketchView::Element {
            name: name@,
            attributes: sketch_attributes_view(attributes@),
            body: sketches_view(body@),
            origin: (origin.0@, origin.1 as nat),
        },
        Element::Expression { body, origin } => SketchView::Expression {
            body: body@,
            origin: (origin.0@, origin.1 as nat),
        },
        Element::String { body, origin } => SketchView::String { body: body@, origin: (origin.0@, origin.1 as nat) },
    }
}

/// The models of a list of sketched elements, in order.
pub open spec fn sketches_view(elements: Seq<Element>) -> Seq<SketchView>
    decreases elements,
{
    if elements.len() == 0 {
        Seq::empty()
    } else {
        sketches_view(elements.drop_last()).push(sketch_view(elements.last()))
    }
}

impl View for Element {
    type V = SketchView;

    open spec fn view(&self) -> SketchView {
        sketch_view(*self)
    }
}

/// A parsed attribute as the sketch keeps it: without depth and length.
pub open spec fn sketched_attribute(a: AttributeView) -> SketchAttributeView {
    SketchAttributeView { name: a.name, value: a.value, origin: (a.origin.source, a.origin.offset) }
}

/// A list of parsed attributes as the sketch keeps them.
pub open spec fn sketched_attributes(attributes: Seq<AttributeView>) -> Seq<SketchAttributeView> {
    Seq::new(attributes.len(), |i: int| sketched_attribute(attributes[i]))
}

/// The sketch of the window `w`: nothing if no tag follows the whitespace
/// at its start, else that one element, with the sketch of what lies between
/// its opening and its closing tag as its body.
pub open spec fn sketch_of(w: Seq<u8>, path: Seq<char>, base: nat) -> Result<Seq<SketchView>, ErrorView>
    decreases w.len(),
{
    let skip = skip_len(w);
    if skip > w.len() {
        Ok(Seq::empty())
    } else {
        let rest = w.subrange(skip as int, w.len() as int);
        match tag_open(rest, path, base + skip, 0) {
            Err(e) => if e == build_err(BuildErrorView::NotATag) {
                Ok(Seq::empty())
            } else {
                Err(e)
            },
            Ok(open) => match tag_close(rest, open.spans) {
                Err(e) => Err(e),
                Ok(close) => if !(0 < open.spans.open_end && 0 <= close.0 && open.spans.open_end + close.0
                    <= rest.len()) {
                    Err(build_err(BuildErrorView::NoClosingTag))
                } else {
                    match sketch_of(
                        rest.subrange(open.spans.open_end, open.spans.open_end + close.0),
                        path,
                        (base + skip + open.spans.open_end) as nat,
                    ) {
                        Err(e) => Err(e),
                        Ok(body) => Ok(
                            seq![
                                SketchView::Element {
                                    name: utf8_lossy(rest.subrange(open.spans.tag.0, open.spans.tag.1)),
                                    attributes: sketched_attributes(open.attributes),
                                    body,
                                    origin: (path, base + skip),
                                },
                            ],
                        ),
                    }
                },
            },
        }
    }
}

/// The sketch of a whole source file under its `template` root.
pub open spec fn sketch_page(src: Seq<u8>, path: Seq<char>) -> Result<SketchView, ErrorView> {
    match sketch_of(src, path, 0) {
        Err(e) => Err(e),
        Ok(body) => Ok(
            SketchView::Element { name: "template"@, attributes: Seq::empty(), body, origin: (path, 0) },
        ),
    }
}

/// Whether the regex engine accepts every pattern the sketch is built on.
pub open spec fn sketch_patterns_valid() -> bool {
    &&& regex_valid(TAG_NAME@)
    &&& regex_valid(CSS_SELECTOR_SHORTHAND@)
    &&& regex_valid(ATTRIBUTE@)
    &&& regex_valid(OPEN_OR_CLOSING_TAG@)
    &&& regex_valid(COMBINED@)
    &&& regex_valid(CLOSING@)
    &&& regex_valid(GARBAGE@)
}

/// The patterns that a sketch is made with.
pub struct SketchPatterns {
    pub combined: Pattern,
    pub attribute: Pattern,
    pub css_selector_shorthand: Pattern,
    pub closing: Pattern,
    pub garbage: Pattern,
}

impl SketchPatterns {
    /// The patterns are the parser's own.
    pub open spec fn wf(&self) -> bool {
        &&& self.combined@ == COMBINED@
        &&& self.attribute@ == ATTRIBUTE@
        &&& self.css_selector_shorthand@ == CSS_SELECTOR_SHORTHAND@
        &&& self.closing@ == CLOSING@
        &&& self.garbage@ == GARBAGE@
    }
}

/// Parsed attributes as the sketch keeps them.
pub fn sketch_attributes(attributes: Vec<crate::parse::tree::Attribute>) -> (res: Vec<Attribute>)
    ensures
        sketch_attributes_view(res@) == sketched_attributes(attributes_view(attributes@)),
{
    let mut out: Vec<Attribute> = Vec::new();
    let mut i: usize = 0;
    while i < attributes.len()
        invariant
            i <= attributes@.len(),
            out@.len() == i,
            forall|k: int| 0 <= k < i ==> out@[k]@ == sketched_attribute(attributes@[k]@),
        decreases attributes@.len() - i,
    {
        let a = &attributes[i];
        out.push(Attribute { name: a.name.clone(), value: a.value.clone(), origin: (a.origin.source.clone(), a.origin.offset) });
        i = i + 1;
    }
    assert(sketch_attributes_view(out@) =~= sketched_attributes(attributes_view(attributes@)));
    out
}

/// Sketches the bytes of `src` from `start` up to `end`.
pub fn sketch(patterns: &SketchPatterns, src: &[u8], path: &str, start: usize, end: usize) -> (res: Result<
    Vec<Element>,
    SiteError,
>)
    requires
        patterns.wf(),
        start <= end <= src@.len(),
    ensures
        res matches Ok(found) ==> sketch_of(src@.subrange(start as int, end as int), path@, start as nat) == Ok::<
            Seq<SketchView>,
            ErrorView,
        >(sketches_view(found@)),
        res matches Err(e) ==> sketch_of(src@.subrange(start as int, end as int), path@, start as nat) == Err::<
            Seq<SketchView>,
            ErrorView,
        >(e@),
    decreases end - start,
{
    let ghost w = src@.subrange(start as int, end as int);
    let at = skip_garbage(&patterns.garbage, src, start, end);
    let rest = slice_subrange(src, at, end);
    assert(w.subrange(at - start, w.len() as int) =~= rest@);
    let open = match read_tag_open(
        &patterns.combined,
        &patterns.attribute,
        &patterns.css_selector_shorthand,
        rest,
        path,
        at,
        0,
    ) {
        Ok(open) => open,
        Err(SiteError::BuildError(BuildError::NotATag)) => {
            let none: Vec<Element> = Vec::new();
            assert(sketches_view(none@) =~= Seq::<SketchView>::empty());
            return Ok(none);
        },
        Err(e) => {
            return Err(e);
        },
    };
    let close = match read_tag_close(&patterns.closing, rest, &open.parts) {
        Ok(close) => close,
        Err(e) => {
            return Err(e);
        },
    };
    let from: usize = at + open.parts.open_end;
    let to: usize = from + close.0;
    assert(rest@.subrange(open.parts.open_end as int, open.parts.open_end + close.0) =~= src@.subrange(
        from as int,
        to as int,
    ));
    let body = match sketch(patterns, src, path, from, to) {
        Ok(body) => body,
        Err(e) => {
            return Err(e);
        },
    };
    let name = text_range(rest, open.parts.tag.0, open.parts.tag.1);
    let element = Element::Element {
        name,
        attributes: sketch_attributes(open.attributes),
        body,
        origin: (path.to_owned(), at),
    };
    let mut out: Vec<Element> = Vec::new();
    out.push(element);
    proof {
        assert(out@.drop_last() =~= Seq::<Element>::empty());
        assert(sketches_view(Seq::<Element>::empty()) =~= Seq::<SketchView>::empty());
        assert(out@.last() == element);
        assert(sketches_view(out@) =~= seq![sketch_view(element)]);
    }
    Ok(out)
}

/// The sketch of a page and the file it was read from.
#[derive(Debug)]
pub struct PageFactory {
    parsed: Element,
    origin: String,
}

impl PageFactory {
    /// The sketch, under its `template` root.
    pub closed spec fn parsed(&self) -> SketchView {
        self.parsed@
    }

    /// The path of the source file.
    pub closed spec fn origin(&self) -> Seq<char> {
        self.origin@
    }

    /// Sketches the text of the source file at `origin`.
    pub fn new(source: &str, origin: &str) -> (res: Result<PageFactory, SiteError>)
        ensures
            res matches Ok(page) ==> sketch_patterns_valid() && page.origin() == origin@ && sketch_page(
                source.spec_bytes(),
                origin@,
            ) == Ok::<SketchView, ErrorView>(page.parsed()),
            res matches Err(e) ==> if sketch_patterns_valid() {
                sketch_page(source.spec_bytes(), origin@) == Err::<SketchView, ErrorView>(e@)
            } else {
                e@ == ErrorView::RegexError
            },
    {
        let tag_name = match compile(TAG_NAME) {
            Ok(p) => p,
            Err(e) => return Err(SiteError::RegexError(e)),
        };
        let css_selector_shorthand = match compile(CSS_SELECTOR_SHORTHAND) {
            Ok(p) => p,
            Err(e) => return Err(SiteError::RegexError(e)),
        };
        let attribute = match compile(ATTRIBUTE) {
            Ok(p) => p,
            Err(e) => return Err(SiteError::RegexError(e)),
        };
        let open_or_closing_tag = match compile(OPEN_OR_CLOSING_TAG) {
            Ok(p) => p,
            Err(e) => return Err(SiteError::RegexError(e)),
        };
        let combined = match compile(COMBINED) {
            Ok(p) => p,
            Err(e) => return Err(SiteError::RegexError(e)),
        };
        let closing = match compile(CLOSING) {
            Ok(p) => p,
            Err(e) => return Err(SiteError::RegexError(e)),
        };
        let garbage = match compile(GARBAGE) {
            Ok(p) => p,
            Err(e) => return Err(SiteError::RegexError(e)),
        };
        let patterns = SketchPatterns { combined, attribute, css_selector_shorthand, closing, garbage };
        let bytes = source.as_bytes_vec();
        let len: usize = bytes.len();
        assert(bytes@.subrange(0, len as int) =~= source.spec_bytes());
        let body = match sketch(&patterns, bytes.as_slice(), origin, 0, len) {
            Ok(body) => body,
            Err(e) => {
                return Err(e);
            },
        };
        let attributes: Vec<Attribute> = Vec::new();
        assert(sketch_attributes_view(attributes@) =~= Seq::<SketchAttributeView>::empty());
        let parsed = Element::Element { name: "template".to_owned(), attributes, body, origin: (origin.to_owned(), 0) };
        Ok(PageFactory { parsed, origin: origin.to_owned() })
    }

    /// The sketch, under its `template` root.
    pub fn tree(&self) -> (res: &Element)
        ensures
            res@ == self.parsed(),
    {
        &self.parsed
    }

    /// The path of the source file.
    pub fn path(&self) -> (res: &String)
        ensures
            res@ == self.origin(),
    {
        &self.origin
    }
}

} // verus!
