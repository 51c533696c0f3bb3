//! The syntax tree and its mathematical model.

use vstd::prelude::*;

verus! {

/// Where a syntax node came from.
#[derive(Debug, Clone)]
pub struct Origin {
    /// Path of the source file.
    pub source: String,
    /// Byte offset of the node's first byte in that file.
    pub offset: usize,
    /// Nesting depth; the synthetic root is at depth 0.
    pub depth: usize,
    /// Length of the node's token in bytes.
    pub token_length: usize,
}

/// A decoded string literal.
#[derive(Debug, Clone)]
pub struct Literal {
    pub body: Vec<u8>,
    pub origin: Origin,
    pub is_byte_string: bool,
}

/// A script expression, kept as the raw text between its outermost braces.
#[derive(Debug, Clone)]
pub struct Expression {
    pub body: String,
    pub origin: Origin,
}

/// An attribute of a tag.
#[derive(Debug, Clone)]
pub struct Attribute {
    pub name: String,
    pub value: String,
    pub origin: Origin,
}

/// A tag with its attributes and children.
#[derive(Debug)]
pub struct Element {
    pub name: String,
    pub attributes: Vec<Attribute>,
    pub body: Vec<Body>,
    pub origin: Origin,
}

/// A child of an element.
#[derive(Debug)]
pub enum Body {
    Element(Element),
    Expression(Expression),
    Literal(Literal),
}

/// Model of an [`Origin`].
pub struct OriginView {
    pub source: Seq<char>,
    pub offset: nat,
    pub depth: nat,
    pub token_length: nat,
}

/// Model of a [`Literal`].
pub struct LiteralView {
    pub body: Seq<u8>,
    pub origin: OriginView,
    pub is_byte_string: bool,
}

/// Model of an [`Expression`].
pub struct ExpressionView {
    pub body: Seq<char>,
    pub origin: OriginView,
}

/// Model of an [`Attribute`].
pub struct AttributeView {
    pub name: Seq<char>,
    pub value: Seq<char>,
    pub origin: OriginView,
}

/// Model of an [`Element`].
pub struct ElementView {
    pub name: Seq<char>,
    pub attributes: Seq<AttributeView>,
    pub body: Seq<BodyView>,
    pub origin: OriginView,
}

/// Model of a [`Body`].
pub enum BodyView {
    Element(ElementView),
    Expression(ExpressionView),
    Literal(LiteralView),
}

impl View for Origin {
    type V = OriginView;

    open spec fn view(&self) -> OriginView {
        OriginView {
            source: self.source@,
            offset: self.offset as nat,
            depth: self.depth as nat,
            token_length: self.token_length as nat,
        }
    }
}

impl View for Literal {
    type V = LiteralView;

    open spec fn view(&self) -> LiteralView {
        LiteralView { body: self.body@, origin: self.origin@, is_byte_string: self.is_byte_string }
    }
}

impl View for Expression {
    type V = ExpressionView;

    open spec fn view(&self) -> ExpressionView {
        ExpressionView { body: self.body@, origin: self.origin@ }
    }
}

impl View for Attribute {
    type V = AttributeView;

    open spec fn view(&self) -> AttributeView {
        AttributeView { name: self.name@, value: self.value@, origin: self.origin@ }
    }
}

/// The models of a list of attributes.
pub open spec fn attributes_view(attributes: Seq<Attribute>) -> Seq<AttributeView> {
    Seq::new(attributes.len(), |i: int| attributes[i]@)
}

/// The model of an element.
pub open spec fn element_view(element: Element) -> ElementView
    decreases element,
{
    ElementView {
        name: element.name@,
        attributes: attributes_view(element.attributes@),
        body: bodies_view(element.body@),
        origin: element.origin@,
    }
}

/// The model of a child node.
pub open spec fn body_view(body: Body) -> BodyView
    decreases body,
{
    match body {
        Body::Element(element) => BodyView::Element(element_view(element)),
        Body::Expression(expression) => BodyView::Expression(expression@),
        Body::Literal(literal) => BodyView::Literal(literal@),
    }
}

/// The models of a list of child nodes, in order.
pub open spec fn bodies_view(bodies: Seq<Body>) -> Seq<BodyView>
    decreases bodies,
{
    if bodies.len() == 0 {
        Seq::empty()
    } else {
        bodies_view(bodies.drop_last()).push(body_view(bodies.last()))
    }
}

impl View for Element {
    type V = ElementView;

    open spec fn view(&self) -> ElementView {
        element_view(*self)
    }
}

impl View for Body {
    type V = BodyView;

    open spec fn view(&self) -> BodyView {
        body_view(*self)
    }
}

impl Origin {
    /// Length of the node's token in bytes.
    pub fn len(&self) -> (res: usize)
        ensures
            res == self.token_length,
    {
        self.token_length
    }

    /// A copy of the origin.
    pub fn duplicate(&self) -> (res: Origin)
        ensures
            res@ == self@,
    {
        Origin { source: self.source.clone(), offset: self.offset, depth: self.depth, token_length: self.token_length }
    }
}

impl Literal {
    /// A copy of the literal.
    pub fn duplicate(&self) -> (res: Literal)
        ensures
            res@ == self@,
    {
        let body = crate::text::copy_range(self.body.as_slice(), 0, self.body.len());
        assert(self.body@.subrange(0, self.body@.len() as int) =~= self.body@);
        Literal { body, origin: self.origin.duplicate(), is_byte_string: self.is_byte_string }
    }
}

impl Expression {
    /// A copy of the expression.
    pub fn duplicate(&self) -> (res: Expression)
        ensures
            res@ == self@,
    {
        Expression { body: self.body.clone(), origin: self.origin.duplicate() }
    }
}

impl Attribute {
    /// A copy of the attribute.
    pub fn duplicate(&self) -> (res: Attribute)
        ensures
            res@ == self@,
    {
        Attribute { name: self.name.clone(), value: self.value.clone(), origin: self.origin.duplicate() }
    }
}

/// A copy of a list of attributes.
pub fn duplicate_attributes(attributes: &Vec<Attribute>) -> (res: Vec<Attribute>)
    ensures
        attributes_view(res@) == attributes_view(attributes@),
{
    let mut out: Vec<Attribute> = Vec::new();
    let mut i: usize = 0;
    while i < attributes.len()
        invariant
            i <= attributes@.len(),
            out@.len() == i,
            forall|k: int| 0 <= k < i ==> out@[k]@ == attributes@[k]@,
        decreases attributes@.len() - i,
    {
        out.push(attributes[i].duplicate());
        i = i + 1;
    }
    assert(attributes_view(out@) =~= attributes_view(attributes@));
    out
}

/// A copy of a list of child nodes, subtrees included.
pub fn duplicate_bodies(bodies: &Vec<Body>) -> (res: Vec<Body>)
    ensures
        bodies_view(res@) == bodies_view(bodies@),
    decreases bodies,
{
    let mut out: Vec<Body> = Vec::new();
    let mut i: usize = 0;
    assert(bodies@.subrange(0, 0) =~= Seq::<Body>::empty());
    while i < bodies.len()
        invariant
            i <= bodies@.len(),
            bodies_view(out@) == bodies_view(bodies@.subrange(0, i as int)),
        decreases bodies@.len() - i,
    {
        let copy = bodies[i].duplicate();
        proof {
            lemma_bodies_view_push(out@, copy);
            lemma_bodies_view_push(bodies@.subrange(0, i as int), bodies@[i as int]);
            assert(bodies@.subrange(0, i as int).push(bodies@[i as int]) =~= bodies@.subrange(0, i + 1));
        }
        out.push(copy);
        i = i + 1;
    }
    assert(bodies@.subrange(0, i as int) =~= bodies@);
    out
}

impl Element {
    /// A copy of the element, subtree included.
    pub fn duplicate(&self) -> (res: Element)
        ensures
            res@ == self@,
        decreases self,
    {
        Element {
            name: self.name.clone(),
            attributes: duplicate_attributes(&self.attributes),
            body: duplicate_bodies(&self.body),
            origin: self.origin.duplicate(),
        }
    }
}

impl Body {
    /// A copy of the node, subtree included.
    pub fn duplicate(&self) -> (res: Body)
        ensures
            res@ == self@,
        decreases self,
    {
        match self {
            Body::Element(element) => Body::Element(element.duplicate()),
            Body::Expression(expression) => Body::Expression(expression.duplicate()),
            Body::Literal(literal) => Body::Literal(literal.duplicate()),
        }
    }
}

impl Body {
    /// The origin of the node, whatever its kind.
    pub fn origin(&self) -> (res: &Origin)
        ensures
            res@ == origin_of(self@),
    {
        match self {
            Body::Element(element) => &element.origin,
            Body::Expression(expression) => &expression.origin,
            Body::Literal(literal) => &literal.origin,
        }
    }
}

/// The origin recorded in a child node.
pub open spec fn origin_of(body: BodyView) -> OriginView {
    match body {
        BodyView::Element(element) => element.origin,
        BodyView::Expression(expression) => expression.origin,
        BodyView::Literal(literal) => literal.origin,
    }
}

/// The model of a list grows with the list.
pub proof fn lemma_bodies_view_push(bodies: Seq<Body>, body: Body)
    ensures
        bodies_view(bodies.push(body)) == bodies_view(bodies).push(body_view(body)),
{
    assert(bodies.push(body).drop_last() =~= bodies);
}

/// The model of a list has the list's length, and each entry is the model of
/// the node at the same place.
pub proof fn lemma_bodies_view_index(bodies: Seq<Body>)
    ensures
        bodies_view(bodies).len() == bodies.len(),
        forall|i: int| 0 <= i < bodies.len() ==> #[trigger] bodies_view(bodies)[i] == body_view(bodies[i]),
    decreases bodies.len(),
{
    if bodies.len() > 0 {
        lemma_bodies_view_index(bodies.drop_last());
    }
}

} // verus!
