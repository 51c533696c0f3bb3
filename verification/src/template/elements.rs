//! The typed element tree that the renderer consumes.
//!
//! Every parsed element becomes a node of the kind that its tag name
//! selects. A node keeps the element it came from, its children as typed
//! nodes, and its attributes by name: of several attributes with one name
//! the last one stands.

use vstd::prelude::*;
use crate::parse::tree::attributes_view;
use crate::parse::tree::bodies_view;
use crate::parse::tree::body_view;
use crate::parse::tree::lemma_bodies_view_push;
use crate::parse::tree::Attribute;
use crate::parse::tree::AttributeView;
use crate::parse::tree::BodyView;
use crate::parse::tree::ElementView;
use crate::parse::tree::Expression;
use crate::parse::tree::ExpressionView;
use crate::parse::tree::Literal;
use crate::parse::tree::LiteralView;
use crate::template::resolver::spells;

verus! {

/// What every typed element offers to the renderer.
pub trait Element {
    /// The tag name, as a mathematical value.
    spec fn tag(&self) -> Seq<char>;

    /// The tag name.
    fn name(&self) -> (res: String)
        ensures
            res@ == self.tag(),
    ;

    /// The element as output text. Rendering is done downstream: every
    /// element renders to the empty text here.
    fn render(&self, depth: u64) -> (res: String)
        ensures
            res@ == Seq::<char>::empty(),
    ;
}

/// A child of a typed element.
#[derive(Debug)]
pub enum Body {
    Element(Node),
    Literal(Literal),
    Script(Expression),
}

/// A `block` element.
#[derive(Debug)]
pub struct BlockElement {
    pub source: crate::parse::tree::Element,
    pub body: Vec<Body>,
    pub attr: Vec<Attribute>,
}

/// A `template` element.
#[derive(Debug)]
pub struct TemplateElement {
    pub source: crate::parse::tree::Element,
    pub body: Vec<Body>,
    pub attr: Vec<Attribute>,
}

/// An `include` element.
#[derive(Debug)]
pub struct IncludeElement {
    pub source: crate::parse::tree::Element,
    pub body: Vec<Body>,
    pub attr: Vec<Attribute>,
}

/// A `component` element.
#[derive(Debug)]
pub struct ComponentElement {
    pub source: crate::parse::tree::Element,
    pub body: Vec<Body>,
    pub attr: Vec<Attribute>,
}

/// An `escape` element.
#[derive(Debug)]
pub struct EscapeElement {
    pub source: crate::parse::tree::Element,
    pub body: Vec<Body>,
    pub attr: Vec<Attribute>,
}

/// A `condition` element.
#[derive(Debug)]
pub struct ConditionElement {
    pub source: crate::parse::tree::Element,
    pub body: Vec<Body>,
    pub attr: Vec<Attribute>,
}

/// An element of any other name.
#[derive(Debug)]
pub struct GenericElement {
    pub attr: Vec<Attribute>,
    pub body: Vec<Body>,
    pub source: crate::parse::tree::Element,
}

/// A typed element of any kind.
#[derive(Debug)]
pub enum Node {
    Block(BlockElement),
    Template(TemplateElement),
    Include(IncludeElement),
    Component(ComponentElement),
    Escape(EscapeElement),
    Condition(ConditionElement),
    Generic(GenericElement),
}

/// Model of what every typed element holds.
pub struct PartsView {
    pub source: ElementView,
    pub body: Seq<TypedBodyView>,
    pub attr: Seq<AttributeView>,
}

/// Model of a [`Node`].
pub enum NodeView {
    Block(PartsView),
    Template(PartsView),
    Include(PartsView),
    Component(PartsView),
    Escape(PartsView),
    Condition(PartsView),
    Generic(PartsView),
}

/// Model of a typed [`Body`].
pub enum TypedBodyView {
    Element(NodeView),
    Literal(LiteralView),
    Script(ExpressionView),
}

/// The model of a typed element.
pub open spec fn node_view(node: Node) -> NodeView
    decreases node,
{
    match node {
        Node::Block(e) => NodeView::Block(
            PartsView { source: e.source@, body: typed_bodies_view(e.body@), attr: attributes_view(e.attr@) },
        ),
        Node::Template(e) => NodeView::Template(
            PartsView { source: e.source@, body: typed_bodies_view(e.body@), attr: attributes_view(e.attr@) },
        ),
        Node::Include(e) => NodeView::Include(
            PartsView { source: e.source@, body: typed_bodies_view(e.body@), attr: attributes_view(e.attr@) },
        ),
        Node::Component(e) => NodeView::Component(
            PartsView { source: e.source@, body: typed_bodies_view(e.body@), attr: attributes_view(e.attr@) },
        ),
        Node::Escape(e) => NodeView::Escape(
            PartsView { source: e.source@, body: typed_bodies_view(e.body@), attr: attributes_view(e.attr@) },
        ),
        Node::Condition(e) => NodeView::Condition(
            PartsView { source: e.source@, body: typed_bodies_view(e.body@), attr: attributes_view(e.attr@) },
        ),
        Node::Generic(e) => NodeView::Generic(
            PartsView { source: e.source@, body: typed_bodies_view(e.body@), attr: attributes_view(e.attr@) },
        ),
    }
}

/// The model of a typed child node.
pub open spec fn typed_body_view(body: Body) -> TypedBodyView
    decreases body,
{
    match body {
        Body::Element(node) => TypedBodyView::Element(node_view(node)),
        Body::Literal(literal) => TypedBodyView::Literal(literal@),
        Body::Script(expression) => TypedBodyView::Script(expression@),
    }
}

/// The models of a list of typed child nodes, in order.
pub open spec fn typed_bodies_view(bodies: Seq<Body>) -> Seq<TypedBodyView>
    decreases bodies,
{
    if bodies.len() == 0 {
        Seq::empty()
    } else {
        typed_bodies_view(bodies.drop_last()).push(typed_body_view(bodies.last()))
    }
}

impl View for Node {
    type V = NodeView;

    open spec fn view(&self) -> NodeView {
        node_view(*self)
    }
}

/// Whether an attribute behind index `i` has the name of attribute `i`.
pub open spec fn overridden(attributes: Seq<AttributeView>, i: int) -> bool {
    exists|j: int| i < j < attributes.len() && #[trigger] attributes[j].name == attributes[i].name
}

/// Of the first `n` attributes, those that no later attribute overrides.
pub open spec fn standing(attributes: Seq<AttributeView>, n: int) -> Seq<AttributeView>
    decreases n,
{
    if n <= 0 || n > attributes.len() {
        Seq::empty()
    } else if overridden(attributes, n - 1) {
        standing(attributes, n - 1)
    } else {
        standing(attributes, n - 1).push(attributes[n - 1])
    }
}

/// The attributes by name: for every name the last attribute of that name.
pub open spec fn attribute_map(attributes: Seq<AttributeView>) -> Seq<AttributeView> {
    standing(attributes, attributes.len() as int)
}

/// The kind of node that a tag name selects, holding `parts`.
pub open spec fn node_of(name: Seq<char>, parts: PartsView) -> NodeView {
    if name == "block"@ {
        NodeView::Block(parts)
    } else if name == "template"@ {
        NodeView::Template(parts)
    } else if name == "include"@ {
        NodeView::Include(parts)
    } else if name == "component"@ {
        NodeView::Component(parts)
    } else if name == "escape"@ {
        NodeView::Escape(parts)
    } else if name == "condition"@ {
        NodeView::Condition(parts)
    } else {
        NodeView::Generic(parts)
    }
}

/// What a typed element made from `element` holds.
pub open spec fn parts_of(element: ElementView) -> PartsView
    decreases element, 0nat,
{
    PartsView { source: element, body: typed_bodies(element.body), attr: attribute_map(element.attributes) }
}

/// The typed node that `element` becomes.
pub open spec fn typed(element: ElementView) -> NodeView
    decreases element, 1nat,
{
    node_of(element.name, parts_of(element))
}

/// The typed child that `body` becomes.
pub open spec fn typed_body(body: BodyView) -> TypedBodyView
    decreases body,
{
    match body {
        BodyView::Element(element) => TypedBodyView::Element(typed(element)),
        BodyView::Literal(literal) => TypedBodyView::Literal(literal),
        BodyView::Expression(expression) => TypedBodyView::Script(expression),
    }
}

/// The typed children that `bodies` become, in order.
pub open spec fn typed_bodies(bodies: Seq<BodyView>) -> Seq<TypedBodyView>
    decreases bodies,
{
    if bodies.len() == 0 {
        Seq::empty()
    } else {
        typed_bodies(bodies.drop_last()).push(typed_body(bodies.last()))
    }
}

/// Whether an attribute behind index `i` has the name of attribute `i`.
pub fn is_overridden(attributes: &Vec<Attribute>, i: usize) -> (res: bool)
    requires
        i < attributes@.len(),
    ensures
        res == overridden(attributes_view(attributes@), i as int),
{
    let n: usize = attributes.len();
    let mut j: usize = i + 1;
    while j < n
        invariant
            i < j <= attributes@.len(),
            n == attributes@.len(),
            forall|k: int| i < k < j ==> attributes@[k].name@ != attributes@[i as int].name@,
        decreases attributes@.len() - j,
    {
        if attributes[j].name == attributes[i].name {
            assert(attributes_view(attributes@)[j as int].name == attributes_view(attributes@)[i as int].name);
            return true;
        }
        j = j + 1;
    }
    assert forall|k: int| i < k < attributes@.len() implies attributes_view(attributes@)[k].name != attributes_view(
        attributes@,
    )[i as int].name by {
        assert(attributes@[k].name@ != attributes@[i as int].name@);
    }
    false
}

/// The attributes by name: for every name the last attribute of that name.
pub fn map_attributes(attributes: &Vec<Attribute>) -> (res: Vec<Attribute>)
    ensures
        attributes_view(res@) == attribute_map(attributes_view(attributes@)),
{
    let mut out: Vec<Attribute> = Vec::new();
    let mut i: usize = 0;
    assert(attributes_view(out@) =~= Seq::<AttributeView>::empty());
    while i < attributes.len()
        invariant
            i <= attributes@.len(),
            attributes_view(out@) == standing(attributes_view(attributes@), i as int),
        decreases attributes@.len() - i,
    {
        let ghost before = attributes_view(out@);
        if !is_overridden(attributes, i) {
            let copy = attributes[i].duplicate();
            out.push(copy);
            assert(attributes_view(out@) =~= before.push(attributes_view(attributes@)[i as int]));
        }
        i = i + 1;
    }
    out
}

/// The typed children that the children of a parsed element become.
pub fn type_bodies(bodies: &Vec<crate::parse::tree::Body>) -> (res: Vec<Body>)
    ensures
        typed_bodies_view(res@) == typed_bodies(bodies_view(bodies@)),
    decreases bodies,
{
    let mut out: Vec<Body> = Vec::new();
    let mut i: usize = 0;
    assert(bodies@.subrange(0, 0) =~= Seq::<crate::parse::tree::Body>::empty());
    while i < bodies.len()
        invariant
            i <= bodies@.len(),
            typed_bodies_view(out@) == typed_bodies(bodies_view(bodies@.subrange(0, i as int))),
        decreases bodies@.len() - i,
    {
        let ghost before = bodies@.subrange(0, i as int);
        proof {
            assert(before.push(bodies@[i as int]) =~= bodies@.subrange(0, i + 1));
            lemma_bodies_view_push(before, bodies@[i as int]);
            assert(bodies_view(before).push(body_view(bodies@[i as int])).drop_last() =~= bodies_view(before));
        }
        let child = match &bodies[i] {
            crate::parse::tree::Body::Element(element) => Body::Element(from_element(element)),
            crate::parse::tree::Body::Literal(literal) => Body::Literal(literal.duplicate()),
            crate::parse::tree::Body::Expression(expression) => Body::Script(expression.duplicate()),
        };
        let ghost prior = out@;
        let ghost view = body_view(bodies@[i as int]);
        assert(typed_body_view(child) == typed_body(view));
        out.push(child);
        assert(out@.drop_last() =~= prior);
        assert(typed_bodies_view(out@) == typed_bodies_view(prior).push(typed_body_view(child)));
        assert(bodies_view(bodies@.subrange(0, i + 1)) == bodies_view(before).push(view));
        assert(typed_bodies(bodies_view(before).push(view)) == typed_bodies(bodies_view(before)).push(
            typed_body(view),
        ));
        i = i + 1;
    }
    assert(bodies@.subrange(0, i as int) =~= bodies@);
    out
}

/// Turns a parsed element into the typed node that its tag name selects,
/// and its children likewise.
pub fn from_element(element: &crate::parse::tree::Element) -> (res: Node)
    ensures
        res@ == typed(element@),
    decreases element,
{
    let attr = map_attributes(&element.attributes);
    let body = type_bodies(&element.body);
    let source = element.duplicate();
    if spells(&element.name, "block") {
        Node::Block(BlockElement { source, body, attr })
    } else if spells(&element.name, "template") {
        Node::Template(TemplateElement { source, body, attr })
    } else if spells(&element.name, "include") {
        Node::Include(IncludeElement { source, body, attr })
    } else if spells(&element.name, "component") {
        Node::Component(ComponentElement { source, body, attr })
    } else if spells(&element.name, "escape") {
        Node::Escape(EscapeElement { source, body, attr })
    } else if spells(&element.name, "condition") {
        Node::Condition(ConditionElement { source, body, attr })
    } else {
        Node::Generic(GenericElement { source, body, attr })
    }
}

impl Element for BlockElement {
    open spec fn tag(&self) -> Seq<char> {
        self.source.name@
    }

    fn name(&self) -> (res: String) {
        self.source.name.clone()
    }

    fn render(&self, depth: u64) -> (res: String) {
        String::new()
    }
}

impl Element for TemplateElement {
    open spec fn tag(&self) -> Seq<char> {
        self.source.name@
    }

    fn name(&self) -> (res: String) {
        self.source.name.clone()
    }

    fn render(&self, depth: u64) -> (res: String) {
        String::new()
    }
}

impl Element for IncludeElement {
    open spec fn tag(&self) -> Seq<char> {
        self.source.name@
    }

    fn name(&self) -> (res: String) {
        self.source.name.clone()
    }

    fn render(&self, depth: u64) -> (res: String) {
        String::new()
    }
}

impl Element for ComponentElement {
    open spec fn tag(&self) -> Seq<char> {
        self.source.name@
    }

    fn name(&self) -> (res: String) {
        self.source.name.clone()
    }

    fn render(&self, depth: u64) -> (res: String) {
        String::new()
    }
}

impl Element for EscapeElement {
    open spec fn tag(&self) -> Seq<char> {
        self.source.name@
    }

    fn name(&self) -> (res: String) {
        self.source.name.clone()
    }

    fn render(&self, depth: u64) -> (res: String) {
        String::new()
    }
}

impl Element for ConditionElement {
    open spec fn tag(&self) -> Seq<char> {
        self.source.name@
    }

    fn name(&self) -> (res: String) {
        self.source.name.clone()
    }

    fn render(&self, depth: u64) -> (res: String) {
        String::new()
    }
}

impl Element for GenericElement {
    open spec fn tag(&self) -> Seq<char> {
        self.source.name@
    }

    fn name(&self) -> (res: String) {
        self.source.name.clone()
    }

    fn render(&self, depth: u64) -> (res: String) {
        String::new()
    }
}

impl Node {
    /// The parsed element that the node came from.
    pub fn source(&self) -> (res: &crate::parse::tree::Element)
        ensures
            res@ == node_source(self@),
    {
        match self {
            Node::Block(e) => &e.source,
            Node::Template(e) => &e.source,
            Node::Include(e) => &e.source,
            Node::Component(e) => &e.source,
            Node::Escape(e) => &e.source,
            Node::Condition(e) => &e.source,
            Node::Generic(e) => &e.source,
        }
    }
}

/// The parsed element that a node came from.
pub open spec fn node_source(node: NodeView) -> ElementView {
    match node {
        NodeView::Block(parts) => parts.source,
        NodeView::Template(parts) => parts.source,
        NodeView::Include(parts) => parts.source,
        NodeView::Component(parts) => parts.source,
        NodeView::Escape(parts) => parts.source,
        NodeView::Condition(parts) => parts.source,
        NodeView::Generic(parts) => parts.source,
    }
}

impl Element for Node {
    open spec fn tag(&self) -> Seq<char> {
        node_source(self@).name
    }

    fn name(&self) -> (res: String) {
        self.source().name.clone()
    }

    fn render(&self, depth: u64) -> (res: String) {
        String::new()
    }
}

impl ConditionElement {
    /// A `condition` node made from `element`, whatever its tag name.
    pub fn from_element(element: &crate::parse::tree::Element) -> (res: ConditionElement)
        ensures
            res.source@ == element@,
            typed_bodies_view(res.body@) == typed_bodies(element@.body),
            attributes_view(res.attr@) == attribute_map(element@.attributes),
    {
        ConditionElement {
            attr: map_attributes(&element.attributes),
            body: type_bodies(&element.body),
            source: element.duplicate(),
        }
    }
}

/// A typed node keeps the element it was made from, whatever its kind.
pub proof fn lemma_typed_keeps_source(element: ElementView)
    ensures
        node_source(typed(element)) == element,
{
}

} // verus!
