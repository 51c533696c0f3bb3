//! Template inheritance: blocks, parents and fragments.
//!
//! A page is resolved against the templates that have been loaded so far.
//! The walk never reads a file itself: where it meets a parent that is not
//! loaded yet, it stops and names the file, and the caller loads it and asks
//! again.
//!
//! * A `fragment` element is transparent: its resolved children take its place.
//! * A `block` element with a `parent` attribute stands for the parent
//!   template: the parent's resolved nodes take its place, and in them every
//!   slot of the block's name holds the block's own resolved body.
//! * A `block` element without a `parent` attribute is a slot. Inside a parent
//!   that is being filled by a block of the same name it holds that block's
//!   body; anywhere else its own resolved body takes its place.
//! * Any other element keeps its name, attributes and origin, and its body is
//!   resolved by the same rules. Expressions and literals stay as they are.

use vstd::prelude::*;
use crate::error::ErrorView;
use crate::error::SiteError;
use crate::parse::grammar::document;
use crate::parse::parse_source;
use crate::parse::patterns_valid;
use crate::parse::tree::bodies_view;
use crate::parse::tree::body_view;
use crate::parse::tree::duplicate_attributes;
use crate::parse::tree::duplicate_bodies;
use crate::parse::tree::lemma_bodies_view_index;
use crate::parse::tree::lemma_bodies_view_push;
use crate::parse::tree::Attribute;
use crate::parse::tree::AttributeView;
use crate::parse::tree::Body;
use crate::parse::tree::BodyView;
use crate::parse::tree::Element;
use crate::parse::tree::ElementView;
use crate::template::is_relative;
use crate::template::resolve_path;
use crate::template::resolved_path;
use vstd::string::StringSliceAdditionalSpecFns;

verus! {

/// How many parents deep a chain of templates may go.
pub const MAX_INHERITANCE: usize = 64;

/// A parsed source file.
#[derive(Debug)]
pub struct Template {
    pub path: String,
    pub root: Element,
}

/// Model of a [`Template`].
pub struct TemplateView {
    pub path: Seq<char>,
    pub root: ElementView,
}

impl View for Template {
    type V = TemplateView;

    open spec fn view(&self) -> TemplateView {
        TemplateView { path: self.path@, root: self.root@ }
    }
}

/// The models of a list of templates.
pub open spec fn templates_view(templates: Seq<Template>) -> Seq<TemplateView> {
    Seq::new(templates.len(), |i: int| templates[i]@)
}

/// The body that a block contributes to the slots of its parent.
#[derive(Debug)]
pub struct Fill {
    pub name: String,
    pub body: Vec<Body>,
}

/// Model of a [`Fill`].
pub struct FillView {
    pub name: Seq<char>,
    pub body: Seq<BodyView>,
}

impl View for Fill {
    type V = FillView;

    open spec fn view(&self) -> FillView {
        FillView { name: self.name@, body: bodies_view(self.body@) }
    }
}

/// Why a walk stopped before the tree was resolved.
#[derive(Debug)]
pub enum Halt {
    /// The template at this path is needed and not loaded.
    Load(String),
    /// The page cannot be resolved.
    Fail(SiteError),
}

/// Model of a [`Halt`].
pub enum HaltView {
    Load(Seq<char>),
    Fail(ErrorView),
}

impl View for Halt {
    type V = HaltView;

    open spec fn view(&self) -> HaltView {
        match *self {
            Halt::Load(path) => HaltView::Load(path@),
            Halt::Fail(e) => HaltView::Fail(e@),
        }
    }
}

/// What the caller is to do next for a page.
#[derive(Debug)]
pub enum Action {
    /// Load the template at this path, hand it over, and ask again.
    Load(String),
    /// The page is resolved; this is its tree.
    Finish(Element),
}

/// Model of an [`Action`].
pub enum ActionView {
    Load(Seq<char>),
    Finish(ElementView),
}

impl View for Action {
    type V = ActionView;

    open spec fn view(&self) -> ActionView {
        match *self {
            Action::Load(path) => ActionView::Load(path@),
            Action::Finish(tree) => ActionView::Finish(tree@),
        }
    }
}

/// The value of the last attribute called `name`.
pub open spec fn attribute_value(attributes: Seq<AttributeView>, name: Seq<char>) -> Option<Seq<char>>
    decreases attributes.len(),
{
    if attributes.len() == 0 {
        None
    } else if attributes.last().name == name {
        Some(attributes.last().value)
    } else {
        attribute_value(attributes.drop_last(), name)
    }
}

/// The name of a block or slot: its `name` attribute, or the empty name.
pub open spec fn slot_name(attributes: Seq<AttributeView>) -> Seq<char> {
    match attribute_value(attributes, "name"@) {
        Some(name) => name,
        None => Seq::empty(),
    }
}

/// The index of the first template at or after `from` that was read from `path`.
pub open spec fn find_template(loaded: Seq<TemplateView>, path: Seq<char>, from: int) -> Option<int>
    decreases loaded.len() - from,
{
    if from < 0 || from >= loaded.len() {
        None
    } else if loaded[from].path == path {
        Some(from)
    } else {
        find_template(loaded, path, from + 1)
    }
}

/// The resolved form of a list of sibling nodes of the file `file`.
pub open spec fn resolve_nodes(
    nodes: Seq<BodyView>,
    file: Seq<char>,
    fill: Option<FillView>,
    loaded: Seq<TemplateView>,
    config: Seq<char>,
    fuel: nat,
) -> Result<Seq<BodyView>, HaltView>
    decreases fuel, nodes,
{
    if nodes.len() == 0 {
        Ok(Seq::empty())
    } else {
        match resolve_nodes(nodes.drop_last(), file, fill, loaded, config, fuel) {
            Err(halt) => Err(halt),
            Ok(before) => match resolve_node(nodes.last(), file, fill, loaded, config, fuel) {
                Err(halt) => Err(halt),
                Ok(these) => Ok(before + these),
            },
        }
    }
}

/// The nodes that take the place of `node` in the resolved tree.
pub open spec fn resolve_node(
    node: BodyView,
    file: Seq<char>,
    fill: Option<FillView>,
    loaded: Seq<TemplateView>,
    config: Seq<char>,
    fuel: nat,
) -> Result<Seq<BodyView>, HaltView>
    decreases fuel, node,
{
    match node {
        BodyView::Expression(_) => Ok(seq![node]),
        BodyView::Literal(_) => Ok(seq![node]),
        BodyView::Element(el) => match resolve_nodes(el.body, file, fill, loaded, config, fuel) {
            Err(halt) => Err(halt),
            Ok(own) => if el.name == "fragment"@ {
                Ok(own)
            } else if el.name == "block"@ {
                match attribute_value(el.attributes, "parent"@) {
                    Some(reference) => {
                        let path = resolved_path(reference, file, config);
                        if fuel == 0 {
                            Err(HaltView::Fail(ErrorView::InheritanceTooDeep))
                        } else {
                            match find_template(loaded, path, 0) {
                                None => Err(HaltView::Load(path)),
                                Some(i) => if 0 <= i < loaded.len() {
                                    resolve_nodes(
                                        loaded[i].root.body,
                                        path,
                                        Some(FillView { name: slot_name(el.attributes), body: own }),
                                        loaded,
                                        config,
                                        (fuel - 1) as nat,
                                    )
                                } else {
                                    Err(HaltView::Load(path))
                                },
                            }
                        }
                    },
                    None => match fill {
                        Some(f) => if f.name == slot_name(el.attributes) {
                            Ok(f.body)
                        } else {
                            Ok(own)
                        },
                        None => Ok(own),
                    },
                }
            } else {
                Ok(
                    seq![
                        BodyView::Element(
                            ElementView { name: el.name, attributes: el.attributes, body: own, origin: el.origin },
                        ),
                    ],
                )
            },
        },
    }
}

/// What is to be done next for `page`, given the templates loaded so far:
/// its resolved tree under a `template` root, or the file to load first.
pub open spec fn resolve_page(page: TemplateView, loaded: Seq<TemplateView>, config: Seq<char>) -> Result<ActionView, ErrorView> {
    match resolve_nodes(page.root.body, page.path, None, loaded, config, MAX_INHERITANCE as nat) {
        Ok(body) => Ok(
            ActionView::Finish(
                ElementView { name: "template"@, attributes: page.root.attributes, body, origin: page.root.origin },
            ),
        ),
        Err(HaltView::Load(path)) => Ok(ActionView::Load(path)),
        Err(HaltView::Fail(e)) => Err(e),
    }
}

/// Whether no `fragment` and no `block` element is left in `node`.
pub open spec fn node_is_resolved(node: BodyView) -> bool
    decreases node,
{
    match node {
        BodyView::Element(el) => el.name != "fragment"@ && el.name != "block"@ && nodes_are_resolved(el.body),
        _ => true,
    }
}

/// Whether no `fragment` and no `block` element is left in `nodes`.
pub open spec fn nodes_are_resolved(nodes: Seq<BodyView>) -> bool
    decreases nodes,
{
    nodes.len() == 0 || (nodes_are_resolved(nodes.drop_last()) && node_is_resolved(nodes.last()))
}

/// A resolved node alone makes a resolved list.
pub proof fn lemma_resolved_single(node: BodyView)
    requires
        node_is_resolved(node),
    ensures
        nodes_are_resolved(seq![node]),
{
    assert(seq![node].drop_last() =~= Seq::<BodyView>::empty());
    assert(nodes_are_resolved(Seq::<BodyView>::empty()));
    assert(seq![node].last() == node);
}

/// Two resolved lists make a resolved list.
pub proof fn lemma_resolved_concat(a: Seq<BodyView>, b: Seq<BodyView>)
    requires
        nodes_are_resolved(a),
        nodes_are_resolved(b),
    ensures
        nodes_are_resolved(a + b),
    decreases b.len(),
{
    if b.len() == 0 {
        assert(a + b =~= a);
    } else {
        lemma_resolved_concat(a, b.drop_last());
        assert((a + b).drop_last() =~= a + b.drop_last());
        assert((a + b).last() == b.last());
    }
}

/// Resolution leaves no structural node behind: whatever a walk puts in the
/// place of a list of nodes holds no `fragment` and no `block` element.
pub proof fn lemma_resolution_is_complete(
    nodes: Seq<BodyView>,
    file: Seq<char>,
    fill: Option<FillView>,
    loaded: Seq<TemplateView>,
    config: Seq<char>,
    fuel: nat,
)
    requires
        fill matches Some(f) ==> nodes_are_resolved(f.body),
    ensures
        resolve_nodes(nodes, file, fill, loaded, config, fuel) matches Ok(out) ==> nodes_are_resolved(out),
    decreases fuel, nodes,
{
    if nodes.len() > 0 {
        lemma_resolution_is_complete(nodes.drop_last(), file, fill, loaded, config, fuel);
        lemma_node_resolution_is_complete(nodes.last(), file, fill, loaded, config, fuel);
        if let Ok(before) = resolve_nodes(nodes.drop_last(), file, fill, loaded, config, fuel) {
            if let Ok(these) = resolve_node(nodes.last(), file, fill, loaded, config, fuel) {
                lemma_resolved_concat(before, these);
            }
        }
    }
}

/// Resolution leaves no structural node behind: whatever a walk puts in the
/// place of one node holds no `fragment` and no `block` element.
pub proof fn lemma_node_resolution_is_complete(
    node: BodyView,
    file: Seq<char>,
    fill: Option<FillView>,
    loaded: Seq<TemplateView>,
    config: Seq<char>,
    fuel: nat,
)
    requires
        fill matches Some(f) ==> nodes_are_resolved(f.body),
    ensures
        resolve_node(node, file, fill, loaded, config, fuel) matches Ok(out) ==> nodes_are_resolved(out),
    decreases fuel, node,
{
    match node {
        BodyView::Expression(_) => {
            lemma_resolved_single(node);
        },
        BodyView::Literal(_) => {
            lemma_resolved_single(node);
        },
        BodyView::Element(el) => {
            lemma_resolution_is_complete(el.body, file, fill, loaded, config, fuel);
            if let Ok(own) = resolve_nodes(el.body, file, fill, loaded, config, fuel) {
                if el.name == "fragment"@ {
                } else if el.name == "block"@ {
                    if let Some(reference) = attribute_value(el.attributes, "parent"@) {
                        let path = resolved_path(reference, file, config);
                        if fuel > 0 {
                            if let Some(i) = find_template(loaded, path, 0) {
                                if 0 <= i < loaded.len() {
                                    lemma_resolution_is_complete(
                                        loaded[i].root.body,
                                        path,
                                        Some(FillView { name: slot_name(el.attributes), body: own }),
                                        loaded,
                                        config,
                                        (fuel - 1) as nat,
                                    );
                                }
                            }
                        }
                    }
                } else {
                    let kept = BodyView::Element(
                        ElementView { name: el.name, attributes: el.attributes, body: own, origin: el.origin },
                    );
                    lemma_resolved_single(kept);
                }
            }
        },
    }
}

/// Expressions and literals pass through: each stands in the resolved tree
/// as it stood in the page.
pub proof fn lemma_leaves_pass_through(
    node: BodyView,
    file: Seq<char>,
    fill: Option<FillView>,
    loaded: Seq<TemplateView>,
    config: Seq<char>,
    fuel: nat,
)
    requires
        !(node is Element),
    ensures
        resolve_node(node, file, fill, loaded, config, fuel) == Ok::<Seq<BodyView>, HaltView>(seq![node]),
{
}

/// A fragment is transparent: what takes its place is what takes the place
/// of its children, spliced in where the fragment stood.
pub proof fn lemma_fragment_is_transparent(
    fragment: ElementView,
    before: Seq<BodyView>,
    file: Seq<char>,
    fill: Option<FillView>,
    loaded: Seq<TemplateView>,
    config: Seq<char>,
    fuel: nat,
)
    requires
        fragment.name == "fragment"@,
    ensures
        resolve_node(BodyView::Element(fragment), file, fill, loaded, config, fuel) == resolve_nodes(
            fragment.body,
            file,
            fill,
            loaded,
            config,
            fuel,
        ),
        resolve_nodes(before.push(BodyView::Element(fragment)), file, fill, loaded, config, fuel) == match (
            resolve_nodes(before, file, fill, loaded, config, fuel),
            resolve_nodes(fragment.body, file, fill, loaded, config, fuel),
        ) {
            (Ok(first), Ok(children)) => Ok(first + children),
            (Err(halt), _) => Err(halt),
            (Ok(_), Err(halt)) => Err(halt),
        },
{
    assert(before.push(BodyView::Element(fragment)).drop_last() =~= before);
}

/// A page that resolves holds no `fragment` and no `block` element anywhere,
/// its root included.
pub proof fn lemma_page_is_resolved(page: TemplateView, loaded: Seq<TemplateView>, config: Seq<char>)
    ensures
        resolve_page(page, loaded, config) matches Ok(ActionView::Finish(tree)) ==> node_is_resolved(
            BodyView::Element(tree),
        ),
{
    lemma_resolution_is_complete(page.root.body, page.path, None, loaded, config, MAX_INHERITANCE as nat);
    reveal_strlit("template");
    reveal_strlit("fragment");
    reveal_strlit("block");
    assert("template"@[0] != "fragment"@[0]);
    assert("template"@.len() != "block"@.len());
}

/// The model of two lists joined is the models joined.
pub proof fn lemma_bodies_view_concat(a: Seq<Body>, b: Seq<Body>)
    ensures
        bodies_view(a + b) == bodies_view(a) + bodies_view(b),
    decreases b.len(),
{
    if b.len() == 0 {
        assert(a + b =~= a);
        assert(bodies_view(a) + bodies_view(b) =~= bodies_view(a));
    } else {
        lemma_bodies_view_concat(a, b.drop_last());
        assert((a + b).drop_last() =~= a + b.drop_last());
        assert((a + b).last() == b.last());
        assert(bodies_view(a) + bodies_view(b) =~= (bodies_view(a) + bodies_view(b.drop_last())).push(
            body_view(b.last()),
        ));
    }
}

/// Whether `text` spells `word`.
pub fn spells(text: &String, word: &str) -> (res: bool)
    ensures
        res == (text@ == word@),
{
    *text == word.to_owned()
}

/// The value of the last attribute called `name`.
pub fn find_attribute<'a>(attributes: &'a Vec<Attribute>, name: &str) -> (res: Option<&'a String>)
    ensures
        res matches Some(value) ==> attribute_value(crate::parse::tree::attributes_view(attributes@), name@) == Some(
            value@,
        ),
        res is None ==> attribute_value(crate::parse::tree::attributes_view(attributes@), name@) is None,
{
    let ghost all = crate::parse::tree::attributes_view(attributes@);
    let mut end: usize = attributes.len();
    assert(all.subrange(0, end as int) =~= all);
    while end > 0
        invariant
            end <= attributes@.len(),
            all == crate::parse::tree::attributes_view(attributes@),
            attribute_value(all, name@) == attribute_value(all.subrange(0, end as int), name@),
        decreases end,
    {
        let ghost here = all.subrange(0, end as int);
        assert(here.last() == attributes@[end - 1]@);
        assert(here.drop_last() =~= all.subrange(0, end - 1));
        if spells(&attributes[end - 1].name, name) {
            return Some(&attributes[end - 1].value);
        }
        end = end - 1;
    }
    None
}

/// The name of a block or slot.
pub fn slot_name_of(attributes: &Vec<Attribute>) -> (res: String)
    ensures
        res@ == slot_name(crate::parse::tree::attributes_view(attributes@)),
{
    match find_attribute(attributes, "name") {
        Some(name) => name.clone(),
        None => String::new(),
    }
}

/// The first loaded template that was read from `path`.
pub fn find_loaded<'a>(loaded: &'a Vec<Template>, path: &String) -> (res: Option<&'a Template>)
    ensures
        res matches Some(t) ==> find_template(templates_view(loaded@), path@, 0) matches Some(i) && 0 <= i
            < loaded@.len() && templates_view(loaded@)[i] == t@,
        res is None ==> find_template(templates_view(loaded@), path@, 0) is None,
{
    let mut i: usize = 0;
    while i < loaded.len()
        invariant
            i <= loaded@.len(),
            find_template(templates_view(loaded@), path@, 0) == find_template(
                templates_view(loaded@),
                path@,
                i as int,
            ),
        decreases loaded@.len() - i,
    {
        if loaded[i].path == *path {
            return Some(&loaded[i]);
        }
        i = i + 1;
    }
    None
}

/// The model of an optional fill.
pub open spec fn fill_view(fill: Option<&Fill>) -> Option<FillView> {
    match fill {
        Some(f) => Some(f@),
        None => None,
    }
}

/// Resolves a list of sibling nodes of the file `file`, given the templates
/// loaded so far and what fills the slots.
pub fn resolve_body(
    nodes: &Vec<Body>,
    file: &str,
    fill: Option<&Fill>,
    loaded: &Vec<Template>,
    config: &str,
    fuel: usize,
) -> (res: Result<Vec<Body>, Halt>)
    requires
        !is_relative(config@),
    ensures
        res matches Ok(out) ==> resolve_nodes(
            bodies_view(nodes@),
            file@,
            fill_view(fill),
            templates_view(loaded@),
            config@,
            fuel as nat,
        ) == Ok::<Seq<BodyView>, HaltView>(bodies_view(out@)),
        res matches Err(halt) ==> resolve_nodes(
            bodies_view(nodes@),
            file@,
            fill_view(fill),
            templates_view(loaded@),
            config@,
            fuel as nat,
        ) == Err::<Seq<BodyView>, HaltView>(halt@),
    decreases fuel, nodes,
{
    let mut out: Vec<Body> = Vec::new();
    let mut i: usize = 0;
    assert(nodes@.subrange(0, 0) =~= Seq::<Body>::empty());
    while i < nodes.len()
        invariant
            i <= nodes@.len(),
            !is_relative(config@),
            resolve_nodes(
                bodies_view(nodes@.subrange(0, i as int)),
                file@,
                fill_view(fill),
                templates_view(loaded@),
                config@,
                fuel as nat,
            ) == Ok::<Seq<BodyView>, HaltView>(bodies_view(out@)),
        decreases nodes@.len() - i,
    {
        let ghost before = nodes@.subrange(0, i as int);
        let ghost next = nodes@.subrange(0, i + 1);
        proof {
            assert(before.push(nodes@[i as int]) =~= next);
            lemma_bodies_view_push(before, nodes@[i as int]);
            assert(bodies_view(next).drop_last() =~= bodies_view(before));
            assert(bodies_view(next).last() == body_view(nodes@[i as int]));
        }
        let mut these = match resolve_one(&nodes[i], file, fill, loaded, config, fuel) {
            Ok(these) => these,
            Err(halt) => {
                proof {
                    lemma_bodies_view_index(nodes@);
                    lemma_bodies_view_prefix(nodes@, i + 1);
                    lemma_resolve_prefix_halts(
                        bodies_view(nodes@),
                        i + 1,
                        file@,
                        fill_view(fill),
                        templates_view(loaded@),
                        config@,
                        fuel as nat,
                    );
                }
                return Err(halt);
            },
        };
        proof {
            lemma_bodies_view_concat(out@, these@);
        }
        out.append(&mut these);
        i = i + 1;
    }
    assert(nodes@.subrange(0, i as int) =~= nodes@);
    Ok(out)
}

/// The model of a prefix of a list is the prefix of the list's model.
pub proof fn lemma_bodies_view_prefix(bodies: Seq<Body>, n: int)
    requires
        0 <= n <= bodies.len(),
    ensures
        bodies_view(bodies.subrange(0, n)) == bodies_view(bodies).subrange(0, n),
{
    lemma_bodies_view_index(bodies);
    lemma_bodies_view_index(bodies.subrange(0, n));
    assert(bodies_view(bodies.subrange(0, n)) =~= bodies_view(bodies).subrange(0, n));
}

/// A walk that halts on the first `n` nodes halts the same way on all of them.
pub proof fn lemma_resolve_prefix_halts(
    nodes: Seq<BodyView>,
    n: int,
    file: Seq<char>,
    fill: Option<FillView>,
    loaded: Seq<TemplateView>,
    config: Seq<char>,
    fuel: nat,
)
    requires
        0 <= n <= nodes.len(),
        resolve_nodes(nodes.subrange(0, n), file, fill, loaded, config, fuel) is Err,
    ensures
        resolve_nodes(nodes, file, fill, loaded, config, fuel) == resolve_nodes(
            nodes.subrange(0, n),
            file,
            fill,
            loaded,
            config,
            fuel,
        ),
    decreases nodes.len() - n,
{
    if n < nodes.len() {
        assert(nodes.subrange(0, n + 1).drop_last() =~= nodes.subrange(0, n));
        lemma_resolve_prefix_halts(nodes, n + 1, file, fill, loaded, config, fuel);
    } else {
        assert(nodes.subrange(0, n) =~= nodes);
    }
}

/// Resolves one node: yields the nodes that take its place.
pub fn resolve_one(
    node: &Body,
    file: &str,
    fill: Option<&Fill>,
    loaded: &Vec<Template>,
    config: &str,
    fuel: usize,
) -> (res: Result<Vec<Body>, Halt>)
    requires
        !is_relative(config@),
    ensures
        res matches Ok(out) ==> resolve_node(
            body_view(*node),
            file@,
            fill_view(fill),
            templates_view(loaded@),
            config@,
            fuel as nat,
        ) == Ok::<Seq<BodyView>, HaltView>(bodies_view(out@)),
        res matches Err(halt) ==> resolve_node(
            body_view(*node),
            file@,
            fill_view(fill),
            templates_view(loaded@),
            config@,
            fuel as nat,
        ) == Err::<Seq<BodyView>, HaltView>(halt@),
    decreases fuel, node,
{
    let el = match node {
        Body::Element(el) => el,
        _ => {
            let mut out: Vec<Body> = Vec::new();
            let copy = node.duplicate();
            proof {
                lemma_bodies_view_push(out@, copy);
                assert(bodies_view(out@) =~= Seq::<BodyView>::empty());
            }
            out.push(copy);
            assert(bodies_view(out@) =~= seq![body_view(*node)]);
            return Ok(out);
        },
    };
    let own = match resolve_body(&el.body, file, fill, loaded, config, fuel) {
        Ok(own) => own,
        Err(halt) => {
            return Err(halt);
        },
    };
    if spells(&el.name, "fragment") {
        return Ok(own);
    }
    if spells(&el.name, "block") {
        match find_attribute(&el.attributes, "parent") {
            Some(reference) => {
                let path = resolve_path(reference.as_str(), file, config);
                if fuel == 0 {
                    return Err(Halt::Fail(SiteError::InheritanceTooDeep));
                }
                match find_loaded(loaded, &path) {
                    None => Err(Halt::Load(path)),
                    Some(parent) => {
                        let inner = Fill { name: slot_name_of(&el.attributes), body: own };
                        resolve_body(&parent.root.body, path.as_str(), Some(&inner), loaded, config, fuel - 1)
                    },
                }
            },
            None => match fill {
                Some(f) => {
                    let wanted = slot_name_of(&el.attributes);
                    if f.name == wanted {
                        Ok(duplicate_bodies(&f.body))
                    } else {
                        Ok(own)
                    }
                },
                None => Ok(own),
            },
        }
    } else {
        let kept = Body::Element(
            Element {
                name: el.name.clone(),
                attributes: duplicate_attributes(&el.attributes),
                body: own,
                origin: el.origin.duplicate(),
            },
        );
        let mut out: Vec<Body> = Vec::new();
        proof {
            lemma_bodies_view_push(out@, kept);
            assert(bodies_view(out@) =~= Seq::<BodyView>::empty());
        }
        out.push(kept);
        assert(bodies_view(out@) =~= seq![body_view(kept)]);
        Ok(out)
    }
}

/// The resolution of one page: the page, the templates loaded for it so
/// far, and the path of the site's configuration file.
pub struct Resolver {
    page: Template,
    loaded: Vec<Template>,
    site_config: String,
}

impl Resolver {
    /// The page under resolution.
    pub closed spec fn page(&self) -> TemplateView {
        self.page@
    }

    /// The templates loaded so far, in the order they were supplied.
    pub closed spec fn loaded(&self) -> Seq<TemplateView> {
        templates_view(self.loaded@)
    }

    /// The path of the site's configuration file.
    pub closed spec fn site_config(&self) -> Seq<char> {
        self.site_config@
    }

    /// The configuration file has an absolute path.
    pub closed spec fn wf(&self) -> bool {
        !is_relative(self.site_config@)
    }

    /// Starts the resolution of `page` with no template loaded.
    pub fn new(page: Template, site_config: String) -> (res: Resolver)
        requires
            !is_relative(site_config@),
        ensures
            res.wf(),
            res.page() == page@,
            res.loaded() == Seq::<TemplateView>::empty(),
            res.site_config() == site_config@,
    {
        let res = Resolver { page, loaded: Vec::new(), site_config };
        assert(res.loaded() =~= Seq::<TemplateView>::empty());
        res
    }

    /// Decides what to do next: finish with the resolved tree, or load the
    /// one template that the walk needs first. A finished tree holds no
    /// `fragment` and no `block` element.
    pub fn next(&self) -> (res: Result<Action, SiteError>)
        requires
            self.wf(),
        ensures
            res matches Ok(action) ==> resolve_page(self.page(), self.loaded(), self.site_config()) == Ok::<
                ActionView,
                ErrorView,
            >(action@),
            res matches Err(e) ==> resolve_page(self.page(), self.loaded(), self.site_config()) == Err::<
                ActionView,
                ErrorView,
            >(e@),
            res matches Ok(Action::Finish(tree)) ==> node_is_resolved(BodyView::Element(tree@)),
    {
        proof {
            lemma_page_is_resolved(self.page(), self.loaded(), self.site_config());
        }
        match resolve_body(
            &self.page.root.body,
            self.page.path.as_str(),
            None,
            &self.loaded,
            self.site_config.as_str(),
            MAX_INHERITANCE,
        ) {
            Ok(body) => Ok(
                Action::Finish(
                    Element {
                        name: "template".to_owned(),
                        attributes: duplicate_attributes(&self.page.root.attributes),
                        body,
                        origin: self.page.root.origin.duplicate(),
                    },
                ),
            ),
            Err(Halt::Load(path)) => Ok(Action::Load(path)),
            Err(Halt::Fail(e)) => Err(e),
        }
    }

    /// Takes the outcome of loading the template at `path`: its text, or
    /// `None` if it could not be read. A template that could not be read, or
    /// that does not parse, fails the page.
    pub fn supply(&mut self, path: String, source: Option<&str>) -> (res: Result<(), SiteError>)
        requires
            old(self).wf(),
            source matches Some(text) ==> text.spec_bytes().len() < usize::MAX,
        ensures
            final(self).wf(),
            final(self).page() == old(self).page(),
            final(self).site_config() == old(self).site_config(),
            match (source, res) {
                (None, Err(e)) => e@ == ErrorView::LoadError(path@) && final(self).loaded() == old(self).loaded(),
                (None, Ok(_)) => false,
                (Some(text), Ok(_)) => patterns_valid() && match document(text.spec_bytes(), path@) {
                    Ok(tree) => final(self).loaded() == old(self).loaded().push(
                        (TemplateView { path: path@, root: tree }),
                    ),
                    Err(_) => false,
                },
                (Some(text), Err(e)) => final(self).loaded() == old(self).loaded() && (patterns_valid()
                    ==> document(text.spec_bytes(), path@) == Err::<ElementView, ErrorView>(e@)),
            },
    {
        let text = match source {
            Some(text) => text,
            None => {
                return Err(SiteError::LoadError(path));
            },
        };
        let root = match parse_source(text, path.as_str()) {
            Ok(root) => root,
            Err(e) => {
                return Err(e);
            },
        };
        let ghost before = self.loaded();
        self.loaded.push(Template { path, root });
        assert(self.loaded() =~= before.push(TemplateView { path: path@, root: root@ }));
        Ok(())
    }
}

} // verus!
