//! Tags: the opening tag with its attributes and selector shorthand, and the
//! search for the matching closing tag.

use vstd::prelude::*;
use vstd::slice::slice_subrange;
use vstd::string::StringExecFns;
use crate::error::BuildError;
use crate::error::BuildErrorView;
use crate::error::ErrorView;
use crate::error::SiteError;
use crate::parse::grammar::attribute_of;
use crate::parse::grammar::attributes_from;
use crate::parse::grammar::close_index;
use crate::parse::grammar::closing_span;
use crate::parse::grammar::explicit_attributes;
use crate::parse::grammar::head_within;
use crate::parse::grammar::is_closing;
use crate::parse::grammar::joined_classes;
use crate::parse::grammar::selector_attributes;
use crate::parse::grammar::selector_from;
use crate::parse::grammar::tag_spans;
use crate::parse::grammar::TagSpans;
use crate::parse::grammar::tag_edges;
use crate::parse::grammar::closes_itself;
use crate::parse::grammar::tag_close;
use crate::parse::grammar::tag_head;
use crate::parse::grammar::tag_open;
use crate::parse::grammar::TagOpenView;
use crate::parse::grammar::TagHeadView;
use crate::parse::grammar::ATTRIBUTE;
use crate::parse::grammar::CLOSING;
use crate::parse::grammar::COMBINED;
use crate::parse::grammar::CSS_SELECTOR_SHORTHAND;
use crate::parse::grammar::TAG_EDGE;
use crate::parse::literal::group_span;
use crate::parse::tree::attributes_view;
use crate::parse::tree::Attribute;
use crate::parse::tree::Origin;
use crate::pattern::captures_at;
use crate::pattern::captures_iter;
use crate::pattern::compile;
use crate::pattern::find_iter;
use crate::pattern::groups_view;
use crate::pattern::span_within;
use crate::pattern::Span;
use crate::pattern::Groups;
use crate::pattern::Pattern;
use crate::text::copy_range;
use crate::text::has_suffix;
use crate::text::text_of;
use crate::text::text_range;
use crate::text::to_lower_ascii;

verus! {

/// An opening tag as read from the source, with the place of its closing tag.
pub struct TagHead {
    /// The tag name, folded to lower case.
    pub name: String,
    /// Explicit attributes, then the synthetic ones of the selector shorthand.
    pub attributes: Vec<Attribute>,
    /// Length of the opening tag.
    pub open_end: usize,
    /// Span of the closing tag, counted from the end of the opening tag;
    /// `None` for a self-closing tag.
    pub close: Option<(usize, usize)>,
}

impl View for TagHead {
    type V = TagHeadView;

    open spec fn view(&self) -> TagHeadView {
        TagHeadView {
            name: self.name@,
            attributes: attributes_view(self.attributes@),
            open_end: self.open_end as int,
            close: match self.close {
                Some(close) => Some((close.0 as int, close.1 as int)),
                None => None,
            },
        }
    }
}

/// The attribute that one match of the attribute pattern in `text` stands for.
pub fn read_attribute(text: &[u8], groups: &Groups, path: &str, base: usize, depth: usize) -> (res: Option<Attribute>)
    requires
        base + text@.len() <= usize::MAX,
    ensures
        res matches Some(a) ==> attribute_of(text@, groups@, path@, base as nat, depth as nat) == Some(a@),
        res is None ==> attribute_of(text@, groups@, path@, base as nat, depth as nat) is None,
{
    let len: usize = text.len();
    let value = match group_span(groups, 2, len) {
        Some(v) => Some(v),
        None => group_span(groups, 3, len),
    };
    let name = group_span(groups, 1, len);
    let whole = group_span(groups, 0, len);
    match (value, name, whole) {
        (Some(v), Some(n), Some(whole)) => {
            let value_text = if v.1 - v.0 >= 2 {
                assert(text@.subrange(v.0 as int, v.1 as int).subrange(1, v.1 - v.0 - 1) =~= text@.subrange(
                    v.0 + 1,
                    v.1 - 1,
                ));
                text_range(text, v.0 + 1, v.1 - 1)
            } else {
                assert(text@.subrange(v.0 as int, v.0 as int) =~= Seq::<u8>::empty());
                text_range(text, v.0, v.0)
            };
            Some(
                Attribute {
                    name: text_range(text, n.0, n.1),
                    value: value_text,
                    origin: Origin {
                        source: path.to_owned(),
                        offset: base + whole.0,
                        depth,
                        token_length: whole.1 - whole.0,
                    },
                },
            )
        },
        _ => None,
    }
}

/// The attributes that a list of matches of the attribute pattern in
/// `text` stands for, in order.
pub fn attributes_from_matches(all: &Vec<Groups>, text: &[u8], path: &str, base: usize, depth: usize) -> (res: Vec<Attribute>)
    requires
        base + text@.len() <= usize::MAX,
    ensures
        attributes_view(res@) == attributes_from(text@, groups_view(*all), path@, base as nat, depth as nat),
{
    let mut out: Vec<Attribute> = Vec::new();
    let mut k: usize = 0;
    assert(attributes_view(out@) =~= Seq::empty());
    while k < all.len()
        invariant
            k <= all@.len(),
            base + text@.len() <= usize::MAX,
            attributes_view(out@) == attributes_from(
                text@,
                groups_view(*all).subrange(0, k as int),
                path@,
                base as nat,
                depth as nat,
            ),
        decreases all@.len() - k,
    {
        let ghost before = attributes_view(out@);
        proof {
            assert(groups_view(*all).subrange(0, k + 1).drop_last() =~= groups_view(*all).subrange(0, k as int));
            assert(groups_view(*all).subrange(0, k + 1).last() == all@[k as int]@);
        }
        match read_attribute(text, &all[k], path, base, depth) {
            Some(attribute) => {
                out.push(attribute);
                assert(attributes_view(out@) =~= before.push(attribute@));
            },
            None => {},
        }
        k = k + 1;
    }
    assert(groups_view(*all).subrange(0, k as int) =~= groups_view(*all));
    out
}

/// The attributes written out in the attribute region `text` of a tag.
pub fn read_attributes(pattern: &Pattern, text: &[u8], path: &str, base: usize, depth: usize) -> (res: Vec<Attribute>)
    requires
        pattern@ == ATTRIBUTE@,
        base + text@.len() <= usize::MAX,
    ensures
        attributes_view(res@) == explicit_attributes(text@, path@, base as nat, depth as nat),
{
    let all = captures_iter(pattern, text);
    attributes_from_matches(&all, text, path, base, depth)
}

/// The class tokens of `s`, joined by single spaces.
pub fn join_classes(s: &[u8]) -> (res: Vec<u8>)
    ensures
        res@ == joined_classes(s@).0,
{
    let mut out: Vec<u8> = Vec::new();
    let mut fresh: bool = true;
    let mut k: usize = 0;
    while k < s.len()
        invariant
            k <= s@.len(),
            (out@, fresh) == joined_classes(s@.subrange(0, k as int)),
        decreases s@.len() - k,
    {
        proof {
            assert(s@.subrange(0, k + 1).drop_last() =~= s@.subrange(0, k as int));
        }
        let b: u8 = s[k];
        if b == 0x2e {
            fresh = true;
        } else {
            if fresh && out.len() > 0 {
                out.push(0x20);
            }
            out.push(b);
            fresh = false;
        }
        k = k + 1;
    }
    assert(s@.subrange(0, k as int) =~= s@);
    out
}

/// The synthetic attributes that the groups of a match of the selector
/// pattern in `sel` stand for.
pub fn selector_from_groups(groups: &Groups, sel: &[u8], path: &str, base: usize, depth: usize) -> (res: Vec<Attribute>)
    requires
        base + sel@.len() <= usize::MAX,
    ensures
        attributes_view(res@) == selector_from(sel@, groups@, path@, base as nat, depth as nat),
{
    let len: usize = sel.len();
    let id = group_span(groups, 2, len);
    let class_value = match id {
        Some(i) => {
            let mut dotted = copy_range(sel, 0, i.0);
            dotted.push(0x2e);
            let mut after = copy_range(sel, i.1, len);
            dotted.append(&mut after);
            assert(dotted@ =~= sel@.subrange(0, i.0 as int) + seq![0x2eu8] + sel@.subrange(i.1 as int, len as int));
            join_classes(dotted.as_slice())
        },
        None => join_classes(sel),
    };
    let mut out: Vec<Attribute> = Vec::new();
    if class_value.len() > 0 {
        out.push(
            Attribute {
                name: "class".to_owned(),
                value: text_of(class_value.as_slice()),
                origin: Origin { source: path.to_owned(), offset: base, depth, token_length: len },
            },
        );
    }
    match id {
        Some(i) => {
            let value = if i.0 < i.1 {
                text_range(sel, i.0 + 1, i.1)
            } else {
                assert(sel@.subrange(i.0 as int, i.0 as int) =~= Seq::<u8>::empty());
                text_range(sel, i.0, i.0)
            };
            out.push(
                Attribute {
                    name: "id".to_owned(),
                    value,
                    origin: Origin { source: path.to_owned(), offset: base + i.0, depth, token_length: i.1 - i.0 },
                },
            );
        },
        None => {},
    }
    assert(attributes_view(out@) =~= selector_from(sel@, groups@, path@, base as nat, depth as nat));
    out
}

/// The synthetic attributes that the selector shorthand `sel` stands for.
pub fn read_selector(pattern: &Pattern, sel: &[u8], path: &str, base: usize, depth: usize) -> (res: Option<Vec<Attribute>>)
    requires
        pattern@ == CSS_SELECTOR_SHORTHAND@,
        base + sel@.len() <= usize::MAX,
    ensures
        res matches Some(found) ==> selector_attributes(sel@, path@, base as nat, depth as nat) == Some(
            attributes_view(found@),
        ),
        res is None ==> selector_attributes(sel@, path@, base as nat, depth as nat) is None,
{
    match captures_at(pattern, sel, 0) {
        Some(groups) => Some(selector_from_groups(&groups, sel, path, base, depth)),
        None => None,
    }
}

/// The index in `matches` of the tag edge that closes the element whose
/// opening tag ends where `hay` begins; `matches` are the edges of tags of
/// the element's name in `hay`, in order.
pub fn closing_edge(hay: &[u8], matches: &Vec<Span>) -> (res: Option<usize>)
    requires
        forall|k: int| 0 <= k < matches@.len() ==> span_within(#[trigger] matches@[k], hay@.len()),
    ensures
        res matches Some(i) ==> close_index(hay@, matches@, 0, 1) == Some(i as int) && i < matches@.len(),
        res is None ==> close_index(hay@, matches@, 0, 1) is None,
{
    let mut count: usize = 1;
    let mut i: usize = 0;
    while i < matches.len()
        invariant
            i <= matches@.len(),
            count >= 1,
            count <= i + 1,
            forall|k: int| 0 <= k < matches@.len() ==> span_within(#[trigger] matches@[k], hay@.len()),
            close_index(hay@, matches@, 0, 1) == close_index(hay@, matches@, i as int, count as int),
        decreases matches@.len() - i,
    {
        let m = matches[i];
        assert(span_within(matches@[i as int], hay@.len()));
        let closes = m.1 - m.0 >= 2 && hay[m.0] == 0x3c && hay[m.0 + 1] == 0x2f;
        assert(closes == is_closing(hay@, m));
        if closes {
            if count == 1 {
                return Some(i);
            }
            count = count - 1;
        } else {
            if i + 1 >= matches.len() {
                assert(close_index(hay@, matches@, i + 1, count + 1) is None);
                return None;
            }
            count = count + 1;
        }
        i = i + 1;
    }
    None
}

/// The span in `hay` of the closing tag that matches an element whose opening
/// tag ends where `hay` begins.
pub fn find_closing(closing: &Pattern, edges: &Pattern, hay: &[u8]) -> (res: Option<(usize, usize)>)
    requires
        closing@ == CLOSING@,
    ensures
        res matches Some(c) ==> closing_span(hay@, edges@) == Some((c.0 as int, c.1 as int)) && c.0 <= c.1
            <= hay@.len(),
        res is None ==> closing_span(hay@, edges@) is None,
{
    let matches = find_iter(edges, hay);
    match closing_edge(hay, &matches) {
        Some(i) => {
            assert(span_within(matches@[i as int], hay@.len()));
            match captures_at(closing, hay, matches[i].0) {
                Some(groups) => group_span(&groups, 0, hay.len()),
                None => None,
            }
        },
        None => None,
    }
}

/// The parts of an opening tag, as spans in the window.
pub struct TagParts {
    /// Length of the opening tag.
    pub open_end: usize,
    /// The tag name.
    pub tag: (usize, usize),
    /// The selector shorthand, if the match has one.
    pub selector: Option<(usize, usize)>,
    /// The attribute region, if the match has one.
    pub attributes: Option<(usize, usize)>,
}

/// The spans of a pair of offsets as integers.
pub open spec fn span_view(span: Option<(usize, usize)>) -> Option<(int, int)> {
    match span {
        Some(s) => Some((s.0 as int, s.1 as int)),
        None => None,
    }
}

impl View for TagParts {
    type V = TagSpans;

    open spec fn view(&self) -> TagSpans {
        TagSpans {
            open_end: self.open_end as int,
            tag: (self.tag.0 as int, self.tag.1 as int),
            selector: span_view(self.selector),
            attributes: span_view(self.attributes),
        }
    }
}

/// The parts that the groups of a match of the opening-tag pattern in a
/// window of `len` bytes stand for.
pub fn tag_parts(groups: &Groups, len: usize) -> (res: Result<TagParts, BuildError>)
    ensures
        res matches Ok(parts) ==> tag_spans(groups@, len as nat) == Ok::<TagSpans, BuildErrorView>(parts@) && 0
            < parts.open_end <= len && parts.tag.0 <= parts.tag.1 <= len,
        res matches Ok(parts) ==> (parts.selector matches Some(s) ==> s.0 <= s.1 <= len),
        res matches Ok(parts) ==> (parts.attributes matches Some(a) ==> a.0 <= a.1 <= len),
        res matches Err(e) ==> tag_spans(groups@, len as nat) == Err::<TagSpans, BuildErrorView>(e@),
{
    let open = match group_span(groups, 0, len) {
        Some(open) => open,
        None => {
            return Err(BuildError::NotATag);
        },
    };
    if open.0 != 0 || open.1 == 0 {
        return Err(BuildError::NotATag);
    }
    let tag = match group_span(groups, 1, len) {
        Some(tag) => tag,
        None => {
            return Err(BuildError::NoTagName);
        },
    };
    Ok(TagParts { open_end: open.1, tag, selector: group_span(groups, 2, len), attributes: group_span(groups, 3, len) })
}

/// An opening tag as read from the source.
pub struct TagOpen {
    pub parts: TagParts,
    /// Explicit attributes, then the synthetic ones of the selector shorthand.
    pub attributes: Vec<Attribute>,
}

impl View for TagOpen {
    type V = TagOpenView;

    open spec fn view(&self) -> TagOpenView {
        TagOpenView { spans: self.parts@, attributes: attributes_view(self.attributes@) }
    }
}

/// Reads the opening tag at the start of the window `w` of the file `path`,
/// where the window begins at offset `base`.
pub fn read_tag_open(
    combined: &Pattern,
    attribute: &Pattern,
    selector: &Pattern,
    w: &[u8],
    path: &str,
    base: usize,
    depth: usize,
) -> (res: Result<TagOpen, SiteError>)
    requires
        combined@ == COMBINED@,
        attribute@ == ATTRIBUTE@,
        selector@ == CSS_SELECTOR_SHORTHAND@,
        base + w@.len() <= usize::MAX,
    ensures
        res matches Ok(open) ==> tag_open(w@, path@, base as nat, depth as nat) == Ok::<TagOpenView, ErrorView>(open@)
            && 0 < open.parts.open_end <= w@.len() && open.parts.tag.0 <= open.parts.tag.1 <= w@.len(),
        res matches Err(e) ==> tag_open(w@, path@, base as nat, depth as nat) == Err::<TagOpenView, ErrorView>(e@),
{
    let len: usize = w.len();
    let groups = match captures_at(combined, w, 0) {
        Some(groups) => groups,
        None => {
            return Err(SiteError::BuildError(BuildError::NotATag));
        },
    };
    let parts = match tag_parts(&groups, len) {
        Ok(parts) => parts,
        Err(e) => {
            return Err(SiteError::BuildError(e));
        },
    };
    let mut attributes = match parts.attributes {
        Some(a) => read_attributes(attribute, slice_subrange(w, a.0, a.1), path, base + a.0, depth),
        None => Vec::new(),
    };
    let ghost explicit = attributes_view(attributes@);
    assert(parts.attributes is None ==> explicit =~= Seq::empty());
    let synthetic = match parts.selector {
        Some(sel) => read_selector(selector, slice_subrange(w, sel.0, sel.1), path, base + sel.0, depth),
        None => None,
    };
    let mut synthetic = match synthetic {
        Some(synthetic) => synthetic,
        None => {
            return Err(SiteError::BuildError(BuildError::BadSelectorList));
        },
    };
    let ghost added = attributes_view(synthetic@);
    attributes.append(&mut synthetic);
    assert(attributes_view(attributes@) =~= explicit + added);
    Ok(TagOpen { parts, attributes })
}

/// Finds the closing tag that matches the opening tag `parts` of `w`; its
/// span is counted from the end of the opening tag.
pub fn read_tag_close(closing: &Pattern, w: &[u8], parts: &TagParts) -> (res: Result<(usize, usize), SiteError>)
    requires
        closing@ == CLOSING@,
        parts.open_end <= w@.len(),
        parts.tag.0 <= parts.tag.1 <= w@.len(),
    ensures
        res matches Ok(close) ==> tag_close(w@, parts@) == Ok::<(int, int), ErrorView>((close.0 as int, close.1 as int))
            && close.0 <= close.1 && parts.open_end + close.1 <= w@.len(),
        res matches Err(e) ==> tag_close(w@, parts@) == Err::<(int, int), ErrorView>(e@),
{
    let mut edge_text = TAG_EDGE.to_owned();
    let tag_text = text_range(w, parts.tag.0, parts.tag.1);
    edge_text.append(tag_text.as_str());
    assert(edge_text@ == tag_edges(w@.subrange(parts.tag.0 as int, parts.tag.1 as int)));
    let edges = match compile(edge_text.as_str()) {
        Ok(edges) => edges,
        Err(e) => {
            return Err(SiteError::RegexError(e));
        },
    };
    match find_closing(closing, &edges, slice_subrange(w, parts.open_end, w.len())) {
        Some(close) => Ok(close),
        None => Err(SiteError::BuildError(BuildError::NoClosingTag)),
    }
}

/// Whether an opening tag of `open_end` bytes at the start of `w` closes itself.
pub fn is_self_closing(w: &[u8], open_end: usize) -> (res: bool)
    requires
        open_end <= w@.len(),
    ensures
        res == closes_itself(w@, open_end as int),
{
    let res = open_end >= 2 && w[open_end - 2] == 0x2f && w[open_end - 1] == 0x3e;
    proof {
        let head = w@.subrange(0, open_end as int);
        let mark = seq![0x2fu8, 0x3eu8];
        if res {
            assert(head.subrange(head.len() - 2, head.len() as int) =~= mark);
        }
        if has_suffix(head, mark) {
            let tail = head.subrange(head.len() - 2, head.len() as int);
            assert(tail[0] == mark[0]);
            assert(tail[1] == mark[1]);
        }
    }
    res
}

/// Reads the opening tag at the start of the window `w` of the file `path`,
/// where the window begins at offset `base`, and finds its closing tag.
pub fn read_tag_head(
    combined: &Pattern,
    attribute: &Pattern,
    selector: &Pattern,
    closing: &Pattern,
    w: &[u8],
    path: &str,
    base: usize,
    depth: usize,
) -> (res: Result<TagHead, SiteError>)
    requires
        combined@ == COMBINED@,
        attribute@ == ATTRIBUTE@,
        selector@ == CSS_SELECTOR_SHORTHAND@,
        closing@ == CLOSING@,
        base + w@.len() <= usize::MAX,
    ensures
        res matches Ok(head) ==> tag_head(w@, path@, base as nat, depth as nat) == Ok::<TagHeadView, ErrorView>(head@)
            && head_within(head@, w@.len()),
        res matches Err(e) ==> tag_head(w@, path@, base as nat, depth as nat) == Err::<TagHeadView, ErrorView>(e@),
{
    let open = match read_tag_open(combined, attribute, selector, w, path, base, depth) {
        Ok(open) => open,
        Err(e) => {
            return Err(e);
        },
    };
    let lowered = to_lower_ascii(slice_subrange(w, open.parts.tag.0, open.parts.tag.1));
    let name = text_of(lowered.as_slice());
    if is_self_closing(w, open.parts.open_end) {
        return Ok(TagHead { name, attributes: open.attributes, open_end: open.parts.open_end, close: None });
    }
    match read_tag_close(closing, w, &open.parts) {
        Ok(close) => Ok(
            TagHead { name, attributes: open.attributes, open_end: open.parts.open_end, close: Some(close) },
        ),
        Err(e) => Err(e),
    }
}

} // verus!
