use sitegen::error::BuildError;
use sitegen::error::SiteError;
use sitegen::parse::parse_source;
use sitegen::parse::tree::Body;
use sitegen::parse::tree::Element;
use sitegen::parse::ParsingContext;

fn context(source: &str) -> ParsingContext {
    ParsingContext::new(source, "dir/page.html").expect("the patterns compile")
}

#[test]
fn skipping_passes_whitespace_and_comments_once_and_for_all() {
    let mut cx = context(" \n\t<!-- a --> <!--b-->\n<p/>");
    assert_eq!((cx.range().start, cx.range().end), (0, 27));
    cx.skip_whitespace();
    assert_eq!(cx.range().start, 23);
    cx.skip_whitespace();
    assert_eq!(cx.range().start, 23);
    assert_eq!(cx.path(), "dir/page.html");
}

#[test]
fn skipping_at_the_end_of_input_does_nothing() {
    let mut cx = context("");
    cx.skip_whitespace();
    assert_eq!((cx.range().start, cx.range().end), (0, 0));
    assert!(cx.parse().unwrap().body.is_empty());
}

#[test]
fn expression_comes_before_literal_and_element() {
    let mut cx = context("{\"<a/>\"}");
    match cx.try_parse_any(1).unwrap() {
        Some(Body::Expression(e)) => assert_eq!(e.body, "\"<a/>\""),
        other => panic!("unexpected node {:?}", other),
    }
}

#[test]
fn text_that_starts_no_node_ends_the_body() {
    let root = parse_source("<a/> plain <b/>", "p").unwrap();
    assert_eq!(root.body.len(), 1);
    let mut cx = context("plain");
    assert!(cx.try_parse_any(1).unwrap().is_none());
}

#[test]
fn refusals_of_the_three_parsers() {
    let mut cx = context("plain");
    assert!(matches!(cx.parse_expr(1), Err(SiteError::BuildError(BuildError::NotAnExpression))));
    assert!(matches!(cx.parse_literal(1), Err(SiteError::BuildError(BuildError::NotALiteral))));
    assert!(matches!(cx.parse_tag(1), Err(SiteError::BuildError(BuildError::NotATag))));
}

#[test]
fn tag_without_closing_tag_fails_the_parse() {
    assert!(matches!(parse_source("<a><b/>", "p"), Err(SiteError::BuildError(BuildError::NoClosingTag))));
    assert!(matches!(parse_source("<a><a></a>", "p"), Err(SiteError::BuildError(BuildError::NoClosingTag))));
}

#[test]
fn error_inside_a_body_fails_the_whole_parse() {
    assert!(matches!(parse_source("<a><b>{x</b></a>", "p"), Err(SiteError::BuildError(BuildError::BracketMismatch))));
}

#[test]
fn tag_name_is_folded_to_lower_case() {
    let root = parse_source("<DiV></DiV>", "p").unwrap();
    match &root.body[0] {
        Body::Element(el) => assert_eq!(el.name, "div"),
        other => panic!("unexpected node {:?}", other),
    }
}

#[test]
fn attribute_without_value_is_dropped() {
    let root = parse_source("<input disabled name=\"n\"/>", "p").unwrap();
    match &root.body[0] {
        Body::Element(el) => {
            assert_eq!(el.attributes.len(), 1);
            assert_eq!(el.attributes[0].name, "name");
            assert_eq!(el.attributes[0].origin.offset, 16);
            assert_eq!(el.attributes[0].origin.token_length, 8);
        }
        other => panic!("unexpected node {:?}", other),
    }
}

#[test]
fn selector_with_several_classes_on_each_side() {
    let root = parse_source("<p.a.b#c.d.e/>", "p").unwrap();
    match &root.body[0] {
        Body::Element(el) => {
            let pairs: Vec<(&str, &str)> = el.attributes.iter().map(|a| (a.name.as_str(), a.value.as_str())).collect();
            assert_eq!(pairs, vec![("class", "a b d e"), ("id", "c")]);
            assert_eq!(el.attributes[0].origin.offset, 2);
            assert_eq!(el.attributes[0].origin.token_length, 10);
            assert_eq!(el.attributes[1].origin.offset, 6);
            assert_eq!(el.attributes[1].origin.token_length, 2);
        }
        other => panic!("unexpected node {:?}", other),
    }
}

fn within(el: &Element, len: usize, depth: usize) -> bool {
    el.origin.depth == depth
        && el.origin.offset + el.origin.token_length <= len
        && el.attributes.iter().all(|a| a.origin.offset + a.origin.token_length <= len)
        && el.body.iter().all(|b| match b {
            Body::Element(child) => within(child, len, depth + 1),
            other => other.origin().depth == depth + 1 && other.origin().offset + other.origin().len() <= len,
        })
}

#[test]
fn every_origin_lies_inside_the_source() {
    let source = "<a.x#y k=\"v\"> {e} <b> r#\"raw\"# <c d=\"1\"/> </b> \"s\\n\" </a>  <!-- end -->";
    let root = parse_source(source, "p").unwrap();
    assert_eq!(root.origin.token_length, source.len());
    assert!(within(&root, source.len(), 0));
}

#[test]
fn hex_digits_pair_up() {
    let cx = context("");
    assert_eq!(cx.parse_hex("41"), vec![0x41]);
    assert_eq!(cx.parse_hex("0aFf7"), vec![0x0a, 0xff]);
    assert_eq!(cx.parse_hex("4 1-zz2B"), vec![0x41, 0x2b]);
    assert!(cx.parse_hex("f").is_empty());
}

#[test]
fn tree_as_indented_text() {
    let root = parse_source("<a k=\"v\"><b/>{e}\"s\"b\"\\x01\\xff\"</a>", "p").unwrap();
    let a = match &root.body[0] {
        Body::Element(el) => el,
        other => panic!("unexpected node {:?}", other),
    };
    assert_eq!(
        a.outline(),
        "    <a k=\"v\">\n        <b />\n        {e}\n        \"s\"\n        b\"[1, ff]\"\n    </a>"
    );
    assert_eq!(root.body[0].outline(), a.outline());
}

#[test]
fn window_can_be_moved_by_hand() {
    let mut cx = context("<a/><b/>");
    assert_eq!(cx.window_slice(), b"<a/><b/>");
    cx.range_mut().start = 4;
    assert_eq!(cx.window_slice(), b"<b/>");
    match cx.parse_tag(1) {
        Ok(el) => {
            assert_eq!(el.name, "b");
            assert_eq!(el.origin.offset, 4);
        }
        other => panic!("unexpected result {:?}", other),
    }
    let root = cx.parse().unwrap();
    assert_eq!(root.origin.token_length, 4);
    assert_eq!(root.body.len(), 1);
}
