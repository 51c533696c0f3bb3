use sitegen::error::BuildError;
use sitegen::error::SiteError;
use sitegen::parse::tree::Body;
use sitegen::parse::tree::Element;
use sitegen::parse::ParsingContext;

fn parse(source: &str) -> Result<Element, SiteError> {
    let mut cx = ParsingContext::new(source, "page.html").expect("the patterns compile");
    cx.parse()
}

fn only_element(root: &Element) -> &Element {
    assert_eq!(root.body.len(), 1);
    match &root.body[0] {
        Body::Element(el) => el,
        other => panic!("expected an element, found {:?}", other),
    }
}

#[test]
fn self_closing_tag_has_attribute_and_no_body() {
    let root = parse("<x a=\"1\"/>").unwrap();
    let x = only_element(&root);
    assert_eq!(x.name, "x");
    assert_eq!(x.attributes.len(), 1);
    assert_eq!(x.attributes[0].name, "a");
    assert_eq!(x.attributes[0].value, "1");
    assert!(x.body.is_empty());
    assert_eq!(x.origin.offset, 0);
    assert_eq!(x.origin.token_length, 10);
    assert_eq!(x.origin.depth, 1);
}

#[test]
fn nested_same_named_tags_close_in_pairs() {
    let root = parse("<a><a></a></a>").unwrap();
    let outer = only_element(&root);
    assert_eq!(outer.name, "a");
    assert_eq!(outer.origin.token_length, 14);
    let inner = only_element(outer);
    assert_eq!(inner.name, "a");
    assert!(inner.body.is_empty());
    assert_eq!(inner.origin.offset, 3);
    assert_eq!(inner.origin.token_length, 7);
    assert_eq!(inner.origin.depth, 2);
}

#[test]
fn selector_shorthand_gives_class_then_id() {
    let root = parse("<div.foo#bar.baz title=\"t\"></div>").unwrap();
    let div = only_element(&root);
    assert_eq!(div.name, "div");
    let pairs: Vec<(&str, &str)> =
        div.attributes.iter().map(|a| (a.name.as_str(), a.value.as_str())).collect();
    assert_eq!(pairs, vec![("title", "t"), ("class", "foo baz"), ("id", "bar")]);
}

#[test]
fn unbalanced_expression_is_a_bracket_mismatch() {
    match parse("{foo") {
        Err(SiteError::BuildError(BuildError::BracketMismatch)) => {}
        other => panic!("unexpected result {:?}", other),
    }
}

#[test]
fn root_is_a_fragment_that_names_its_file() {
    let root = parse("  <!-- note -->\n{a {b} c} \"lit\" <p/>").unwrap();
    assert_eq!(root.name, "fragment");
    assert_eq!(root.attributes.len(), 1);
    assert_eq!(root.attributes[0].name, "origin");
    assert_eq!(root.attributes[0].value, "page.html");
    assert_eq!(root.origin.depth, 0);
    assert_eq!(root.body.len(), 3);
    match &root.body[0] {
        Body::Expression(e) => {
            assert_eq!(e.body, "a {b} c");
            assert_eq!(e.origin.offset, 16);
            assert_eq!(e.origin.token_length, 9);
        }
        other => panic!("expected an expression, found {:?}", other),
    }
    match &root.body[1] {
        Body::Literal(l) => {
            assert_eq!(l.body, b"lit".to_vec());
            assert!(!l.is_byte_string);
            assert_eq!(l.origin.token_length, 5);
        }
        other => panic!("expected a literal, found {:?}", other),
    }
    match &root.body[2] {
        Body::Element(el) => assert_eq!(el.name, "p"),
        other => panic!("expected an element, found {:?}", other),
    }
}

#[test]
fn every_error_has_a_description() {
    let all = vec![
        (BuildError::MatchedDirectory("d".to_string()), "path matches a directory"),
        (BuildError::InvalidSyntax("s".to_string()), "invalid syntax"),
        (BuildError::NoTagName, "tag has no name"),
        (BuildError::NoClosingTag, "tag is never closed"),
        (BuildError::NoSelectorList, "selector list is missing"),
        (BuildError::BadSelectorList, "selector list is malformed"),
        (BuildError::NotATag, "not a tag"),
        (BuildError::NotAnExpression, "not an expression"),
        (BuildError::BracketMismatch, "unbalanced braces"),
        (BuildError::NotALiteral, "not a literal"),
        (BuildError::ByteStringNotSupported, "byte escape in a text literal"),
        (BuildError::InvalidCharacterCode("c".to_string()), "invalid character code"),
        (BuildError::UnexpectedEOF, "unexpected end of input"),
    ];
    for (error, text) in all {
        assert_eq!(error.describe(), text);
    }
}

fn tag(source: &str) -> Result<Element, SiteError> {
    let mut cx = ParsingContext::new(source, "p.html").expect("the patterns compile");
    cx.parse_tag(1)
}

#[test]
fn single_quoted_value_is_taken_like_a_double_quoted_one() {
    let x = tag("<x a='1'/>").unwrap();
    assert_eq!(x.name, "x");
    assert_eq!(x.attributes.len(), 1);
    assert_eq!(x.attributes[0].name, "a");
    assert_eq!(x.attributes[0].value, "1");
    assert_eq!((x.attributes[0].origin.offset, x.attributes[0].origin.token_length), (3, 5));
    assert!(x.body.is_empty());
    assert_eq!(x.origin.token_length, 10);
}

#[test]
fn whitespace_may_stand_around_the_equals_sign() {
    let x = tag("<x a = \"1\"/>").unwrap();
    assert_eq!(x.name, "x");
    assert_eq!(x.attributes.len(), 1);
    assert_eq!(x.attributes[0].name, "a");
    assert_eq!(x.attributes[0].value, "1");
    assert_eq!((x.attributes[0].origin.offset, x.attributes[0].origin.token_length), (3, 7));
    assert!(x.body.is_empty());
    let y = tag("<y b ='2' c= \"3\" d></y>").unwrap();
    let pairs: Vec<(&str, &str)> = y.attributes.iter().map(|a| (a.name.as_str(), a.value.as_str())).collect();
    assert_eq!(pairs, vec![("b", "2"), ("c", "3")]);
}

#[test]
fn quotes_of_the_other_kind_stand_inside_a_value() {
    let x = tag("<x a='say \"hi\"' b=\"it's\"/>").unwrap();
    let pairs: Vec<(&str, &str)> = x.attributes.iter().map(|a| (a.name.as_str(), a.value.as_str())).collect();
    assert_eq!(pairs, vec![("a", "say \"hi\""), ("b", "it's")]);
}

#[test]
fn tag_with_single_quoted_value_does_not_end_the_body() {
    let root = parse("<a x='1'><b y='2'/></a><c/>").unwrap();
    assert_eq!(root.body.len(), 2);
    let a = match &root.body[0] {
        Body::Element(el) => el,
        other => panic!("expected an element, found {:?}", other),
    };
    assert_eq!(a.attributes[0].value, "1");
    assert_eq!(a.body.len(), 1);
}

#[test]
fn comment_may_cross_lines() {
    let root = parse("<!-- one\n two\n--> <a/> <!--\n--><b/>").unwrap();
    assert_eq!(root.body.len(), 2);
    match &root.body[1] {
        Body::Element(el) => {
            assert_eq!(el.name, "b");
            assert_eq!(el.origin.offset, 31);
        }
        other => panic!("expected an element, found {:?}", other),
    }
}

#[test]
fn comment_ends_at_the_first_closing_mark() {
    let root = parse("<!-- a --><a/><!-- b -->").unwrap();
    assert_eq!(root.body.len(), 1);
    assert_eq!(root.body[0].origin().offset, 10);
}

fn ordered(body: &[Body]) -> bool {
    body.windows(2).all(|pair| pair[0].origin().offset + pair[0].origin().len() <= pair[1].origin().offset)
        && body.iter().all(|b| match b {
            Body::Element(el) => ordered(&el.body),
            _ => true,
        })
}

#[test]
fn siblings_stand_in_document_order_without_overlap() {
    let root = parse("<a> {x} \"s\" <b><c/> <d/></b> r\"t\" </a> <e/>{y}").unwrap();
    assert_eq!(root.body.len(), 3);
    assert!(ordered(&root.body));
}

#[test]
fn no_refusal_leaves_the_dispatcher() {
    for source in ["plain", "", "#\"x\"#", "< >", "}"] {
        let mut cx = ParsingContext::new(source, "p.html").unwrap();
        assert!(matches!(cx.try_parse_any(1), Ok(None)), "{:?}", source);
        assert!(parse(source).unwrap().body.is_empty());
    }
    for source in ["{x", "\"x", "<a>", "r\"x", "<a>{</a>"] {
        match parse(source) {
            Err(SiteError::BuildError(BuildError::NotATag))
            | Err(SiteError::BuildError(BuildError::NotAnExpression))
            | Err(SiteError::BuildError(BuildError::NotALiteral)) => panic!("refusal for {:?}", source),
            Err(_) => {}
            Ok(tree) => panic!("parsed {:?} to {:?}", source, tree),
        }
    }
}

#[test]
fn nesting_of_every_depth_closes_in_pairs() {
    for n in 2..=7usize {
        let source = "<a>".repeat(n) + &"</a>".repeat(n);
        let mut el = tag(&source).unwrap();
        for i in 1..=n {
            assert_eq!(el.name, "a");
            assert_eq!(el.origin.depth, i);
            assert_eq!(el.origin.offset, 3 * (i - 1));
            assert_eq!(el.origin.token_length, 7 * (n - i + 1));
            if i < n {
                assert_eq!(el.body.len(), 1);
                el = match el.body.pop() {
                    Some(Body::Element(inner)) => inner,
                    other => panic!("expected an element, found {:?}", other),
                };
            } else {
                assert!(el.body.is_empty());
            }
        }
    }
}

#[test]
fn self_closing_tag_of_any_name_and_attribute() {
    let cases = [
        ("x", "a", "1", '"'),
        ("Img", "src", "a/b.png", '\''),
        ("my-tag_2", "data_1", "", '"'),
        ("H1", "title", "it's > 1 <", '"'),
        ("q", "cite", "say \"so\"", '\''),
    ];
    for (name, key, value, quote) in cases {
        let source = format!("<{} {}={}{}{}/>", name, key, quote, value, quote);
        let mut cx = ParsingContext::new(&source, "p.html").unwrap();
        cx.range_mut().start = 0;
        let el = cx.parse_tag(4).unwrap();
        assert_eq!(el.name, name.to_lowercase());
        assert_eq!(el.attributes.len(), 1);
        assert_eq!(el.attributes[0].name, key);
        assert_eq!(el.attributes[0].value, value);
        assert!(el.body.is_empty());
        assert_eq!(el.origin.offset, 0);
        assert_eq!(el.origin.depth, 4);
        assert_eq!(el.origin.token_length, source.len());
    }
}

#[test]
fn self_closing_tag_keeps_its_place_in_the_source() {
    let mut cx = ParsingContext::new("  <x a=\"1\"/>  ", "p.html").unwrap();
    cx.range_mut().start = 2;
    cx.range_mut().end = 12;
    let el = cx.parse_tag(2).unwrap();
    assert_eq!((el.origin.offset, el.origin.token_length, el.origin.depth), (2, 10, 2));
    assert_eq!(el.attributes[0].origin.offset, 5);
}
