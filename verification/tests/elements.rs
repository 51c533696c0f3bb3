use sitegen::parse::parse_source;
use sitegen::parse::tree::Body as ParsedBody;
use sitegen::template::elements::from_element;
use sitegen::template::elements::Body;
use sitegen::template::elements::ConditionElement;
use sitegen::template::elements::Element;
use sitegen::template::elements::Node;

fn first(source: &str) -> sitegen::parse::tree::Element {
    let root = parse_source(source, "page.html").unwrap();
    match root.body.into_iter().next() {
        Some(ParsedBody::Element(el)) => el,
        other => panic!("expected an element, found {:?}", other),
    }
}

#[test]
fn tag_name_selects_the_kind() {
    assert!(matches!(from_element(&first("<block/>")), Node::Block(_)));
    assert!(matches!(from_element(&first("<template/>")), Node::Template(_)));
    assert!(matches!(from_element(&first("<include/>")), Node::Include(_)));
    assert!(matches!(from_element(&first("<component/>")), Node::Component(_)));
    assert!(matches!(from_element(&first("<escape/>")), Node::Escape(_)));
    assert!(matches!(from_element(&first("<condition/>")), Node::Condition(_)));
    assert!(matches!(from_element(&first("<div/>")), Node::Generic(_)));
    assert!(matches!(from_element(&first("<BLOCK/>")), Node::Block(_)));
}

#[test]
fn children_are_typed_in_order() {
    let node = from_element(&first("<div><block/>\"t\"{e}<p/></div>"));
    let div = match node {
        Node::Generic(div) => div,
        other => panic!("expected a generic element, found {:?}", other),
    };
    assert_eq!(div.name(), "div");
    assert_eq!(div.render(0), "");
    assert_eq!(div.body.len(), 4);
    assert!(matches!(&div.body[0], Body::Element(Node::Block(_))));
    assert!(matches!(&div.body[1], Body::Literal(l) if l.body == b"t".to_vec()));
    assert!(matches!(&div.body[2], Body::Script(e) if e.body == "e"));
    assert!(matches!(&div.body[3], Body::Element(Node::Generic(_))));
}

#[test]
fn last_attribute_of_a_name_stands() {
    let node = from_element(&first("<div a=\"1\" b=\"2\" a=\"3\"/>"));
    let div = match node {
        Node::Generic(div) => div,
        other => panic!("expected a generic element, found {:?}", other),
    };
    let pairs: Vec<(&str, &str)> = div.attr.iter().map(|a| (a.name.as_str(), a.value.as_str())).collect();
    assert_eq!(pairs, vec![("b", "2"), ("a", "3")]);
    assert_eq!(div.source.attributes.len(), 3);
}

#[test]
fn node_names_its_source() {
    let node = from_element(&first("<include src=\"x\"/>"));
    assert_eq!(node.name(), "include");
    assert_eq!(node.source().attributes.len(), 1);
    assert_eq!(node.render(3), "");
}

#[test]
fn condition_is_made_from_any_element() {
    let c = ConditionElement::from_element(&first("<when test=\"x\"><p/></when>"));
    assert_eq!(c.name(), "when");
    assert_eq!(c.attr.len(), 1);
    assert_eq!(c.body.len(), 1);
}
