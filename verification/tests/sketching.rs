use sitegen::error::BuildError;
use sitegen::error::SiteError;
use sitegen::template::factory::Element;
use sitegen::template::factory::PageFactory;

fn parts(el: &Element) -> (&str, Vec<(&str, &str, usize)>, &[Element], usize) {
    match el {
        Element::Element { name, attributes, body, origin } => (
            name.as_str(),
            attributes.iter().map(|a| (a.name.as_str(), a.value.as_str(), a.origin.1)).collect(),
            body.as_slice(),
            origin.1,
        ),
        other => panic!("expected an element, found {:?}", other),
    }
}

#[test]
fn sketch_keeps_the_first_element_of_every_level() {
    let page = PageFactory::new("  <Main.wide id=\"m\"> <p a=\"1\"></p> <q></q> </Main> <r></r>", "page.html").unwrap();
    assert_eq!(page.path(), "page.html");
    let (name, attributes, body, offset) = parts(page.tree());
    assert_eq!(name, "template");
    assert!(attributes.is_empty());
    assert_eq!(offset, 0);
    assert_eq!(body.len(), 1);
    let (name, attributes, body, offset) = parts(&body[0]);
    assert_eq!(name, "Main");
    assert_eq!(attributes, vec![("id", "m", 13), ("class", "wide", 7)]);
    assert_eq!(offset, 2);
    assert_eq!(body.len(), 1);
    let (name, attributes, body, offset) = parts(&body[0]);
    assert_eq!(name, "p");
    assert_eq!(attributes, vec![("a", "1", 24)]);
    assert_eq!(offset, 21);
    assert!(body.is_empty());
}

#[test]
fn sketch_of_text_without_a_tag_is_empty() {
    let page = PageFactory::new(" plain text", "page.html").unwrap();
    let (_, _, body, _) = parts(page.tree());
    assert!(body.is_empty());
}

#[test]
fn sketch_wants_a_closing_tag_for_every_tag() {
    assert!(matches!(PageFactory::new("<x/>", "p"), Err(SiteError::BuildError(BuildError::NoClosingTag))));
    assert!(matches!(PageFactory::new("<a><b></a>", "p"), Err(SiteError::BuildError(BuildError::NoClosingTag))));
}
