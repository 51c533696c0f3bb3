use sitegen::error::SiteError;
use sitegen::parse::parse_source;
use sitegen::parse::tree::Body;
use sitegen::parse::tree::Element;
use sitegen::template::resolver::Action;
use sitegen::template::resolver::Resolver;
use sitegen::template::resolver::Template;

const CONFIG: &str = "/site/site.toml";

fn page(path: &str, source: &str) -> Resolver {
    let root = parse_source(source, path).expect("the page parses");
    Resolver::new(Template { path: path.to_string(), root }, CONFIG.to_string())
}

fn finish(resolver: &Resolver) -> Element {
    match resolver.next().expect("the page resolves") {
        Action::Finish(tree) => tree,
        Action::Load(path) => panic!("asked for {}", path),
    }
}

fn names(body: &[Body]) -> Vec<String> {
    body.iter()
        .map(|b| match b {
            Body::Element(el) => el.name.clone(),
            Body::Expression(e) => format!("{{{}}}", e.body),
            Body::Literal(l) => format!("{:?}", String::from_utf8_lossy(&l.body)),
        })
        .collect()
}

fn holds_structural(body: &[Body]) -> bool {
    body.iter().any(|b| match b {
        Body::Element(el) => el.name == "fragment" || el.name == "block" || holds_structural(&el.body),
        _ => false,
    })
}

#[test]
fn fragment_children_are_spliced_in_place() {
    let resolver = page("/site/www/home.html", "<a/><fragment><b/>{x}<fragment><c/></fragment></fragment><d/>");
    let tree = finish(&resolver);
    assert_eq!(tree.name, "template");
    assert_eq!(names(&tree.body), vec!["a", "b", "{x}", "c", "d"]);
    assert!(!holds_structural(&tree.body));
}

#[test]
fn other_elements_keep_their_shape() {
    let resolver = page("/site/www/home.html", "<div id=\"x\"><fragment><p/></fragment>\"t\"</div>");
    let tree = finish(&resolver);
    assert_eq!(tree.body.len(), 1);
    match &tree.body[0] {
        Body::Element(div) => {
            assert_eq!(div.name, "div");
            assert_eq!(div.attributes.len(), 1);
            assert_eq!(div.attributes[0].value, "x");
            assert_eq!(div.origin.offset, 0);
            assert_eq!(names(&div.body), vec!["p".to_string(), "\"t\"".to_string()]);
        }
        other => panic!("expected an element, found {:?}", other),
    }
}

#[test]
fn slot_without_fill_shows_its_own_body() {
    let resolver = page("/site/www/home.html", "<block name=\"main\"><p/></block>");
    let tree = finish(&resolver);
    assert_eq!(names(&tree.body), vec!["p"]);
}

#[test]
fn block_with_parent_fills_the_parents_slot() {
    let mut resolver = page(
        "/site/www/home.html",
        "<block parent=\"#include/frame.html\" name=\"main\"><p/></block>",
    );
    match resolver.next().unwrap() {
        Action::Load(path) => assert_eq!(path, "/site/include/frame.html"),
        Action::Finish(tree) => panic!("finished early with {:?}", tree),
    }
    resolver
        .supply(
            "/site/include/frame.html".to_string(),
            Some("<html><block name=\"head\"><title/></block><body><block name=\"main\"><i/></block></body></html>"),
        )
        .unwrap();
    let tree = finish(&resolver);
    assert_eq!(names(&tree.body), vec!["html"]);
    let html = match &tree.body[0] {
        Body::Element(el) => el,
        other => panic!("expected an element, found {:?}", other),
    };
    assert_eq!(names(&html.body), vec!["title", "body"]);
    let body = match &html.body[1] {
        Body::Element(el) => el,
        other => panic!("expected an element, found {:?}", other),
    };
    assert_eq!(names(&body.body), vec!["p"]);
    assert!(!holds_structural(&tree.body));
}

#[test]
fn parent_is_looked_for_beside_the_current_file() {
    let resolver = page("/site/www/home.html", "<block parent=\"./frame.html\"/>");
    match resolver.next().unwrap() {
        Action::Load(path) => assert_eq!(path, "/site/www/frame.html"),
        Action::Finish(tree) => panic!("finished early with {:?}", tree),
    }
}

#[test]
fn missing_parent_fails_the_page_and_no_other() {
    let mut broken = page("/site/www/a.html", "<block parent=\"missing.html\"/>");
    let sibling = page("/site/www/b.html", "<p/>");
    let wanted = match broken.next().unwrap() {
        Action::Load(path) => path,
        Action::Finish(tree) => panic!("finished early with {:?}", tree),
    };
    assert_eq!(wanted, "/site/www/missing.html");
    match broken.supply(wanted, None) {
        Err(SiteError::LoadError(path)) => assert_eq!(path, "/site/www/missing.html"),
        other => panic!("unexpected result {:?}", other),
    }
    assert_eq!(names(&finish(&sibling).body), vec!["p"]);
}

#[test]
fn parent_that_does_not_parse_fails_the_page() {
    let mut resolver = page("/site/www/a.html", "<block parent=\"frame.html\"/>");
    match resolver.supply("/site/www/frame.html".to_string(), Some("<a>")) {
        Err(SiteError::BuildError(sitegen::error::BuildError::NoClosingTag)) => {}
        other => panic!("unexpected result {:?}", other),
    }
}

#[test]
fn template_that_is_its_own_parent_is_too_deep() {
    let mut resolver = page("/site/www/a.html", "<block parent=\"a.html\"/>");
    resolver.supply("/site/www/a.html".to_string(), Some("<block parent=\"a.html\"/>")).unwrap();
    match resolver.next() {
        Err(SiteError::InheritanceTooDeep) => {}
        other => panic!("unexpected result {:?}", other),
    }
}
