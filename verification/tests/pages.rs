use sitegen::config::default_build;
use sitegen::config::default_content_type;
use sitegen::config::default_language;
use sitegen::config::Args;
use sitegen::config::Config;
use sitegen::config::ContentType;
use sitegen::config::LanguageConfig;
use sitegen::config::Page;
use sitegen::pages::candidate_path;
use sitegen::pages::choose_page;
use sitegen::pages::list_pages;
use sitegen::pages::page_places;
use sitegen::pages::page_queries;
use sitegen::pages::PageQuery;

fn site() -> (Args, Config) {
    let args = Args { config: None, root: "/site".to_string(), languages: vec!["en".to_string(), "xx".to_string(), "de".to_string()] };
    let mut config = Config::default();
    config.languages = vec![
        LanguageConfig { name: "de".to_string(), native: "Deutsch".to_string(), menu: vec![] },
        LanguageConfig { name: "en".to_string(), native: "English".to_string(), menu: vec![] },
    ];
    config.pages = vec![
        Page { name: "home".to_string(), title: None },
        Page { name: "about".to_string(), title: Some("About".to_string()) },
    ];
    config.roots = vec!["www".to_string(), "include".to_string()];
    config.content_types = vec![
        ContentType { extensions: vec!["html".to_string(), "htm".to_string()], handler: String::new() },
        ContentType { extensions: vec!["md".to_string()], handler: String::new() },
    ];
    (args, config)
}

#[test]
fn defaults() {
    assert_eq!(default_language(), "en");
    assert_eq!(default_build(), "build");
    assert!(default_content_type().is_empty());
    let config = Config::default();
    assert!(config.url.is_none());
    assert!(config.pages.is_empty());
}

#[test]
fn place_of_a_page() {
    assert_eq!(candidate_path("/site", "www", "home", "en", "html"), "/site/www/home.en.html");
    assert_eq!(candidate_path("/site/", "www/", "blog.v2", "de", "md"), "/site/www/blog.de.md");
    assert_eq!(candidate_path("/site", "/abs", ".hidden", "en", "html"), "/abs/.hidden.en.html");
    assert_eq!(candidate_path("/si.te", "www", "home", "en", "html"), "/si.te/www/home.en.html");
}

#[test]
fn queries_nest_language_page_type_extension() {
    let (args, config) = site();
    let queries = page_queries(&args, &config);
    assert_eq!(queries.len(), 2 * 2 * 3);
    assert_eq!(queries[0], PageQuery { language: 1, page: 0, content_type: 0, extension: 0 });
    assert_eq!(queries[1], PageQuery { language: 1, page: 0, content_type: 0, extension: 1 });
    assert_eq!(queries[2], PageQuery { language: 1, page: 0, content_type: 1, extension: 0 });
    assert_eq!(queries[3], PageQuery { language: 1, page: 1, content_type: 0, extension: 0 });
    assert_eq!(queries[6], PageQuery { language: 0, page: 0, content_type: 0, extension: 0 });
}

#[test]
fn places_follow_the_roots() {
    let (_, config) = site();
    let q = PageQuery { language: 0, page: 1, content_type: 1, extension: 0 };
    assert_eq!(page_places("/site", &config, &q), vec!["/site/www/about.de.md", "/site/include/about.de.md"]);
}

#[test]
fn only_a_single_file_is_chosen() {
    assert_eq!(choose_page(&vec![]), None);
    assert_eq!(choose_page(&vec![false, false]), None);
    assert_eq!(choose_page(&vec![false, true, false]), Some(1));
    assert_eq!(choose_page(&vec![true, false, true]), None);
}

#[test]
fn pages_are_listed_from_the_files_that_exist() {
    let (args, config) = site();
    let existing = vec![
        "/site/www/home.en.html".to_string(),
        "/site/www/about.en.md".to_string(),
        "/site/include/about.en.md".to_string(),
        "/site/include/about.de.htm".to_string(),
        "/site/www/other.en.html".to_string(),
    ];
    let pages = list_pages(&args, &config, "/site", &existing);
    let found: Vec<(&str, usize, usize)> = pages.iter().map(|p| (p.path.as_str(), p.language, p.content_type)).collect();
    assert_eq!(found, vec![("/site/www/home.en.html", 1, 0), ("/site/include/about.de.htm", 0, 0)]);
}
