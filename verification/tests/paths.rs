use std::path::PathBuf;
use sitegen::template::resolve_path;

#[test]
fn test_resolve() {
    let site_root = "/home/jcake/Code/personal-website/site.toml";
    let current_file = "/home/jcake/Code/personal-website/www/home.en.html";

    assert_eq!(PathBuf::from(resolve_path("#include/frame.html", current_file, site_root)), PathBuf::from("/home/jcake/Code/personal-website/include/frame.html"));
    assert_eq!(PathBuf::from(resolve_path("./frame.html", current_file, site_root)), PathBuf::from("/home/jcake/Code/personal-website/www/frame.html"));
    assert_eq!(PathBuf::from(resolve_path("frame.html", current_file, site_root)), PathBuf::from("/home/jcake/Code/personal-website/www/frame.html"));
}

#[test]
fn site_root_marker_counts_from_the_site_root() {
    assert_eq!(resolve_path("#include/frame.html", "/site/www/home.html", "/site/site.toml"), "/site/include/frame.html");
}

#[test]
fn relative_reference_counts_from_the_files_directory() {
    assert_eq!(resolve_path("./frame.html", "/site/www/home.html", "/site/site.toml"), "/site/www/frame.html");
    assert_eq!(resolve_path("frame.html", "/site/www/home.html", "/site/site.toml"), "/site/www/frame.html");
}

#[test]
fn absolute_reference_stands() {
    assert_eq!(resolve_path("/etc/frame.html", "/site/www/home.html", "/site/site.toml"), "/etc/frame.html");
}

#[test]
fn marker_under_a_site_at_the_root() {
    assert_eq!(resolve_path("#a.html", "/www/home.html", "/site.toml"), "//a.html");
}

#[test]
fn repeated_current_directory_is_dropped() {
    assert_eq!(resolve_path("././a/./b.html", "/www/home.html", "/site.toml"), "/www/a/./b.html");
    assert_eq!(resolve_path("", "/home.html", "/site.toml"), "/");
    assert_eq!(resolve_path("a.html", "home.html", "/site.toml"), "a.html");
}
