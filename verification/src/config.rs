//! The site configuration and the command line, as plain values.

use vstd::prelude::*;

verus! {

/// The language that a site uses when none is configured.
pub fn default_language() -> (res: String)
    ensures
        res@ == "en"@,
{
    "en".to_owned()
}

/// The directory that a site is built into when none is configured.
pub fn default_build() -> (res: String)
    ensures
        res@ == "build"@,
{
    "build".to_owned()
}

/// The content types of a site that configures none.
pub fn default_content_type() -> (res: Vec<ContentType>)
    ensures
        res@.len() == 0,
{
    Vec::new()
}

/// What the command line asks for.
#[derive(Debug, Clone)]
pub struct Args {
    /// Path of the configuration file, if it is not `site.toml` under the root.
    pub config: Option<String>,
    /// The site's root directory.
    pub root: String,
    /// The languages to build.
    pub languages: Vec<String>,
}

/// The configuration of a site.
#[derive(Debug)]
pub struct Config {
    pub url: Option<String>,
    pub default_language: String,
    pub languages: Vec<LanguageConfig>,
    pub pages: Vec<Page>,
    /// Directories, under the site root, that pages are looked for in.
    pub roots: Vec<String>,
    pub build: String,
    pub content_types: Vec<ContentType>,
}

/// One language of a site.
#[derive(Debug)]
pub struct LanguageConfig {
    /// The abbreviation, as it appears in file names.
    pub name: String,
    /// The language's name in the language itself.
    pub native: String,
    pub menu: Vec<Menu>,
}

/// An entry of a language's menu.
#[derive(Debug)]
pub enum Menu {
    Submenu { label: String, items: Vec<Menu> },
    Item { label: String, page: String },
}

/// A kind of source file and the script that handles it.
#[derive(Debug, Clone)]
pub struct ContentType {
    pub extensions: Vec<String>,
    pub handler: String,
}

/// A page of the site.
#[derive(Debug, Clone)]
pub struct Page {
    pub name: String,
    pub title: Option<String>,
}

impl Default for Config {
    fn default() -> (res: Config)
        ensures
            res.url is None,
            res.default_language@.len() == 0,
            res.languages@.len() == 0,
            res.pages@.len() == 0,
            res.roots@.len() == 0,
            res.build@.len() == 0,
            res.content_types@.len() == 0,
    {
        Config {
            url: None,
            default_language: String::new(),
            languages: Vec::new(),
            pages: Vec::new(),
            roots: Vec::new(),
            build: String::new(),
            content_types: Vec::new(),
        }
    }
}

} // verus!
