//! Page discovery: which source file stands for a page in a language.
//!
//! The library names the places where a page may lie and picks among those
//! that exist; looking at the file system is the caller's part.

use vstd::prelude::*;
use crate::config::Args;
use crate::config::Config;
use crate::config::ContentType;
use crate::config::LanguageConfig;
use crate::config::Page;
use crate::template::is_relative;
use crate::template::last_slash;
use crate::template::push_from;
use crate::text::chars_of;
use crate::text::string_of;

verus! {

/// A page to build: its source file, its language and its content type, the
/// last two as indices into the configuration's lists.
#[derive(Debug, Clone)]
pub struct PageResolver {
    pub path: String,
    pub language: usize,
    pub content_type: usize,
}

/// Model of a [`PageResolver`].
pub struct PageResolverView {
    pub path: Seq<char>,
    pub language: nat,
    pub content_type: nat,
}

impl View for PageResolver {
    type V = PageResolverView;

    open spec fn view(&self) -> PageResolverView {
        PageResolverView { path: self.path@, language: self.language as nat, content_type: self.content_type as nat }
    }
}

/// One thing to look for: a page in a language with an extension of a
/// content type, all as indices into the configuration's lists.
#[derive(Debug, Clone, Copy, PartialEq, Eq, Structural)]
pub struct PageQuery {
    pub language: usize,
    pub page: usize,
    pub content_type: usize,
    pub extension: usize,
}

/// The path `rel` under the directory `dir`; an absolute `rel` stands alone.
pub open spec fn path_join(dir: Seq<char>, rel: Seq<char>) -> Seq<char> {
    if !is_relative(rel) || dir.len() == 0 {
        rel
    } else if dir.last() == '/' {
        dir + rel
    } else {
        dir + seq!['/'] + rel
    }
}

/// The index of the last `.` among the first `end` characters of `p`.
pub open spec fn last_dot(p: Seq<char>, end: int) -> Option<int>
    decreases end,
{
    if end <= 0 || end > p.len() {
        None
    } else if p[end - 1] == '.' {
        Some(end - 1)
    } else {
        last_dot(p, end - 1)
    }
}

/// Where the file name of `p` begins: behind the last `/`.
pub open spec fn name_start(p: Seq<char>) -> int {
    match last_slash(p, p.len() as int) {
        Some(i) => i + 1,
        None => 0,
    }
}

/// Where the extension of the file name of `p` begins, its dot included:
/// at the last `.` of the file name, unless that is its first character.
pub open spec fn extension_start(p: Seq<char>) -> int {
    match last_dot(p, p.len() as int) {
        Some(d) => if d > name_start(p) {
            d
        } else {
            p.len() as int
        },
        None => p.len() as int,
    }
}

/// `p` with the extension of its file name replaced by `ext`.
pub open spec fn with_extension(p: Seq<char>, ext: Seq<char>) -> Seq<char> {
    p.subrange(0, extension_start(p)) + seq!['.'] + ext
}

/// The place where the page `page` lies under the page root `root` of the
/// site at `site`, in the language `language` and with the extension `ext`:
/// `site/root/page`, with `language.ext` as its extension.
pub open spec fn candidate(site: Seq<char>, root: Seq<char>, page: Seq<char>, language: Seq<char>, ext: Seq<char>) -> Seq<char> {
    with_extension(path_join(path_join(site, root), page), language + seq!['.'] + ext)
}

/// `dir` and `rel` joined; see [`path_join`].
pub fn join(dir: &[char], rel: &[char]) -> (res: Vec<char>)
    ensures
        res@ == path_join(dir@, rel@),
{
    let mut out: Vec<char> = Vec::new();
    let absolute = rel.len() > 0 && rel[0] == '/';
    if !absolute {
        push_from(&mut out, dir, 0);
        assert(dir@.subrange(0, dir@.len() as int) =~= dir@);
        if dir.len() > 0 && dir[dir.len() - 1] != '/' {
            out.push('/');
        }
    }
    push_from(&mut out, rel, 0);
    assert(rel@.subrange(0, rel@.len() as int) =~= rel@);
    assert(out@ =~= path_join(dir@, rel@));
    out
}

/// The index of the last `.` of `p`.
pub fn find_last_dot(p: &[char]) -> (res: Option<usize>)
    ensures
        res matches Some(i) ==> last_dot(p@, p@.len() as int) == Some(i as int) && i < p@.len(),
        res is None ==> last_dot(p@, p@.len() as int) is None,
{
    let mut end: usize = p.len();
    while end > 0
        invariant
            end <= p@.len(),
            last_dot(p@, p@.len() as int) == last_dot(p@, end as int),
        decreases end,
    {
        if p[end - 1] == '.' {
            return Some(end - 1);
        }
        end = end - 1;
    }
    None
}

/// The index of the last `/` of `p`.
pub fn find_last_slash(p: &[char]) -> (res: Option<usize>)
    ensures
        res matches Some(i) ==> last_slash(p@, p@.len() as int) == Some(i as int) && i < p@.len(),
        res is None ==> last_slash(p@, p@.len() as int) is None,
{
    let mut end: usize = p.len();
    while end > 0
        invariant
            end <= p@.len(),
            last_slash(p@, p@.len() as int) == last_slash(p@, end as int),
        decreases end,
    {
        if p[end - 1] == '/' {
            return Some(end - 1);
        }
        end = end - 1;
    }
    None
}

/// `p` with the extension of its file name replaced by `ext`.
pub fn replace_extension(p: &[char], ext: &[char]) -> (res: Vec<char>)
    ensures
        res@ == with_extension(p@, ext@),
{
    let len: usize = p.len();
    let start: usize = match find_last_slash(p) {
        Some(i) => i + 1,
        None => 0,
    };
    let cut: usize = match find_last_dot(p) {
        Some(d) => if d > start {
            d
        } else {
            len
        },
        None => len,
    };
    let mut out: Vec<char> = Vec::new();
    let mut k: usize = 0;
    while k < cut
        invariant
            k <= cut <= p@.len(),
            out@ == p@.subrange(0, k as int),
        decreases cut - k,
    {
        out.push(p[k]);
        k = k + 1;
        assert(out@ =~= p@.subrange(0, k as int));
    }
    out.push('.');
    push_from(&mut out, ext, 0);
    assert(ext@.subrange(0, ext@.len() as int) =~= ext@);
    assert(out@ =~= with_extension(p@, ext@));
    out
}

/// The place where a page may lie; see [`candidate`].
pub fn candidate_path(site: &str, root: &str, page: &str, language: &str, ext: &str) -> (res: String)
    ensures
        res@ == candidate(site@, root@, page@, language@, ext@),
{
    let site = chars_of(site);
    let root = chars_of(root);
    let page = chars_of(page);
    let mut suffix = chars_of(language);
    let ext = chars_of(ext);
    suffix.push('.');
    push_from(&mut suffix, ext.as_slice(), 0);
    assert(ext@.subrange(0, ext@.len() as int) =~= ext@);
    let under = join(site.as_slice(), root.as_slice());
    let plain = join(under.as_slice(), page.as_slice());
    let out = replace_extension(plain.as_slice(), suffix.as_slice());
    string_of(out.as_slice())
}

/// The index of the first language with the abbreviation `name`, from `from` on.
pub open spec fn language_index(languages: Seq<LanguageConfig>, name: Seq<char>, from: int) -> Option<int>
    decreases languages.len() - from,
{
    if from < 0 || from >= languages.len() {
        None
    } else if languages[from].name@ == name {
        Some(from)
    } else {
        language_index(languages, name, from + 1)
    }
}

/// The first configured language with the abbreviation `name`.
pub fn find_language(config: &Config, name: &String) -> (res: Option<usize>)
    ensures
        res matches Some(i) ==> language_index(config.languages@, name@, 0) == Some(i as int) && i
            < config.languages@.len(),
        res is None ==> language_index(config.languages@, name@, 0) is None,
{
    let mut i: usize = 0;
    while i < config.languages.len()
        invariant
            i <= config.languages@.len(),
            language_index(config.languages@, name@, 0) == language_index(config.languages@, name@, i as int),
        decreases config.languages@.len() - i,
    {
        if config.languages[i].name == *name {
            return Some(i);
        }
        i = i + 1;
    }
    None
}

/// The queries for one page in one language and one content type: one for
/// each of the first `n` extensions of the content type.
pub open spec fn extension_queries(language: int, page: int, content_type: int, n: int) -> Seq<PageQuery> {
    Seq::new(
        if n >= 0 { n as nat } else { 0 },
        |e: int|
            PageQuery {
                language: language as usize,
                page: page as usize,
                content_type: content_type as usize,
                extension: e as usize,
            },
    )
}

/// The queries for one page in one language: those of the first `n` content
/// types, in order.
pub open spec fn type_queries(types: Seq<ContentType>, language: int, page: int, n: int) -> Seq<PageQuery>
    decreases n,
{
    if n <= 0 || n > types.len() {
        Seq::empty()
    } else {
        type_queries(types, language, page, n - 1) + extension_queries(
            language,
            page,
            n - 1,
            types[n - 1].extensions@.len() as int,
        )
    }
}

/// The queries for one language: those of the first `n` pages, in order.
pub open spec fn language_queries(pages: Seq<Page>, types: Seq<ContentType>, language: int, n: int) -> Seq<PageQuery>
    decreases n,
{
    if n <= 0 || n > pages.len() {
        Seq::empty()
    } else {
        language_queries(pages, types, language, n - 1) + type_queries(types, language, n - 1, types.len() as int)
    }
}

/// The queries for the first `n` of the languages asked for, in order; a
/// language that the site does not configure contributes none.
pub open spec fn queries_for(asked: Seq<String>, config: Config, n: int) -> Seq<PageQuery>
    decreases n,
{
    if n <= 0 || n > asked.len() {
        Seq::empty()
    } else {
        queries_for(asked, config, n - 1) + match language_index(config.languages@, asked[n - 1]@, 0) {
            Some(language) => language_queries(
                config.pages@,
                config.content_types@,
                language,
                config.pages@.len() as int,
            ),
            None => Seq::empty(),
        }
    }
}

/// Whether a query points inside the configuration's lists.
pub open spec fn query_in(q: PageQuery, config: Config) -> bool {
    &&& q.language < config.languages@.len()
    &&& q.page < config.pages@.len()
    &&& q.content_type < config.content_types@.len()
    &&& q.extension < config.content_types@[q.content_type as int].extensions@.len()
}

/// Everything to look for: for every language asked for that the site
/// configures, every page, every content type and every extension of it, in
/// that nesting.
pub fn page_queries(args: &Args, config: &Config) -> (res: Vec<PageQuery>)
    ensures
        res@ == queries_for(args.languages@, *config, args.languages@.len() as int),
        forall|i: int| 0 <= i < res@.len() ==> query_in(#[trigger] res@[i], *config),
{
    let mut out: Vec<PageQuery> = Vec::new();
    let mut l: usize = 0;
    assert(out@ =~= queries_for(args.languages@, *config, 0));
    while l < args.languages.len()
        invariant
            l <= args.languages@.len(),
            out@ == queries_for(args.languages@, *config, l as int),
            forall|i: int| 0 <= i < out@.len() ==> query_in(#[trigger] out@[i], *config),
        decreases args.languages@.len() - l,
    {
        let ghost before_language = out@;
        match find_language(config, &args.languages[l]) {
            Some(language) => {
                let mut p: usize = 0;
                assert(out@ =~= before_language + language_queries(
                    config.pages@,
                    config.content_types@,
                    language as int,
                    0,
                ));
                while p < config.pages.len()
                    invariant
                        p <= config.pages@.len(),
                        language < config.languages@.len(),
                        out@ == before_language + language_queries(
                            config.pages@,
                            config.content_types@,
                            language as int,
                            p as int,
                        ),
                        forall|i: int| 0 <= i < out@.len() ==> query_in(#[trigger] out@[i], *config),
                    decreases config.pages@.len() - p,
                {
                    let ghost before_page = out@;
                    let mut c: usize = 0;
                    assert(out@ =~= before_page + type_queries(config.content_types@, language as int, p as int, 0));
                    while c < config.content_types.len()
                        invariant
                            c <= config.content_types@.len(),
                            language < config.languages@.len(),
                            p < config.pages@.len(),
                            out@ == before_page + type_queries(
                                config.content_types@,
                                language as int,
                                p as int,
                                c as int,
                            ),
                            forall|i: int| 0 <= i < out@.len() ==> query_in(#[trigger] out@[i], *config),
                        decreases config.content_types@.len() - c,
                    {
                        let ghost before_type = out@;
                        let n: usize = config.content_types[c].extensions.len();
                        let mut e: usize = 0;
                        assert(out@ =~= before_type + extension_queries(language as int, p as int, c as int, 0));
                        while e < n
                            invariant
                                e <= n,
                                n == config.content_types@[c as int].extensions@.len(),
                                c < config.content_types@.len(),
                                language < config.languages@.len(),
                                p < config.pages@.len(),
                                out@ == before_type + extension_queries(
                                    language as int,
                                    p as int,
                                    c as int,
                                    e as int,
                                ),
                                forall|i: int| 0 <= i < out@.len() ==> query_in(#[trigger] out@[i], *config),
                            decreases n - e,
                        {
                            out.push(PageQuery { language, page: p, content_type: c, extension: e });
                            e = e + 1;
                            assert(out@ =~= before_type + extension_queries(
                                language as int,
                                p as int,
                                c as int,
                                e as int,
                            ));
                        }
                        c = c + 1;
                        assert(out@ =~= before_page + type_queries(
                            config.content_types@,
                            language as int,
                            p as int,
                            c as int,
                        ));
                    }
                    p = p + 1;
                    assert(out@ =~= before_language + language_queries(
                        config.pages@,
                        config.content_types@,
                        language as int,
                        p as int,
                    ));
                }
            },
            None => {},
        }
        l = l + 1;
        assert(out@ =~= queries_for(args.languages@, *config, l as int));
    }
    out
}

/// The place of a query under the page root `root` of the site at `site`.
pub open spec fn place(site: Seq<char>, config: Config, q: PageQuery, root: int) -> Seq<char> {
    candidate(
        site,
        config.roots@[root]@,
        config.pages@[q.page as int].name@,
        config.languages@[q.language as int].name@,
        config.content_types@[q.content_type as int].extensions@[q.extension as int]@,
    )
}

/// The places where what a query looks for may lie: one under each page
/// root of the site at `site`, in the order of the roots.
pub fn page_places(site: &str, config: &Config, q: &PageQuery) -> (res: Vec<String>)
    requires
        query_in(*q, *config),
    ensures
        res@.len() == config.roots@.len(),
        forall|r: int| 0 <= r < res@.len() ==> (#[trigger] res@[r])@ == place(site@, *config, *q, r),
{
    let mut out: Vec<String> = Vec::new();
    let mut r: usize = 0;
    while r < config.roots.len()
        invariant
            r <= config.roots@.len(),
            query_in(*q, *config),
            out@.len() == r,
            forall|k: int| 0 <= k < r ==> (#[trigger] out@[k])@ == place(site@, *config, *q, k),
        decreases config.roots@.len() - r,
    {
        out.push(
            candidate_path(
                site,
                config.roots[r].as_str(),
                config.pages[q.page].name.as_str(),
                config.languages[q.language].name.as_str(),
                config.content_types[q.content_type].extensions[q.extension].as_str(),
            ),
        );
        r = r + 1;
    }
    out
}

/// How many of the first `n` entries are true.
pub open spec fn count_true(exists: Seq<bool>, n: int) -> nat
    decreases n,
{
    if n <= 0 || n > exists.len() {
        0
    } else if exists[n - 1] {
        count_true(exists, n - 1) + 1
    } else {
        count_true(exists, n - 1)
    }
}

/// The index of the last true entry among the first `n`.
pub open spec fn last_true(exists: Seq<bool>, n: int) -> Option<int>
    decreases n,
{
    if n <= 0 || n > exists.len() {
        None
    } else if exists[n - 1] {
        Some(n - 1)
    } else {
        last_true(exists, n - 1)
    }
}

/// The one place that holds a file, if exactly one does: a page that lies
/// nowhere is missing, and one that lies in several places is ambiguous.
pub open spec fn chosen(exists: Seq<bool>) -> Option<int> {
    if count_true(exists, exists.len() as int) == 1 {
        last_true(exists, exists.len() as int)
    } else {
        None
    }
}

/// Picks the source of a page among the places where it may lie, given for
/// each place whether a file exists there.
pub fn choose_page(exists: &Vec<bool>) -> (res: Option<usize>)
    ensures
        res matches Some(i) ==> chosen(exists@) == Some(i as int) && i < exists@.len() && exists@[i as int],
        res is None ==> chosen(exists@) is None,
{
    let mut found: Option<usize> = None;
    let mut count: usize = 0;
    let mut i: usize = 0;
    while i < exists.len()
        invariant
            i <= exists@.len(),
            count == count_true(exists@, i as int),
            count <= i,
            match found {
                Some(k) => last_true(exists@, i as int) == Some(k as int) && k < i && exists@[k as int],
                None => last_true(exists@, i as int) is None,
            },
            count >= 1 ==> found is Some,
        decreases exists@.len() - i,
    {
        if exists[i] {
            count = count + 1;
            found = Some(i);
        }
        i = i + 1;
    }
    if count == 1 {
        found
    } else {
        None
    }
}

/// The page that a query finds, given for each of its places whether a file
/// exists there.
pub fn resolve_query(places: &Vec<String>, exists: &Vec<bool>, q: &PageQuery) -> (res: Option<PageResolver>)
    requires
        places@.len() == exists@.len(),
    ensures
        match res {
            Some(page) => chosen(exists@) matches Some(i) && 0 <= i < places@.len() && page@ == (PageResolverView {
                path: places@[i]@,
                language: q.language as nat,
                content_type: q.content_type as nat,
            }),
            None => chosen(exists@) is None,
        },
{
    match choose_page(exists) {
        Some(i) => Some(PageResolver { path: places[i].clone(), language: q.language, content_type: q.content_type }),
        None => None,
    }
}

/// The texts of a list of strings.
pub open spec fn texts(strings: Seq<String>) -> Seq<Seq<char>> {
    Seq::new(strings.len(), |i: int| strings[i]@)
}

/// Whether `path` is among `existing`.
pub fn is_listed(existing: &Vec<String>, path: &String) -> (res: bool)
    ensures
        res == texts(existing@).contains(path@),
{
    let mut i: usize = 0;
    while i < existing.len()
        invariant
            i <= existing@.len(),
            forall|k: int| 0 <= k < i ==> texts(existing@)[k] != path@,
        decreases existing@.len() - i,
    {
        if existing[i] == *path {
            assert(texts(existing@)[i as int] == path@);
            return true;
        }
        i = i + 1;
    }
    false
}

/// For each page root, whether the place of the query under it is among
/// the files in `existing`.
pub open spec fn exists_at(site: Seq<char>, config: Config, q: PageQuery, existing: Seq<Seq<char>>) -> Seq<bool> {
    Seq::new(config.roots@.len(), |r: int| existing.contains(place(site, config, q, r)))
}

/// The page that a query finds among the files in `existing`.
pub open spec fn found_page(site: Seq<char>, config: Config, q: PageQuery, existing: Seq<Seq<char>>) -> Option<
    PageResolverView,
> {
    match chosen(exists_at(site, config, q, existing)) {
        Some(root) => Some(
            PageResolverView {
                path: place(site, config, q, root),
                language: q.language as nat,
                content_type: q.content_type as nat,
            },
        ),
        None => None,
    }
}

/// The pages that the first `n` queries find, in order.
pub open spec fn pages_found(
    site: Seq<char>,
    config: Config,
    queries: Seq<PageQuery>,
    existing: Seq<Seq<char>>,
    n: int,
) -> Seq<PageResolverView>
    decreases n,
{
    if n <= 0 || n > queries.len() {
        Seq::empty()
    } else {
        match found_page(site, config, queries[n - 1], existing) {
            Some(page) => pages_found(site, config, queries, existing, n - 1).push(page),
            None => pages_found(site, config, queries, existing, n - 1),
        }
    }
}

/// The models of a list of pages.
pub open spec fn pages_view(pages: Seq<PageResolver>) -> Seq<PageResolverView> {
    Seq::new(pages.len(), |i: int| pages[i]@)
}

/// The pages to build for the site at `site`, given the files that exist:
/// for every language asked for that the site configures, every page, every
/// content type and every extension, the one file that lies at the page's
/// place under a page root. A page with no such file is left out, and so is
/// one with several.
pub fn list_pages(args: &Args, config: &Config, site: &str, existing: &Vec<String>) -> (res: Vec<PageResolver>)
    ensures
        pages_view(res@) == pages_found(
            site@,
            *config,
            queries_for(args.languages@, *config, args.languages@.len() as int),
            texts(existing@),
            queries_for(args.languages@, *config, args.languages@.len() as int).len() as int,
        ),
{
    let queries = page_queries(args, config);
    let mut out: Vec<PageResolver> = Vec::new();
    let mut k: usize = 0;
    assert(pages_view(out@) =~= pages_found(site@, *config, queries@, texts(existing@), 0));
    while k < queries.len()
        invariant
            k <= queries@.len(),
            forall|i: int| 0 <= i < queries@.len() ==> query_in(#[trigger] queries@[i], *config),
            pages_view(out@) == pages_found(site@, *config, queries@, texts(existing@), k as int),
        decreases queries@.len() - k,
    {
        let q = queries[k];
        assert(query_in(queries@[k as int], *config));
        let places = page_places(site, config, &q);
        let mut exists: Vec<bool> = Vec::new();
        let mut r: usize = 0;
        while r < places.len()
            invariant
                r <= places@.len(),
                places@.len() == config.roots@.len(),
                forall|j: int| 0 <= j < places@.len() ==> (#[trigger] places@[j])@ == place(site@, *config, q, j),
                exists@.len() == r,
                forall|j: int| 0 <= j < r ==> exists@[j] == texts(existing@).contains(place(site@, *config, q, j)),
            decreases places@.len() - r,
        {
            let listed = is_listed(existing, &places[r]);
            assert(places@[r as int]@ == place(site@, *config, q, r as int));
            exists.push(listed);
            r = r + 1;
        }
        assert(exists@ =~= exists_at(site@, *config, q, texts(existing@)));
        let ghost before = pages_view(out@);
        match resolve_query(&places, &exists, &q) {
            Some(page) => {
                out.push(page);
                assert(pages_view(out@) =~= before.push(page@));
            },
            None => {},
        }
        k = k + 1;
    }
    out
}

} // verus!
