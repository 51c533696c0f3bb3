//! Templates: path references, inheritance and the typed element tree.

pub mod elements;
pub mod factory;
pub mod resolver;

use vstd::prelude::*;
use crate::text::chars_of;
use crate::text::string_of;

verus! {

/// The first character of a reference that is counted from the site root.
pub const SITE_ROOT_MARKER: char = '#';

/// The index of the last `/` among the first `end` characters of `p`.
pub open spec fn last_slash(p: Seq<char>, end: int) -> Option<int>
    decreases end,
{
    if end <= 0 || end > p.len() {
        None
    } else if p[end - 1] == '/' {
        Some(end - 1)
    } else {
        last_slash(p, end - 1)
    }
}

/// The directory that holds the file `p`: what stands before the last `/`,
/// `/` itself for a file directly under the root, nothing for a bare name.
pub open spec fn parent_dir(p: Seq<char>) -> Seq<char> {
    match last_slash(p, p.len() as int) {
        None => Seq::empty(),
        Some(i) => if i == 0 {
            seq!['/']
        } else {
            p.subrange(0, i)
        },
    }
}

/// Whether `p` is a relative path.
pub open spec fn is_relative(p: Seq<char>) -> bool {
    p.len() == 0 || p[0] != '/'
}

/// `p` without any leading `./`.
pub open spec fn strip_cur_dir(p: Seq<char>) -> Seq<char>
    decreases p.len(),
{
    if p.len() >= 2 && p[0] == '.' && p[1] == '/' {
        strip_cur_dir(p.subrange(2, p.len() as int))
    } else {
        p
    }
}

/// The path `rel` under the directory `dir`.
pub open spec fn join_path(dir: Seq<char>, rel: Seq<char>) -> Seq<char> {
    if dir.len() == 0 {
        rel
    } else if dir.last() == '/' {
        dir + rel
    } else {
        dir + seq!['/'] + rel
    }
}

/// The reference with a leading site-root marker replaced by the site root
/// directory and a separator; the site root directory is the one that holds
/// the site's configuration file.
pub open spec fn rooted(reference: Seq<char>, site_config: Seq<char>) -> Seq<char> {
    if reference.len() > 0 && reference[0] == '#' {
        parent_dir(site_config) + seq!['/'] + reference.subrange(1, reference.len() as int)
    } else {
        reference
    }
}

/// The file that `reference` names when it is written in `current_file`.
pub open spec fn resolved_path(reference: Seq<char>, current_file: Seq<char>, site_config: Seq<char>) -> Seq<char> {
    let p = rooted(reference, site_config);
    if is_relative(p) {
        join_path(parent_dir(current_file), strip_cur_dir(p))
    } else {
        p
    }
}

/// The directory that holds the file `p`.
pub fn parent_of(p: &[char]) -> (res: Vec<char>)
    ensures
        res@ == parent_dir(p@),
{
    let mut end: usize = p.len();
    while end > 0
        invariant
            end <= p@.len(),
            last_slash(p@, p@.len() as int) == last_slash(p@, end as int),
        decreases end,
    {
        if p[end - 1] == '/' {
            let mut out: Vec<char> = Vec::new();
            if end - 1 == 0 {
                out.push('/');
                assert(out@ =~= seq!['/']);
            } else {
                let mut k: usize = 0;
                while k < end - 1
                    invariant
                        k <= end - 1 < p@.len(),
                        out@ == p@.subrange(0, k as int),
                    decreases end - 1 - k,
                {
                    out.push(p[k]);
                    k = k + 1;
                    assert(out@ =~= p@.subrange(0, k as int));
                }
            }
            return out;
        }
        end = end - 1;
    }
    Vec::new()
}

/// Appends the characters of `s` from `from` on to `out`.
pub fn push_from(out: &mut Vec<char>, s: &[char], from: usize)
    requires
        from <= s@.len(),
    ensures
        final(out)@ == old(out)@ + s@.subrange(from as int, s@.len() as int),
{
    let mut k: usize = from;
    while k < s.len()
        invariant
            from <= k <= s@.len(),
            out@ == old(out)@ + s@.subrange(from as int, k as int),
        decreases s@.len() - k,
    {
        out.push(s[k]);
        k = k + 1;
        assert(out@ =~= old(out)@ + s@.subrange(from as int, k as int));
    }
}

/// The index behind any leading `./` of `p`, counted from `from`.
pub fn skip_cur_dir(p: &[char], from: usize) -> (res: usize)
    requires
        from <= p@.len(),
    ensures
        from <= res <= p@.len(),
        p@.subrange(res as int, p@.len() as int) == strip_cur_dir(p@.subrange(from as int, p@.len() as int)),
{
    let mut k: usize = from;
    loop
        invariant
            from <= k <= p@.len(),
            strip_cur_dir(p@.subrange(from as int, p@.len() as int)) == strip_cur_dir(
                p@.subrange(k as int, p@.len() as int),
            ),
        decreases p@.len() - k,
    {
        let ghost here = p@.subrange(k as int, p@.len() as int);
        if p.len() - k >= 2 && p[k] == '.' && p[k + 1] == '/' {
            assert(here.subrange(2, here.len() as int) =~= p@.subrange(k + 2, p@.len() as int));
            k = k + 2;
        } else {
            return k;
        }
    }
}

/// [`resolved_path`] on characters.
pub fn resolve_chars(reference: &[char], current_file: &[char], site_config: &[char]) -> (res: Vec<char>)
    requires
        !is_relative(site_config@),
    ensures
        res@ == resolved_path(reference@, current_file@, site_config@),
{
    let mut p: Vec<char> = Vec::new();
    if reference.len() > 0 && reference[0] == '#' {
        p = parent_of(site_config);
        p.push('/');
        push_from(&mut p, reference, 1);
        assert(p@ =~= rooted(reference@, site_config@));
    } else {
        push_from(&mut p, reference, 0);
        assert(p@ =~= reference@);
    }
    if p.len() == 0 || p[0] != '/' {
        let mut out = parent_of(current_file);
        let from = skip_cur_dir(p.as_slice(), 0);
        assert(p@.subrange(0, p@.len() as int) =~= p@);
        if out.len() > 0 && out[out.len() - 1] != '/' {
            out.push('/');
        }
        push_from(&mut out, p.as_slice(), from);
        assert(out@ =~= join_path(parent_dir(current_file@), strip_cur_dir(p@)));
        out
    } else {
        p
    }
}

/// Maps a path reference of a directive to a file path, without touching the
/// file system. A reference that starts with `#` is counted from the site
/// root, the directory of the configuration file `site_config`; any other
/// relative reference is counted from the directory of `current_file`; an
/// absolute reference stands as it is.
pub fn resolve_path(path: &str, current_file: &str, site_config: &str) -> (res: String)
    requires
        !is_relative(site_config@),
    ensures
        res@ == resolved_path(path@, current_file@, site_config@),
{
    let reference = chars_of(path);
    let current = chars_of(current_file);
    let config = chars_of(site_config);
    let out = resolve_chars(reference.as_slice(), current.as_slice(), config.as_slice());
    string_of(out.as_slice())
}

/// The directory of a file with an absolute path has an absolute path.
pub proof fn lemma_parent_of_absolute(p: Seq<char>)
    requires
        !is_relative(p),
    ensures
        !is_relative(parent_dir(p)),
{
    lemma_last_slash_found(p, p.len() as int);
}

/// Where a `/` stands among the first `end` characters, the last one is
/// found, and nothing behind it up to `end` is a `/`.
pub proof fn lemma_last_slash_found(p: Seq<char>, end: int)
    requires
        0 < end <= p.len(),
        p[0] == '/',
    ensures
        last_slash(p, end) matches Some(i) && 0 <= i < end && p[i] == '/',
    decreases end,
{
    if p[end - 1] != '/' {
        lemma_last_slash_found(p, end - 1);
    }
}

/// A reference resolves to an absolute path wherever the current file and
/// the configuration file have absolute paths; and an absolute reference
/// that does not start with the site-root marker stands as it is.
pub proof fn lemma_resolved_is_absolute(reference: Seq<char>, current_file: Seq<char>, site_config: Seq<char>)
    requires
        !is_relative(current_file),
        !is_relative(site_config),
    ensures
        !is_relative(resolved_path(reference, current_file, site_config)),
        !is_relative(reference) ==> resolved_path(reference, current_file, site_config) == reference,
{
    lemma_parent_of_absolute(current_file);
    lemma_parent_of_absolute(site_config);
}

} // verus!
