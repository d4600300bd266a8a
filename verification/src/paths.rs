//! Paths as text: normal form, joining, and the alias of the repository that a
//! path belongs to.
use vstd::prelude::*;
use vstd::slice::slice_subrange;

use crate::text;
use crate::text::{
    chars_of, copy_of, push_all, replace_char, same, starts_with, string_of, strip_end, strip_start,
};

verus! {

// ---------------------------------------------------------------------------
// Normal form
// ---------------------------------------------------------------------------

/// The marker of a verbatim Windows path.
pub open spec fn verbatim_marker() -> Seq<char> {
    seq!['\\', '\\', '?', '\\']
}

/// A path in normal form: without the verbatim marker and with `/` for every
/// backslash.
pub open spec fn normal(path: Seq<char>) -> Seq<char> {
    text::replaced(
        if text::begins_with(path, verbatim_marker()) {
            path.skip(4)
        } else {
            path
        },
        '\\',
        '/',
    )
}

fn normalized(path: &[char]) -> (r: Vec<char>)
    ensures
        r@ == normal(path@),
{
    let mut marker: Vec<char> = Vec::new();
    marker.push('\\');
    marker.push('\\');
    marker.push('?');
    marker.push('\\');
    proof {
        assert(marker@ =~= verbatim_marker());
        assert(marker@.len() == 4);
    }
    let rest = if starts_with(path, marker.as_slice()) {
        proof {
            assert(path@.subrange(4, path@.len() as int) =~= path@.skip(4));
        }
        slice_subrange(path, 4, path.len())
    } else {
        path
    };
    replace_char(rest, '\\', '/')
}

/// A path in normal form: without the verbatim marker `\\?\` and with `/` for
/// every backslash.
pub fn normalize_path_str(path: &str) -> (r: String)
    ensures
        r@ == normal(path@),
{
    string_of(normalized(chars_of(path).as_slice()).as_slice())
}

/// A root directory in normal form, without a `/` at its end.
pub open spec fn normal_root(root: Seq<char>) -> Seq<char> {
    text::stripped_end(normal(root), '/')
}

/// A root directory in normal form, without a `/` at its end.
pub fn normalize_root(root: &str) -> (r: String)
    ensures
        r@ == normal_root(root@),
{
    let n = normalized(chars_of(root).as_slice());
    string_of(strip_end(n.as_slice(), '/'))
}

/// A path in normal form stays as it is.
pub proof fn law_normal_idempotent(path: Seq<char>)
    ensures
        normal(normal(path)) == normal(path),
{
    let n = normal(path);
    if text::begins_with(n, verbatim_marker()) {
        assert(n.subrange(0, 4)[0] == '\\');
        assert(n[0] == '\\');
    }
    assert(normal(n) =~= n);
}

// ---------------------------------------------------------------------------
// Joining
// ---------------------------------------------------------------------------

/// A path that begins at the root of the file system.
pub open spec fn is_absolute(path: Seq<char>) -> bool {
    path.len() > 0 && path[0] == '/'
}

/// A path below a base; an absolute path stays as it is.
pub open spec fn joined(base: Seq<char>, path: Seq<char>) -> Seq<char> {
    if is_absolute(path) || base.len() == 0 {
        path
    } else if base.last() == '/' {
        base + path
    } else {
        base.push('/') + path
    }
}

/// A path below a base; an absolute path stays as it is.
pub fn join(base: &str, path: &str) -> (r: String)
    ensures
        r@ == joined(base@, path@),
{
    let b = chars_of(base);
    let p = chars_of(path);
    if (p.len() > 0 && p[0] == '/') || b.len() == 0 {
        return string_of(p.as_slice());
    }
    let slash = b[b.len() - 1] == '/';
    let mut out = b;
    if !slash {
        out.push('/');
    }
    push_all(&mut out, p.as_slice());
    string_of(out.as_slice())
}

/// The path of a tool request, made absolute and brought to normal form.
pub fn normalize_tool_path(path: &str, project_root: &str) -> (r: String)
    ensures
        r@ == normal(joined(project_root@, path@)),
{
    let resolved = join(project_root, path);
    normalize_path_str(resolved.as_str())
}

// ---------------------------------------------------------------------------
// Filters
// ---------------------------------------------------------------------------

/// `s` without the `./` at its front.
pub open spec fn without_dots(s: Seq<char>) -> Seq<char>
    decreases s.len(),
{
    if s.len() >= 2 && s[0] == '.' && s[1] == '/' {
        without_dots(s.skip(2))
    } else {
        s
    }
}

fn strip_dots(s: &[char]) -> (r: &[char])
    ensures
        r@ == without_dots(s@),
{
    let mut from: usize = 0;
    proof {
        assert(s@.skip(0) =~= s@);
    }
    while s.len() - from >= 2 && s[from] == '.' && s[from + 1] == '/'
        invariant
            from <= s.len(),
            without_dots(s@) == without_dots(s@.skip(from as int)),
        decreases s.len() - from,
    {
        proof {
            assert(s@.skip(from as int).skip(2) =~= s@.skip(from + 2));
        }
        from += 2;
    }
    proof {
        assert(s@.subrange(from as int, s@.len() as int) =~= s@.skip(from as int));
    }
    slice_subrange(s, from, s.len())
}

/// A path filter in normal form, without the `./` at its front.
pub open spec fn normal_filter(filter: Seq<char>) -> Seq<char> {
    without_dots(normal(filter))
}

/// A path filter in normal form, without the `./` at its front.
pub fn normalize_filter_path(filter: &str) -> (r: String)
    ensures
        r@ == normal_filter(filter@),
{
    let n = normalized(chars_of(filter).as_slice());
    string_of(strip_dots(n.as_slice()))
}

/// The path relative to a root, where it begins with that root.
pub open spec fn relative_to(path: Seq<char>, root: Seq<char>) -> Seq<char> {
    text::stripped_start(
        if text::begins_with(path, root) {
            path.skip(root.len() as int)
        } else {
            path
        },
        '/',
    )
}

/// The path relative to a root, where it begins with that root.
pub fn relative_path(path: &str, root: &str) -> (r: String)
    ensures
        r@ == relative_to(path@, root@),
{
    let p = chars_of(path);
    let r = chars_of(root);
    let ps = p.as_slice();
    let rest = if starts_with(ps, r.as_slice()) {
        proof {
            assert(ps@.subrange(r@.len() as int, ps@.len() as int) =~= ps@.skip(r@.len() as int));
        }
        slice_subrange(ps, r.len(), ps.len())
    } else {
        ps
    };
    string_of(strip_start(rest, '/'))
}

/// A path passes a filter: from the root on, or as it stands, it begins with
/// the filter.
pub open spec fn passes_filter(path: Seq<char>, filter: Seq<char>, root: Seq<char>) -> bool {
    text::begins_with(without_dots(normal(path)), filter) || text::begins_with(
        relative_to(normal(path), root),
        filter,
    )
}

/// Whether a path passes a filter: from the root on, or as it stands, it begins
/// with the filter. Filter and root are in normal form.
pub fn path_matches_filter(path: &str, filter: &str, project_root: &str) -> (r: bool)
    ensures
        r == passes_filter(path@, filter@, project_root@),
{
    let f = chars_of(filter);
    if begins_with_filter(path, filter) {
        return true;
    }
    let n = normalize_path_str(path);
    let rel = relative_path(n.as_str(), project_root);
    starts_with(chars_of(rel.as_str()).as_slice(), f.as_slice())
}

/// Whether a path, in normal form and without the `./` at its front, begins
/// with a filter.
pub fn begins_with_filter(path: &str, filter: &str) -> (r: bool)
    ensures
        r == text::begins_with(without_dots(normal(path@)), filter@),
{
    let n = normalized(chars_of(path).as_slice());
    starts_with(strip_dots(n.as_slice()), chars_of(filter).as_slice())
}

// ---------------------------------------------------------------------------
// Aliases
// ---------------------------------------------------------------------------

/// A tool path without the alias of its project at the front.
pub open spec fn without_alias(path: Seq<char>, alias: Seq<char>) -> Seq<char> {
    if text::begins_with(path, alias.push('/')) {
        path.skip(alias.len() as int + 1)
    } else {
        path
    }
}

/// A tool path without the alias of its project at the front.
pub fn strip_alias_prefix(path: &str, alias: Option<&String>) -> (r: String)
    ensures
        r@ == match alias {
            Some(a) => without_alias(path@, a@),
            None => path@,
        },
{
    match alias {
        Some(a) => {
            let p = chars_of(path);
            let mut prefix = chars_of(a.as_str());
            prefix.push('/');
            let ps = p.as_slice();
            if starts_with(ps, prefix.as_slice()) {
                proof {
                    assert(ps@.subrange(prefix@.len() as int, ps@.len() as int) =~= ps@.skip(
                        prefix@.len() as int,
                    ));
                }
                string_of(slice_subrange(ps, prefix.len(), ps.len()))
            } else {
                string_of(ps)
            }
        },
        None => string_of(chars_of(path).as_slice()),
    }
}

/// The alias in front of a path; nothing in front where the alias is empty.
pub open spec fn under_alias(alias: Seq<char>, relative: Seq<char>) -> Seq<char> {
    if alias.len() == 0 {
        relative
    } else {
        alias.push('/') + relative
    }
}

/// A root owns a path: the path is the root, or lies below it. Both are in normal
/// form, the root without `/` at its end; the empty root owns every path.
pub open spec fn owns(root: Seq<char>, path: Seq<char>) -> bool {
    root.len() == 0 || path == root || text::begins_with(path, root.push('/'))
}

fn is_owned(root: &[char], path: &[char]) -> (r: bool)
    ensures
        r == owns(root@, path@),
{
    if root.len() == 0 || same(path, root) {
        return true;
    }
    let mut dir = copy_of(root);
    dir.push('/');
    starts_with(path, dir.as_slice())
}

/// What a root owns begins with it.
proof fn lemma_owned_begins(root: Seq<char>, path: Seq<char>)
    requires
        owns(root, path),
    ensures
        text::begins_with(path, root),
{
    if root.len() == 0 {
        assert(path.subrange(0, 0) =~= root);
    } else if path == root {
        assert(path.subrange(0, root.len() as int) =~= root);
    } else {
        let dir = root.push('/');
        assert(path.subrange(0, root.len() as int) =~= dir.subrange(0, root.len() as int));
        assert(dir.subrange(0, root.len() as int) =~= root);
    }
}

/// A result path with the alias of its repository in place of the root; a path
/// that the root does not own is only brought to normal form.
pub open spec fn aliased(path: Seq<char>, alias: Seq<char>, root: Seq<char>) -> Seq<char> {
    let n = normal(path);
    let r = normal_root(root);
    if owns(r, n) {
        under_alias(alias, text::stripped_start(n.skip(r.len() as int), '/'))
    } else {
        n
    }
}

/// The alias, or no characters where there is none.
pub open spec fn alias_text(alias: Option<&str>) -> Seq<char> {
    match alias {
        Some(a) => a@,
        None => Seq::empty(),
    }
}

/// A result path with the alias of its repository in place of the root.
///
/// Without an alias, or with an empty one, the path becomes relative to the
/// root. A path that the root does not own is only brought to normal form.
pub fn prefix_path_with_alias(path: &str, alias: Option<&str>, project_root: &str) -> (r: String)
    ensures
        r@ == aliased(path@, alias_text(alias), project_root@),
{
    let n = normalized(chars_of(path).as_slice());
    let root_chars = normalized(chars_of(project_root).as_slice());
    let root = strip_end(root_chars.as_slice(), '/');
    let ns = n.as_slice();
    if !is_owned(root, ns) {
        return string_of(ns);
    }
    proof {
        lemma_owned_begins(root@, ns@);
        assert(ns@.subrange(root@.len() as int, ns@.len() as int) =~= ns@.skip(root@.len() as int));
    }
    let relative = strip_start(slice_subrange(ns, root.len(), ns.len()), '/');
    match alias {
        Some(a) => {
            let mut out = chars_of(a);
            if out.len() == 0 {
                string_of(relative)
            } else {
                out.push('/');
                push_all(&mut out, relative);
                string_of(out.as_slice())
            }
        },
        None => string_of(relative),
    }
}

/// The root directory of a repository that is known by an alias.
#[derive(Debug)]
pub struct AliasRoot {
    pub alias: String,
    pub root: String,
}

/// The root of an alias: that of the first entry with the alias.
pub open spec fn root_of(roots: Seq<AliasRoot>, alias: Seq<char>) -> Option<Seq<char>>
    decreases roots.len(),
{
    if roots.len() == 0 {
        None
    } else if roots[0].alias@ == alias {
        Some(roots[0].root@)
    } else {
        root_of(roots.skip(1), alias)
    }
}

/// The root of an alias.
pub fn find_root<'a>(roots: &'a Vec<AliasRoot>, alias: &str) -> (r: Option<&'a String>)
    ensures
        match r {
            Some(root) => root_of(roots@, alias@) == Some(root@),
            None => root_of(roots@, alias@) is None,
        },
{
    let a = chars_of(alias);
    let mut i: usize = 0;
    proof {
        assert(roots@.skip(0) =~= roots@);
    }
    while i < roots.len()
        invariant
            i <= roots.len(),
            a@ == alias@,
            root_of(roots@, alias@) == root_of(roots@.skip(i as int), alias@),
        decreases roots.len() - i,
    {
        proof {
            assert(roots@.skip(i as int).skip(1) =~= roots@.skip(i + 1));
        }
        if same(chars_of(roots[i].alias.as_str()).as_slice(), a.as_slice()) {
            return Some(&roots[i].root);
        }
        i += 1;
    }
    None
}

/// The first of the aliases, from the `i`th on, whose root owns the path.
pub open spec fn owner_from(
    path: Seq<char>,
    aliases: Seq<String>,
    roots: Seq<AliasRoot>,
    i: int,
) -> Option<int>
    decreases aliases.len() - i,
{
    if i < 0 || i >= aliases.len() {
        None
    } else if root_of(roots, aliases[i]@) is Some && owns(
        normal_root(root_of(roots, aliases[i]@)->0),
        path,
    ) {
        Some(i)
    } else {
        owner_from(path, aliases, roots, i + 1)
    }
}

/// A result path with the alias of the repository that owns it; a path that
/// none of the aliases owns is only brought to normal form.
pub open spec fn owner_aliased(
    path: Seq<char>,
    aliases: Seq<String>,
    roots: Seq<AliasRoot>,
) -> Seq<char> {
    match owner_from(normal(path), aliases, roots, 0) {
        Some(i) => aliased(path, aliases[i]@, root_of(roots, aliases[i]@)->0),
        None => normal(path),
    }
}

/// A result path with the alias of the repository that owns it.
pub fn prefix_path_multi(path: &str, aliases: &Vec<String>, alias_roots: &Vec<AliasRoot>) -> (r:
    String)
    ensures
        r@ == owner_aliased(path@, aliases@, alias_roots@),
{
    let n = normalized(chars_of(path).as_slice());
    let mut i: usize = 0;
    while i < aliases.len()
        invariant
            i <= aliases.len(),
            n@ == normal(path@),
            owner_from(n@, aliases@, alias_roots@, 0) == owner_from(
                n@,
                aliases@,
                alias_roots@,
                i as int,
            ),
        decreases aliases.len() - i,
    {
        match find_root(alias_roots, aliases[i].as_str()) {
            Some(root) => {
                let normal = normalize_root(root.as_str());
                if is_owned(chars_of(normal.as_str()).as_slice(), n.as_slice()) {
                    return prefix_path_with_alias(path, Some(aliases[i].as_str()), root.as_str());
                }
            },
            None => {},
        }
        i += 1;
    }
    string_of(n.as_slice())
}

/// The first of the roots, from the `i`th on, that owns the path.
pub open spec fn root_owner(path: Seq<char>, roots: Seq<AliasRoot>, i: int) -> Option<int>
    decreases roots.len() - i,
{
    if i < 0 || i >= roots.len() {
        None
    } else if owns(normal_root(roots[i].root@), path) {
        Some(i)
    } else {
        root_owner(path, roots, i + 1)
    }
}

/// A result path with the alias of the root that owns it; a path that none of
/// the roots owns is only brought to normal form.
pub open spec fn root_aliased(path: Seq<char>, roots: Seq<AliasRoot>) -> Seq<char> {
    match root_owner(normal(path), roots, 0) {
        Some(i) => aliased(path, roots[i].alias@, roots[i].root@),
        None => normal(path),
    }
}

/// A result path with the alias of the root that owns it.
pub fn prefix_path_by_root(path: &str, roots: &Vec<AliasRoot>) -> (r: String)
    ensures
        r@ == root_aliased(path@, roots@),
{
    let n = normalized(chars_of(path).as_slice());
    let mut i: usize = 0;
    while i < roots.len()
        invariant
            i <= roots.len(),
            n@ == normal(path@),
            root_owner(n@, roots@, 0) == root_owner(n@, roots@, i as int),
        decreases roots.len() - i,
    {
        let entry = &roots[i];
        let root = normalize_root(entry.root.as_str());
        if is_owned(chars_of(root.as_str()).as_slice(), n.as_slice()) {
            return prefix_path_with_alias(path, Some(entry.alias.as_str()), entry.root.as_str());
        }
        i += 1;
    }
    string_of(n.as_slice())
}

/// Below the root of its repository, a path keeps everything behind the root.
pub proof fn law_alias_replaces_root(root: Seq<char>, alias: Seq<char>, rest: Seq<char>)
    requires
        normal(root) == root,
        text::stripped_end(root, '/') == root,
        normal(root.push('/') + rest) == root.push('/') + rest,
        rest.len() > 0 ==> rest[0] != '/',
    ensures
        aliased(root.push('/') + rest, alias, root) == under_alias(alias, rest),
{
    let p = root.push('/') + rest;
    assert(p.subrange(0, root.len() as int) =~= root);
    assert(p.subrange(0, root.len() as int + 1) =~= root.push('/'));
    let tail = p.skip(root.len() as int);
    assert(tail =~= seq!['/'] + rest);
    assert(tail.drop_first() =~= rest);
    assert(text::stripped_start(tail, '/') == text::stripped_start(rest, '/'));
    assert(text::stripped_start(rest, '/') == rest);
}

/// A path that the root of only one of the aliases owns is shown under that alias.
pub proof fn law_shown_under_owner(
    path: Seq<char>,
    aliases: Seq<String>,
    roots: Seq<AliasRoot>,
    i: int,
)
    requires
        0 <= i < aliases.len(),
        root_of(roots, aliases[i]@) is Some,
        owns(normal_root(root_of(roots, aliases[i]@)->0), normal(path)),
        forall|j: int|
            0 <= j < aliases.len() && j != i && root_of(roots, (#[trigger] aliases[j])@) is Some
                ==> !owns(normal_root(root_of(roots, aliases[j]@)->0), normal(path)),
    ensures
        owner_aliased(path, aliases, roots) == aliased(
            path,
            aliases[i]@,
            root_of(roots, aliases[i]@)->0,
        ),
{
    lemma_owner_from(normal(path), aliases, roots, i, 0);
}

/// The only owner is found, from wherever before it the search begins.
proof fn lemma_owner_from(
    path: Seq<char>,
    aliases: Seq<String>,
    roots: Seq<AliasRoot>,
    i: int,
    k: int,
)
    requires
        0 <= k <= i < aliases.len(),
        root_of(roots, aliases[i]@) is Some,
        owns(normal_root(root_of(roots, aliases[i]@)->0), path),
        forall|j: int|
            0 <= j < aliases.len() && j != i && root_of(roots, (#[trigger] aliases[j])@) is Some
                ==> !owns(normal_root(root_of(roots, aliases[j]@)->0), path),
    ensures
        owner_from(path, aliases, roots, k) == Some(i),
    decreases i - k,
{
    if k < i {
        lemma_owner_from(path, aliases, roots, i, k + 1);
    }
}

/// Stripping the alias undoes putting it in front.
pub proof fn law_strip_undoes_alias(alias: Seq<char>, relative: Seq<char>)
    requires
        alias.len() > 0,
    ensures
        without_alias(under_alias(alias, relative), alias) == relative,
{
    let p = under_alias(alias, relative);
    assert(p.subrange(0, alias.len() as int + 1) =~= alias.push('/'));
    assert(p.skip(alias.len() as int + 1) =~= relative);
}

/// In normal form every backslash is a slash and nothing else is changed, but
/// for the verbatim marker, which is taken off the front.
pub proof fn law_normal_form(path: Seq<char>, i: int)
    requires
        path.len() < 4 || path[0] != '\\' || path[1] != '\\' || path[2] != '?' || path[3] != '\\',
    ensures
        normal(path).len() == path.len(),
        0 <= i < path.len() && path[i] == '\\' ==> normal(path)[i] == '/',
        0 <= i < path.len() && path[i] != '\\' ==> normal(path)[i] == path[i],
        normal(seq!['\\', '\\', '?', '\\'] + path).len() == path.len(),
        0 <= i < path.len() && path[i] == '\\' ==> normal(seq!['\\', '\\', '?', '\\'] + path)[i]
            == '/',
        0 <= i < path.len() && path[i] != '\\' ==> normal(seq!['\\', '\\', '?', '\\'] + path)[i]
            == path[i],
{
    let marked = seq!['\\', '\\', '?', '\\'] + path;
    assert(marked.subrange(0, 4) =~= verbatim_marker());
    assert(marked.skip(4) =~= path);
    if text::begins_with(path, verbatim_marker()) {
        let front = path.subrange(0, 4);
        assert(front[0] == '\\' && front[1] == '\\' && front[2] == '?' && front[3] == '\\');
        assert(path[0] == front[0] && path[1] == front[1] && path[2] == front[2] && path[3]
            == front[3]);
    }
}

proof fn lemma_clean(path: Seq<char>)
    requires
        !path.contains('\\'),
    ensures
        normal(path) == path,
{
    if path.len() >= 4 {
        assert(path.contains(path[0]));
    }
    if text::begins_with(path, verbatim_marker()) {
        assert(path.subrange(0, 4)[0] == path[0]);
    }
    assert forall|i: int| 0 <= i < path.len() implies path[i] != '\\' by {
        assert(path.contains(path[i]));
    }
    assert(normal(path) =~= path);
}

/// A filter is the front of a path: a path below the root passes where the part
/// behind the root begins with the filter, or where the path itself does, and
/// nowhere else. It is not enough that the filter stands further inside.
pub proof fn law_filter_is_a_prefix(root: Seq<char>, rel: Seq<char>, filter: Seq<char>)
    requires
        !(root.push('/') + rel).contains('\\'),
        rel.len() > 0 ==> rel[0] != '/',
        root.len() == 0 || root[0] != '.',
    ensures
        ({
            let path = root.push('/') + rel;
            passes_filter(path, filter, root) <==> {
                ||| filter.len() <= rel.len() && rel.take(filter.len() as int) == filter
                ||| filter.len() <= path.len() && path.take(filter.len() as int) == filter
            }
        }),
{
    let path = root.push('/') + rel;
    lemma_clean(path);
    assert(path[0] != '.');
    assert(without_dots(path) == path);
    assert(path.subrange(0, root.len() as int) =~= root);
    assert(path.skip(root.len() as int) =~= seq!['/'] + rel);
    assert(seq!['/'] =~= Seq::new(1, |i: int| '/'));
    text::law_strip(1, '/', rel);
    assert(relative_to(path, root) == rel);
    text::law_ends_of_text(rel, filter);
    text::law_ends_of_text(path, filter);
}

/// A path outside of the root passes a filter where it begins with it, with or
/// without the slashes at its front.
pub proof fn law_filter_outside_the_root(n: nat, rest: Seq<char>, root: Seq<char>, filter: Seq<char>)
    requires
        ({
            let path = Seq::new(n, |i: int| '/') + rest;
            &&& !path.contains('\\')
            &&& !(root.len() <= path.len() && path.take(root.len() as int) == root)
        }),
        rest.len() > 0 ==> rest[0] != '/' && rest[0] != '.',
    ensures
        ({
            let path = Seq::new(n, |i: int| '/') + rest;
            passes_filter(path, filter, root) <==> {
                ||| filter.len() <= rest.len() && rest.take(filter.len() as int) == filter
                ||| filter.len() <= path.len() && path.take(filter.len() as int) == filter
            }
        }),
{
    let path = Seq::new(n, |i: int| '/') + rest;
    lemma_clean(path);
    if path.len() > 0 {
        assert(path[0] != '.');
    }
    assert(without_dots(path) == path);
    text::law_ends_of_text(path, root);
    text::law_strip(n, '/', rest);
    text::law_ends_of_text(rest, filter);
    text::law_ends_of_text(path, filter);
}

/// The `./` in front of a filter does not count, however often it stands there,
/// and nothing else is taken off.
pub proof fn law_filter_without_dots(filter: Seq<char>)
    requires
        !filter.contains('\\'),
    ensures
        filter.len() < 2 || filter[0] != '.' || filter[1] != '/' ==> normal_filter(filter)
            == filter,
        normal_filter(seq!['.', '/'] + filter) == normal_filter(filter),
{
    lemma_clean(filter);
    let dotted = seq!['.', '/'] + filter;
    assert forall|i: int| 0 <= i < dotted.len() implies dotted[i] != '\\' by {
        if i >= 2 {
            assert(filter.contains(filter[i - 2]));
        }
    }
    lemma_clean(dotted);
    assert(dotted.skip(2) =~= filter);
}

/// A relative path lies below its base, behind a single slash; an absolute one
/// stays where it is.
pub proof fn law_join(base: Seq<char>, path: Seq<char>)
    ensures
        path.len() > 0 && path[0] == '/' ==> joined(base, path) == path,
        (path.len() == 0 || path[0] != '/') && base.len() > 0 && base.last() != '/' ==> joined(
            base,
            path,
        ) == base + seq!['/'] + path,
        (path.len() == 0 || path[0] != '/') && base.len() > 0 && base.last() == '/' ==> joined(
            base,
            path,
        ) == base + path,
{
    assert(base + seq!['/'] =~= base.push('/'));
}

/// A root owns itself and what lies below it; of what only begins with its
/// letters it owns nothing.
pub proof fn law_owned_paths(root: Seq<char>, rest: Seq<char>)
    requires
        root.len() > 0,
    ensures
        owns(root, root),
        owns(root, root + seq!['/'] + rest),
        rest.len() > 0 && rest[0] != '/' ==> !owns(root, root + rest),
        forall|path: Seq<char>| #[trigger]
            owns(root, path) ==> path.len() >= root.len() && path.take(root.len() as int) == root,
{
    let below = root + seq!['/'] + rest;
    assert(below.subrange(0, root.len() as int + 1) =~= root.push('/'));
    let beside = root + rest;
    if rest.len() > 0 && rest[0] != '/' {
        assert(beside != root) by {
            assert(beside.len() > root.len());
        }
        if text::begins_with(beside, root.push('/')) {
            assert(beside.subrange(0, root.len() as int + 1)[root.len() as int] == '/');
            assert(beside[root.len() as int] == rest[0]);
        }
    }
    assert forall|path: Seq<char>| #[trigger] owns(root, path) implies path.len() >= root.len()
        && path.take(root.len() as int) == root by {
        lemma_owned_begins(root, path);
        text::law_ends_of_text(path, root);
    }
}

/// A path that its root does not own keeps its normal form.
pub proof fn law_foreign_path_stays(path: Seq<char>, alias: Seq<char>, root: Seq<char>)
    requires
        !owns(normal_root(root), normal(path)),
    ensures
        aliased(path, alias, root) == normal(path),
{
}

/// Only the alias and the slash behind it are taken off a tool path, and only
/// where they stand at its front.
pub proof fn law_alias_is_stripped(alias: Seq<char>, rest: Seq<char>, path: Seq<char>)
    ensures
        without_alias(alias + seq!['/'] + rest, alias) == rest,
        path.len() <= alias.len() ==> without_alias(path, alias) == path,
        path.take(alias.len() as int) != alias ==> without_alias(path, alias) == path,
        path.len() > alias.len() && path[alias.len() as int] != '/' ==> without_alias(path, alias)
            == path,
{
    let p = alias + seq!['/'] + rest;
    assert(p.subrange(0, alias.len() as int + 1) =~= alias.push('/'));
    assert(p.skip(alias.len() as int + 1) =~= rest);
    if text::begins_with(path, alias.push('/')) {
        let front = path.subrange(0, alias.len() as int + 1);
        assert(front[alias.len() as int] == '/');
        assert(path.take(alias.len() as int) =~= front.take(alias.len() as int));
        assert(alias.push('/').take(alias.len() as int) =~= alias);
    }
}

/// The root of an alias is that of the first entry with this alias; without such
/// an entry there is none.
pub proof fn law_root_of_alias(roots: Seq<AliasRoot>, alias: Seq<char>, i: int)
    requires
        0 <= i <= roots.len(),
        forall|j: int| 0 <= j < i ==> (#[trigger] roots[j]).alias@ != alias,
    ensures
        i < roots.len() && roots[i].alias@ == alias ==> root_of(roots, alias) == Some(
            roots[i].root@,
        ),
        i == roots.len() ==> root_of(roots, alias) is None,
    decreases i,
{
    if i > 0 {
        let rest = roots.skip(1);
        assert(roots[0].alias@ != alias);
        assert forall|j: int| 0 <= j < i - 1 implies (#[trigger] rest[j]).alias@ != alias by {
            assert(roots[j + 1].alias@ != alias);
        }
        law_root_of_alias(rest, alias, i - 1);
    }
}

/// A path that no root owns is shown in normal form.
pub proof fn law_ownerless_path(path: Seq<char>, roots: Seq<AliasRoot>, k: int)
    requires
        0 <= k <= roots.len(),
        forall|j: int|
            0 <= j < roots.len() ==> !owns(normal_root((#[trigger] roots[j]).root@), normal(path)),
    ensures
        root_owner(normal(path), roots, k) is None,
        k == 0 ==> root_aliased(path, roots) == normal(path),
    decreases roots.len() - k,
{
    if k < roots.len() {
        law_ownerless_path(path, roots, k + 1);
    }
}

/// The operation itself: a path below the root passes a filter exactly if the
/// filter's characters are the first of its part below the root, or of the whole.
pub proof fn law_matching_a_filter(
    path: &str,
    filter: &str,
    project_root: &str,
    rel: Seq<char>,
    r: bool,
)
    requires
        call_ensures(path_matches_filter, (path, filter, project_root), r),
        path@ == project_root@.push('/') + rel,
        !path@.contains('\\'),
        rel.len() > 0 ==> rel[0] != '/',
        project_root@.len() == 0 || project_root@[0] != '.',
    ensures
        r <==> {
            ||| filter@.len() <= rel.len() && rel.take(filter@.len() as int) == filter@
            ||| filter@.len() <= path@.len() && path@.take(filter@.len() as int) == filter@
        },
{
    law_filter_is_a_prefix(project_root@, rel, filter@);
}

} // verus!
