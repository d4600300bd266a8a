//! File globs: `*` within one path segment, `**` across segments.
use vstd::prelude::*;
use vstd::slice::slice_subrange;

use crate::text;
use crate::text::{
    chars_of, contains_char, ends_with, find, replace_char, same, split, starts_with,
};

verus! {

/// The pattern from character `i` on matches the text from character `j` on,
/// where `*` stands for any run of characters without a `/`.
pub open spec fn star_match_from(p: Seq<char>, i: int, t: Seq<char>, j: int) -> bool
    decreases p.len() - i, t.len() - j,
{
    if i < 0 || j < 0 || i > p.len() || j > t.len() {
        false
    } else if i == p.len() {
        j == t.len()
    } else if p[i] == '*' {
        star_match_from(p, i + 1, t, j) || (j < t.len() && t[j] != '/' && star_match_from(
            p,
            i,
            t,
            j + 1,
        ))
    } else {
        j < t.len() && t[j] == p[i] && star_match_from(p, i + 1, t, j + 1)
    }
}

/// The whole pattern matches the whole text; `*` does not cross a `/`.
pub open spec fn star_match(p: Seq<char>, t: Seq<char>) -> bool {
    star_match_from(p, 0, t, 0)
}

/// The segments of `suffix` match the last segments of `path`, one for one.
pub open spec fn tail_match(suffix: Seq<char>, path: Seq<char>) -> bool {
    let sp = text::split_char(suffix, '/');
    let pp = text::split_char(path, '/');
    sp.len() <= pp.len() && forall|k: int|
        0 <= k < sp.len() ==> star_match(#[trigger] sp[k], pp[pp.len() - sp.len() + k])
}

/// `s` without one leading `/`.
pub open spec fn without_slash(s: Seq<char>) -> Seq<char> {
    if s.len() > 0 && s[0] == '/' {
        s.skip(1)
    } else {
        s
    }
}

/// A path matches a pattern that is cut at a `**` into `prefix` and `suffix`.
pub open spec fn double_star_match(prefix: Seq<char>, suffix: Seq<char>, path: Seq<char>) -> bool {
    let tail = without_slash(suffix);
    let rest = without_slash(path.skip(prefix.len() as int));
    &&& text::begins_with(path, prefix)
    &&& tail.len() == 0 || (if tail.contains('*') {
        tail_match(tail, rest)
    } else {
        text::finishes_with(rest, tail)
    })
}

/// The two characters of `**`.
pub open spec fn stars() -> Seq<char> {
    seq!['*', '*']
}

/// A path matches a glob, both written with `/`.
pub open spec fn slash_glob(p: Seq<char>, t: Seq<char>) -> bool {
    if !p.contains('*') {
        t == p
    } else if text::has_text(p, stars()) {
        exists|k: int| #[trigger]
            text::first_at(p, stars(), k) && double_star_match(p.take(k), p.skip(k + 2), t)
    } else {
        star_match(p, t)
    }
}

/// A path matches a glob; a backslash counts as `/` in both.
pub open spec fn glob_matches(pattern: Seq<char>, path: Seq<char>) -> bool {
    slash_glob(text::replaced(pattern, '\\', '/'), text::replaced(path, '\\', '/'))
}

/// The rest of a pattern from `i` on matches the rest of a text from `j` on,
/// where `*` stands for any characters.
pub open spec fn wide_match_from(p: Seq<char>, i: int, t: Seq<char>, j: int) -> bool
    decreases p.len() - i, t.len() - j,
{
    if i < 0 || j < 0 || i > p.len() || j > t.len() {
        false
    } else if i == p.len() {
        j == t.len()
    } else if p[i] == '*' {
        wide_match_from(p, i + 1, t, j) || (j < t.len() && wide_match_from(p, i, t, j + 1))
    } else {
        j < t.len() && t[j] == p[i] && wide_match_from(p, i + 1, t, j + 1)
    }
}

/// A text matches a pattern, where `*` stands for any characters.
pub open spec fn wide_match(p: Seq<char>, t: Seq<char>) -> bool {
    wide_match_from(p, 0, t, 0)
}

/// Either kind of match: a wide `*` stands for `/` too.
spec fn cell(wide: bool, p: Seq<char>, i: int, t: Seq<char>, j: int) -> bool {
    if wide {
        wide_match_from(p, i, t, j)
    } else {
        star_match_from(p, i, t, j)
    }
}

/// Decides a match row by row, from the end of the pattern to its front.
fn row_matches(wide: bool, p: &[char], t: &[char]) -> (r: bool)
    ensures
        r == cell(wide, p@, 0, t@, 0),
{
    let n: usize = t.len();
    let mut row: Vec<bool> = Vec::new();
    let mut k: usize = 0;
    while k < n
        invariant
            k <= n,
            n == t.len(),
            row.len() == k,
            forall|j: int| 0 <= j < k ==> row@[j] == cell(wide, p@, p@.len() as int, t@, j),
        decreases n - k,
    {
        row.push(false);
        k += 1;
    }
    row.push(true);
    let mut i: usize = p.len();
    while i > 0
        invariant
            i <= p.len(),
            n == t.len(),
            row.len() == n + 1,
            forall|j: int| 0 <= j <= n ==> row@[j] == cell(wide, p@, i as int, t@, j),
        decreases i,
    {
        let c = p[i - 1];
        let ghost below = row@;
        let mut next = row.clone();
        let last = if c == '*' { row[n] } else { false };
        next.set(n, last);
        let mut j: usize = n;
        while j > 0
            invariant
                0 < i <= p.len(),
                j <= n,
                n == t.len(),
                c == p@[i - 1],
                row@ == below,
                row.len() == n + 1,
                next.len() == n + 1,
                forall|m: int| 0 <= m <= n ==> row@[m] == cell(wide, p@, i as int, t@, m),
                forall|m: int| j <= m <= n ==> next@[m] == cell(wide, p@, i - 1, t@, m),
            decreases j,
        {
            let m: usize = j - 1;
            let v = if c == '*' {
                row[m] || ((wide || t[m] != '/') && next[j])
            } else {
                t[m] == c && row[j]
            };
            next.set(m, v);
            j -= 1;
        }
        row = next;
        i -= 1;
    }
    row[0]
}

/// Whether a path matches a pattern whose `*` stands for any characters but `/`.
fn star_matches(p: &[char], t: &[char]) -> (r: bool)
    ensures
        r == star_match(p@, t@),
{
    row_matches(false, p, t)
}

/// Matches a pattern against one path segment; `*` stands for any characters
/// of the segment.
pub fn single_segment_match(pattern: &str, segment: &str) -> (r: bool)
    ensures
        r == wide_match(pattern@, segment@),
{
    row_matches(true, chars_of(pattern).as_slice(), chars_of(segment).as_slice())
}

/// Matches a pattern without `**` against a path; `*` stands for any
/// characters except `/`.
pub fn simple_glob_match_single_star(pattern: &str, path: &str) -> (r: bool)
    ensures
        r == star_match(pattern@, path@),
{
    star_matches(chars_of(pattern).as_slice(), chars_of(path).as_slice())
}

fn tail_matches(suffix: &[char], path: &[char]) -> (r: bool)
    ensures
        r == tail_match(suffix@, path@),
{
    let sp = split(suffix, '/');
    let pp = split(path, '/');
    if sp.len() > pp.len() {
        return false;
    }
    let shift: usize = pp.len() - sp.len();
    let mut k: usize = 0;
    while k < sp.len()
        invariant
            k <= sp.len(),
            shift + sp.len() == pp.len(),
            text::views(sp@) == text::split_char(suffix@, '/'),
            text::views(pp@) == text::split_char(path@, '/'),
            forall|m: int|
                0 <= m < k ==> star_match(#[trigger] text::views(sp@)[m], text::views(pp@)[shift + m]),
        decreases sp.len() - k,
    {
        assert(sp@[k as int]@ == text::views(sp@)[k as int]);
        assert(pp@[shift + k]@ == text::views(pp@)[shift + k]);
        if !star_matches(sp[k].as_slice(), pp[shift + k].as_slice()) {
            return false;
        }
        k += 1;
    }
    true
}

/// Matches a pattern against the last segments of a path; `*` stands for any
/// characters of one segment.
pub fn match_suffix_with_star(suffix: &str, path: &str) -> (r: bool)
    ensures
        r == tail_match(suffix@, path@),
{
    tail_matches(chars_of(suffix).as_slice(), chars_of(path).as_slice())
}

fn drop_slash(s: &[char]) -> (r: &[char])
    ensures
        r@ == without_slash(s@),
{
    if s.len() > 0 && s[0] == '/' {
        proof {
            assert(s@.skip(1) =~= s@.subrange(1, s@.len() as int));
        }
        slice_subrange(s, 1, s.len())
    } else {
        s
    }
}

fn double_star_matches(prefix: &[char], suffix: &[char], path: &[char]) -> (r: bool)
    ensures
        r == double_star_match(prefix@, suffix@, path@),
{
    if !starts_with(path, prefix) {
        return false;
    }
    let tail = drop_slash(suffix);
    proof {
        assert(path@.skip(prefix@.len() as int) =~= path@.subrange(
            prefix@.len() as int,
            path@.len() as int,
        ));
    }
    let rest = drop_slash(slice_subrange(path, prefix.len(), path.len()));
    if tail.len() == 0 {
        return true;
    }
    if contains_char(tail, '*') {
        tail_matches(tail, rest)
    } else {
        ends_with(rest, tail)
    }
}

/// Matches a file path against a glob.
///
/// - `src/mcp/**`: any path that starts with `src/mcp/`
/// - `**/*.rs`: any path that ends with `.rs`
/// - `src/**/*.rs`: any path that starts with `src/` and ends with `.rs`
/// - `*.rs`: any file of the top directory whose name ends with `.rs`
/// - `foo.rs`: that path alone
pub fn simple_glob_match(pattern: &str, path: &str) -> (r: bool)
    ensures
        r == glob_matches(pattern@, path@),
{
    let p = replace_char(chars_of(pattern).as_slice(), '\\', '/');
    let t = replace_char(chars_of(path).as_slice(), '\\', '/');
    let ps = p.as_slice();
    if !contains_char(ps, '*') {
        return same(t.as_slice(), ps);
    }
    let mut two: Vec<char> = Vec::new();
    two.push('*');
    two.push('*');
    proof {
        assert(two@ =~= stars());
        assert(two@.len() == 2);
    }
    match find(ps, two.as_slice()) {
        Some(k) => {
            let n: usize = ps.len();
            assert(text::occurs_at(ps@, two@, k as int) && k + 2 <= n);
            let prefix = slice_subrange(ps, 0, k);
            let suffix = slice_subrange(ps, k + 2, n);
            proof {
                assert(prefix@ =~= ps@.take(k as int));
                assert(suffix@ =~= ps@.skip(k + 2));
                assert(text::has_text(ps@, two@));
                assert forall|m: int| text::first_at(ps@, two@, m) implies m == k by {
                    if m < k {
                        assert(!text::occurs_at(ps@, two@, m));
                    } else if k < m {
                        assert(!text::occurs_at(ps@, two@, k as int));
                    }
                }
            }
            double_star_matches(prefix, suffix, t.as_slice())
        },
        None => star_matches(ps, t.as_slice()),
    }
}

// ---------------------------------------------------------------------------
// Laws
// ---------------------------------------------------------------------------

/// From `i` on the pattern has no `*`: it matches itself alone.
proof fn lemma_literal_from(p: Seq<char>, i: int, t: Seq<char>, j: int)
    requires
        0 <= i <= p.len(),
        0 <= j <= t.len(),
        forall|k: int| i <= k < p.len() ==> p[k] != '*',
    ensures
        star_match_from(p, i, t, j) == (t.skip(j) == p.skip(i)),
    decreases p.len() - i,
{
    if i == p.len() {
        assert(p.skip(i).len() == 0);
        if j == t.len() {
            assert(t.skip(j) =~= p.skip(i));
        }
    } else if j == t.len() {
        assert(t.skip(j).len() == 0 && p.skip(i).len() > 0);
    } else {
        lemma_literal_from(p, i + 1, t, j + 1);
        assert(t.skip(j) =~= seq![t[j]] + t.skip(j + 1));
        assert(p.skip(i) =~= seq![p[i]] + p.skip(i + 1));
        if t.skip(j) == p.skip(i) {
            assert(t.skip(j)[0] == p.skip(i)[0]);
            assert(t.skip(j).skip(1) =~= t.skip(j + 1));
            assert(p.skip(i).skip(1) =~= p.skip(i + 1));
        }
    }
}

/// A pattern without `*` matches itself and nothing else.
pub proof fn law_literal_pattern(p: Seq<char>, t: Seq<char>)
    requires
        !p.contains('*'),
    ensures
        star_match(p, t) == (t == p),
{
    assert forall|k: int| 0 <= k < p.len() implies p[k] != '*' by {
        assert(p.contains(p[k]));
    }
    lemma_literal_from(p, 0, t, 0);
    assert(t.skip(0) =~= t);
    assert(p.skip(0) =~= p);
}

proof fn lemma_star_literal_from(ext: Seq<char>, t: Seq<char>, j: int)
    requires
        !ext.contains('*'),
        0 <= j <= t.len(),
    ensures
        star_match_from(seq!['*'] + ext, 0, t, j) == (j + ext.len() <= t.len() && t.skip(
            t.len() - ext.len(),
        ) == ext && forall|k: int| j <= k < t.len() - ext.len() ==> t[k] != '/'),
    decreases t.len() - j,
{
    let p = seq!['*'] + ext;
    assert(p.skip(1) =~= ext);
    assert forall|k: int| 1 <= k < p.len() implies p[k] != '*' by {
        assert(ext.contains(ext[k - 1]));
    }
    lemma_literal_from(p, 1, t, j);
    if j < t.len() {
        lemma_star_literal_from(ext, t, j + 1);
    }
    if t.skip(j) == ext {
        assert(t.skip(j).len() == ext.len());
        assert(t.len() - ext.len() == j);
    }
}

/// `*` followed by plain text matches what ends with that text, and has no `/`
/// before it.
pub proof fn law_star_extension(ext: Seq<char>, t: Seq<char>)
    requires
        !ext.contains('*'),
    ensures
        star_match(seq!['*'] + ext, t) == (text::finishes_with(t, ext) && !t.take(
            t.len() - ext.len(),
        ).contains('/')),
{
    lemma_star_literal_from(ext, t, 0);
    if ext.len() <= t.len() {
        let front = t.take(t.len() - ext.len());
        assert(t.subrange(t.len() - ext.len(), t.len() as int) =~= t.skip(t.len() - ext.len()));
        if forall|k: int| 0 <= k < t.len() - ext.len() ==> t[k] != '/' {
            assert(!front.contains('/'));
        } else {
            let k = choose|k: int| 0 <= k < t.len() - ext.len() && t[k] == '/';
            assert(front[k] == '/');
        }
    }
}

/// The stars behind a text without stars are the first ones.
proof fn lemma_first_stars(dir: Seq<char>)
    requires
        !dir.contains('*'),
    ensures
        forall|m: int| #[trigger]
            text::first_at(dir + stars(), stars(), m) <==> m == dir.len(),
        text::has_text(dir + stars(), stars()),
{
    let p = dir + stars();
    let k = dir.len() as int;
    assert(p.subrange(k, k + 2) =~= stars());
    assert(text::occurs_at(p, stars(), k));
    assert forall|j: int| 0 <= j < k implies !text::occurs_at(p, stars(), j) by {
        if text::occurs_at(p, stars(), j) {
            assert(p.subrange(j, j + 2)[0] == '*');
            assert(dir[j] == '*');
            assert(dir.contains(dir[j]));
        }
    }
    assert(text::first_at(p, stars(), k));
    assert forall|m: int| text::first_at(p, stars(), m) implies m == k by {
        if m < k {
            assert(!text::occurs_at(p, stars(), m));
        } else if k < m {
            assert(!text::occurs_at(p, stars(), k));
        }
    }
}

/// Nothing behind the stars matches any rest.
proof fn lemma_no_suffix(dir: Seq<char>, t: Seq<char>)
    ensures
        double_star_match(dir, Seq::empty(), t) == text::begins_with(t, dir),
{
    assert(without_slash(Seq::empty()).len() == 0);
}

/// With one place for the first stars, the cut there decides the match.
proof fn lemma_cut_decides(p: Seq<char>, t: Seq<char>, k: int)
    requires
        p.contains('*'),
        text::has_text(p, stars()),
        text::first_at(p, stars(), k),
        forall|m: int| #[trigger] text::first_at(p, stars(), m) ==> m == k,
    ensures
        slash_glob(p, t) == double_star_match(p.take(k), p.skip(k + 2), t),
{
}

/// `dir` followed by `**` matches exactly the paths that start with `dir`.
pub proof fn law_directory_glob(dir: Seq<char>, t: Seq<char>)
    requires
        !dir.contains('*'),
    ensures
        slash_glob(dir + stars(), t) == text::begins_with(t, dir),
{
    let p = dir + stars();
    let k = dir.len() as int;
    assert(p[k] == '*');
    lemma_first_stars(dir);
    lemma_cut_decides(p, t, k);
    assert(p.take(k) =~= dir);
    assert(p.skip(k + 2) =~= Seq::empty());
    lemma_no_suffix(dir, t);
}

/// The last piece of a split is the text behind the last `c`.
proof fn lemma_split_last(s: Seq<char>, c: char)
    ensures
        text::split_char(s, c).len() >= 1,
        text::finishes_with(s, text::split_char(s, c).last()),
        !text::split_char(s, c).last().contains(c),
        text::split_char(s, c).last().len() < s.len() ==> s[s.len() - text::split_char(
            s,
            c,
        ).last().len() - 1] == c,
    decreases s.len(),
{
    text::lemma_split_nonempty(s, c);
    text::law_split_pieces(s, c, text::split_char(s, c).len() - 1);
    if s.len() == 0 {
        assert(s.subrange(0, 0) =~= Seq::empty());
    } else {
        let t = s.drop_last();
        lemma_split_last(t, c);
        let last = text::split_char(s, c).last();
        if s.last() == c {
            assert(s.subrange(s.len() as int, s.len() as int) =~= Seq::empty());
        } else {
            let prev = text::split_char(t, c).last();
            assert(t.subrange(t.len() - prev.len(), t.len() as int) == prev);
            assert(s.subrange(s.len() - last.len(), s.len() as int) =~= prev.push(s.last()));
        }
    }
}

/// `**/*` followed by plain text without a `/` matches exactly the paths that
/// end with that text.
#[verifier::rlimit(40)]
pub proof fn law_any_directory_glob(ext: Seq<char>, t: Seq<char>)
    requires
        !ext.contains('*'),
        !ext.contains('/'),
    ensures
        slash_glob(stars() + seq!['/', '*'] + ext, t) == text::finishes_with(t, ext),
{
    let p = stars() + seq!['/', '*'] + ext;
    let e = seq!['*'] + ext;
    assert(p[0] == '*');
    assert(p.contains('*'));
    assert(p.subrange(0, 2) =~= stars());
    assert(text::occurs_at(p, stars(), 0));
    assert(text::first_at(p, stars(), 0));
    assert(text::has_text(p, stars()));
    assert(p.take(0) =~= Seq::empty());
    assert(p.skip(2) =~= seq!['/'] + e);
    assert(p.skip(2).skip(1) =~= e);
    assert(without_slash(p.skip(2)) == e);
    assert(t.skip(0) =~= t);
    assert(t.subrange(0, 0) =~= Seq::empty());
    assert(text::begins_with(t, Seq::empty()));
    let rest = without_slash(t);
    assert(e[0] == '*');
    assert(e.contains('*'));
    assert forall|k: int| 0 <= k < e.len() implies e[k] != '/' by {
        if k > 0 {
            assert(ext.contains(ext[k - 1]));
        }
    }
    lemma_split_whole(e, '/');
    assert(text::split_char(e, '/') =~= seq![e]);
    lemma_split_last(rest, '/');
    let pp = text::split_char(rest, '/');
    let last = pp.last();
    law_star_extension(ext, last);
    assert(tail_match(e, rest) == star_match(e, last)) by {
        let sp = text::split_char(e, '/');
        assert(sp[0] == e);
        assert(pp[pp.len() - 1 + 0] == last);
    }
    // The text behind the last `/` ends with `ext` just when the whole does.
    let a = rest.len() - last.len();
    assert(rest.subrange(a, rest.len() as int) == last);
    if text::finishes_with(last, ext) {
        assert(rest.subrange(rest.len() - ext.len(), rest.len() as int) =~= last.subrange(
            last.len() - ext.len(),
            last.len() as int,
        ));
        let front = last.take(last.len() - ext.len());
        assert forall|k: int| 0 <= k < front.len() implies front[k] != '/' by {
            assert(last.contains(last[k]));
        }
    }
    if text::finishes_with(rest, ext) {
        if ext.len() > last.len() {
            let k = ext.len() - last.len() - 1;
            assert(rest.subrange(rest.len() - ext.len(), rest.len() as int)[k] == '/');
            assert(ext[k] == '/');
            assert(ext.contains(ext[k]));
        }
        assert(last.subrange(last.len() - ext.len(), last.len() as int) =~= rest.subrange(
            rest.len() - ext.len(),
            rest.len() as int,
        ));
    }
    assert(double_star_match(p.take(0), p.skip(2), t) == text::finishes_with(rest, ext));
    if t.len() > 0 && t[0] == '/' {
        if text::finishes_with(t, ext) {
            if ext.len() == t.len() {
                assert(t.subrange(0, t.len() as int)[0] == '/');
                assert(ext.contains(ext[0]));
            }
        }
        if ext.len() < t.len() {
            assert(rest.subrange(rest.len() - ext.len(), rest.len() as int) =~= t.subrange(
                t.len() - ext.len(),
                t.len() as int,
            ));
        }
    }
    assert forall|m: int| text::first_at(p, stars(), m) implies m == 0 by {
        if 0 < m {
            assert(!text::occurs_at(p, stars(), 0));
        }
    }
}

/// Text without `c` is one piece.
proof fn lemma_split_whole(s: Seq<char>, c: char)
    requires
        forall|k: int| 0 <= k < s.len() ==> s[k] != c,
    ensures
        text::split_char(s, c) == seq![s],
    decreases s.len(),
{
    if s.len() == 0 {
        assert(s =~= Seq::empty());
    } else {
        lemma_split_whole(s.drop_last(), c);
        assert(s.drop_last().push(s.last()) =~= s);
        assert(text::split_char(s, c) =~= seq![s]);
    }
}

/// The pattern with its stars, one after the other, replaced by texts.
pub open spec fn filled(p: Seq<char>, texts: Seq<Seq<char>>) -> Seq<char>
    decreases p.len(),
{
    if p.len() == 0 {
        Seq::empty()
    } else if p[0] == '*' {
        texts[0] + filled(p.skip(1), texts.skip(1))
    } else {
        seq![p[0]] + filled(p.skip(1), texts)
    }
}

/// How many stars a pattern has.
pub open spec fn star_count(p: Seq<char>) -> nat
    decreases p.len(),
{
    if p.len() == 0 {
        0
    } else {
        star_count(p.skip(1)) + (if p[0] == '*' {
            1nat
        } else {
            0
        })
    }
}

/// The text is the pattern, with the texts in place of its stars.
pub open spec fn is_filling(p: Seq<char>, texts: Seq<Seq<char>>, t: Seq<char>) -> bool {
    texts.len() == star_count(p) && filled(p, texts) == t
}

/// A segment matches a pattern exactly if there are texts, perhaps empty, that
/// make the segment of the pattern when they take the places of its stars.
pub proof fn law_star_is_any_text(p: Seq<char>, t: Seq<char>)
    ensures
        wide_match(p, t) <==> exists|texts: Seq<Seq<char>>| is_filling(p, texts, t),
{
    assert(p.skip(0) =~= p);
    assert(t.skip(0) =~= t);
    if wide_match(p, t) {
        let texts = lemma_wide_fills(p, 0, t, 0);
        assert(is_filling(p, texts, t));
    }
    if exists|texts: Seq<Seq<char>>| is_filling(p, texts, t) {
        let texts = choose|texts: Seq<Seq<char>>| is_filling(p, texts, t);
        lemma_filled_matches(p, 0, t, 0, texts);
    }
}

/// A match tells what the stars stand for.
proof fn lemma_wide_fills(p: Seq<char>, i: int, t: Seq<char>, j: int) -> (texts: Seq<Seq<char>>)
    requires
        wide_match_from(p, i, t, j),
    ensures
        is_filling(p.skip(i), texts, t.skip(j)),
    decreases p.len() - i, t.len() - j,
{
    let q = p.skip(i);
    if i < p.len() {
        assert(q[0] == p[i]);
        assert(q.skip(1) =~= p.skip(i + 1));
    }
    if i == p.len() {
        assert(t.skip(j) =~= Seq::empty());
        Seq::empty()
    } else if p[i] == '*' {
        if wide_match_from(p, i + 1, t, j) {
            let rest = lemma_wide_fills(p, i + 1, t, j);
            let texts = seq![Seq::<char>::empty()] + rest;
            assert(texts.skip(1) =~= rest);
            assert(filled(q, texts) =~= t.skip(j));
            texts
        } else {
            let more = lemma_wide_fills(p, i, t, j + 1);
            let first = seq![t[j]] + more[0];
            let texts = seq![first] + more.skip(1);
            assert(texts.skip(1) =~= more.skip(1));
            assert(filled(q, texts) =~= seq![t[j]] + filled(q, more));
            assert(t.skip(j) =~= seq![t[j]] + t.skip(j + 1));
            texts
        }
    } else {
        let texts = lemma_wide_fills(p, i + 1, t, j + 1);
        assert(t.skip(j) =~= seq![t[j]] + t.skip(j + 1));
        texts
    }
}

/// Texts in the places of the stars give a match.
proof fn lemma_filled_matches(
    p: Seq<char>,
    i: int,
    t: Seq<char>,
    j: int,
    texts: Seq<Seq<char>>,
)
    requires
        0 <= i <= p.len(),
        0 <= j <= t.len(),
        is_filling(p.skip(i), texts, t.skip(j)),
    ensures
        wide_match_from(p, i, t, j),
    decreases p.len() - i, t.len() - j,
{
    if i < p.len() {
        let q = p.skip(i);
        assert(q[0] == p[i]);
        assert(q.skip(1) =~= p.skip(i + 1));
        let rest = t.skip(j);
        if p[i] == '*' {
            if texts[0].len() == 0 {
                assert(rest =~= filled(q.skip(1), texts.skip(1)));
                lemma_filled_matches(p, i + 1, t, j, texts.skip(1));
            } else {
                let less = seq![texts[0].skip(1)] + texts.skip(1);
                assert(less.skip(1) =~= texts.skip(1));
                let whole = texts[0] + filled(q.skip(1), texts.skip(1));
                assert(whole == rest);
                assert(rest.len() > 0);
                assert(whole.skip(1) =~= filled(q, less));
                assert(rest.skip(1) =~= t.skip(j + 1));
                lemma_filled_matches(p, i, t, j + 1, less);
            }
        } else {
            let whole = seq![q[0]] + filled(q.skip(1), texts);
            assert(whole == rest);
            assert(rest.len() > 0 && rest[0] == p[i]);
            assert(whole.skip(1) =~= filled(q.skip(1), texts));
            assert(rest.skip(1) =~= t.skip(j + 1));
            lemma_filled_matches(p, i + 1, t, j + 1, texts);
        }
    } else {
        assert(p.skip(i).len() == 0);
        assert(t.skip(j).len() == 0);
    }
}

/// A path matches a pattern with single stars exactly if there are texts without
/// slashes, perhaps empty, that make the path of the pattern when they take the
/// places of its stars.
pub proof fn law_star_stays_in_a_directory(p: Seq<char>, t: Seq<char>)
    ensures
        star_match(p, t) <==> exists|texts: Seq<Seq<char>>| is_filling(p, texts, t) && flat(texts),
{
    assert(p.skip(0) =~= p);
    assert(t.skip(0) =~= t);
    if star_match(p, t) {
        let texts = lemma_star_fills(p, 0, t, 0);
        assert(is_filling(p, texts, t) && flat(texts));
    }
    if exists|texts: Seq<Seq<char>>| is_filling(p, texts, t) && flat(texts) {
        let texts = choose|texts: Seq<Seq<char>>| is_filling(p, texts, t) && flat(texts);
        lemma_flat_matches(p, 0, t, 0, texts);
    }
}

/// Whether no text has a slash.
pub open spec fn flat(texts: Seq<Seq<char>>) -> bool {
    forall|i: int, k: int|
        0 <= i < texts.len() && 0 <= k < texts[i].len() ==> #[trigger] texts[i][k] != '/'
}

proof fn lemma_star_fills(p: Seq<char>, i: int, t: Seq<char>, j: int) -> (texts: Seq<Seq<char>>)
    requires
        star_match_from(p, i, t, j),
    ensures
        is_filling(p.skip(i), texts, t.skip(j)),
        flat(texts),
    decreases p.len() - i, t.len() - j,
{
    let q = p.skip(i);
    if i < p.len() {
        assert(q[0] == p[i]);
        assert(q.skip(1) =~= p.skip(i + 1));
    }
    if i == p.len() {
        assert(t.skip(j) =~= Seq::empty());
        Seq::empty()
    } else if p[i] == '*' {
        if star_match_from(p, i + 1, t, j) {
            let rest = lemma_star_fills(p, i + 1, t, j);
            let texts = seq![Seq::<char>::empty()] + rest;
            assert(texts.skip(1) =~= rest);
            assert(filled(q, texts) =~= t.skip(j));
            assert forall|a: int, k: int|
                0 <= a < texts.len() && 0 <= k < texts[a].len() implies #[trigger] texts[a][k]
                != '/' by {
                assert(texts[a] == rest[a - 1]);
                assert(rest[a - 1][k] != '/');
            }
            texts
        } else {
            let more = lemma_star_fills(p, i, t, j + 1);
            let first = seq![t[j]] + more[0];
            let texts = seq![first] + more.skip(1);
            assert(texts.skip(1) =~= more.skip(1));
            assert(filled(q, texts) =~= seq![t[j]] + filled(q, more));
            assert(t.skip(j) =~= seq![t[j]] + t.skip(j + 1));
            assert forall|a: int, k: int|
                0 <= a < texts.len() && 0 <= k < texts[a].len() implies #[trigger] texts[a][k]
                != '/' by {
                if a == 0 {
                    if k > 0 {
                        assert(first[k] == more[0][k - 1]);
                    }
                } else {
                    assert(texts[a] == more[a]);
                    assert(more[a][k] != '/');
                }
            }
            texts
        }
    } else {
        let texts = lemma_star_fills(p, i + 1, t, j + 1);
        assert(t.skip(j) =~= seq![t[j]] + t.skip(j + 1));
        texts
    }
}

proof fn lemma_flat_matches(
    p: Seq<char>,
    i: int,
    t: Seq<char>,
    j: int,
    texts: Seq<Seq<char>>,
)
    requires
        0 <= i <= p.len(),
        0 <= j <= t.len(),
        is_filling(p.skip(i), texts, t.skip(j)),
        flat(texts),
    ensures
        star_match_from(p, i, t, j),
    decreases p.len() - i, t.len() - j,
{
    if i < p.len() {
        let q = p.skip(i);
        assert(q[0] == p[i]);
        assert(q.skip(1) =~= p.skip(i + 1));
        let rest = t.skip(j);
        if p[i] == '*' {
            let others = texts.skip(1);
            assert forall|a: int, k: int|
                0 <= a < others.len() && 0 <= k < others[a].len() implies #[trigger] others[a][k]
                != '/' by {
                assert(others[a] == texts[a + 1]);
                assert(texts[a + 1][k] != '/');
            }
            if texts[0].len() == 0 {
                assert(rest =~= filled(q.skip(1), others));
                lemma_flat_matches(p, i + 1, t, j, others);
            } else {
                let less = seq![texts[0].skip(1)] + others;
                assert(less.skip(1) =~= others);
                let whole = texts[0] + filled(q.skip(1), others);
                assert(whole == rest);
                assert(rest.len() > 0);
                assert(whole[0] == texts[0][0]);
                assert(t[j] == rest[0]);
                assert(whole.skip(1) =~= filled(q, less));
                assert(rest.skip(1) =~= t.skip(j + 1));
                assert forall|a: int, k: int|
                    0 <= a < less.len() && 0 <= k < less[a].len() implies #[trigger] less[a][k]
                    != '/' by {
                    if a == 0 {
                        assert(less[0][k] == texts[0][k + 1]);
                    } else {
                        assert(less[a] == others[a - 1]);
                        assert(others[a - 1][k] != '/');
                    }
                }
                lemma_flat_matches(p, i, t, j + 1, less);
            }
        } else {
            let whole = seq![q[0]] + filled(q.skip(1), texts);
            assert(whole == rest);
            assert(rest.len() > 0 && rest[0] == p[i]);
            assert(whole.skip(1) =~= filled(q.skip(1), texts));
            assert(rest.skip(1) =~= t.skip(j + 1));
            lemma_flat_matches(p, i + 1, t, j + 1, texts);
        }
    } else {
        assert(p.skip(i).len() == 0);
        assert(t.skip(j).len() == 0);
    }
}

/// A pattern without stars matches the path that equals it, and no other,
/// whichever slashes either has.
pub proof fn law_glob_without_stars(p: Seq<char>, t: Seq<char>)
    requires
        !p.contains('*'),
        p.len() == t.len(),
        forall|i: int|
            0 <= i < p.len() ==> (#[trigger] p[i] == t[i] || (p[i] == '/' && t[i] == '\\') || (p[i]
                == '\\' && t[i] == '/')),
    ensures
        glob_matches(p, t),
        forall|other: Seq<char>| other.len() != p.len() ==> !#[trigger] glob_matches(p, other),
{
    let a = text::replaced(p, '\\', '/');
    let b = text::replaced(t, '\\', '/');
    assert(a =~= b);
    if a.contains('*') {
        let i = choose|i: int| 0 <= i < a.len() && a[i] == '*';
        assert(p[i] == '*');
    }
}

/// The tail of a path matches a pattern segment by segment, from the last
/// backwards; a pattern of one segment is matched by the last segment alone.
pub proof fn law_tail_of_a_path(suffix: Seq<char>, dirs: Seq<char>, name: Seq<char>)
    requires
        !suffix.contains('/'),
        !name.contains('/'),
    ensures
        tail_match(suffix, name) == star_match(suffix, name),
        tail_match(suffix, dirs + seq!['/'] + name) == star_match(suffix, name),
{
    text::law_split(suffix, Seq::empty(), '/');
    text::law_split(name, Seq::empty(), '/');
    lemma_last_segment(dirs, name);
    let sp = text::split_char(suffix, '/');
    let one = text::split_char(name, '/');
    let pp = text::split_char(dirs + seq!['/'] + name, '/');
    assert(sp[0] == suffix);
    assert(one[0] == name);
    assert(pp[pp.len() - 1] == name);
    assert(sp.len() == 1 && one.len() == 1);
    assert(tail_match(suffix, name) ==> star_match(sp[0], one[one.len() - sp.len() + 0]));
    assert(tail_match(suffix, dirs + seq!['/'] + name) ==> star_match(
        sp[0],
        pp[pp.len() - sp.len() + 0],
    ));
}

proof fn lemma_last_segment(dirs: Seq<char>, name: Seq<char>)
    requires
        !name.contains('/'),
    ensures
        text::split_char(dirs + seq!['/'] + name, '/').len() > 0,
        text::split_char(dirs + seq!['/'] + name, '/').last() == name,
    decreases name.len(),
{
    let s = dirs + seq!['/'] + name;
    let t = s.drop_last();
    text::lemma_split_nonempty(t, '/');
    if name.len() == 0 {
        assert(s.last() == '/');
    } else {
        let less = name.drop_last();
        assert(t =~= dirs + seq!['/'] + less);
        assert(name.contains(name.last()));
        if less.contains('/') {
            let i = choose|i: int| 0 <= i < less.len() && less[i] == '/';
            assert(name[i] == '/');
        }
        lemma_last_segment(dirs, less);
        assert(s.last() == name.last());
        assert(less.push(name.last()) =~= name);
    }
}

/// The first stars of a pattern stand behind its directory.
proof fn lemma_stars_behind(dir: Seq<char>, rest: Seq<char>)
    requires
        !dir.contains('*'),
    ensures
        ({
            let p = dir + stars() + rest;
            let n = dir.len() as int;
            &&& p.contains('*')
            &&& text::has_text(p, stars())
            &&& text::first_at(p, stars(), n)
            &&& forall|m: int| #[trigger] text::first_at(p, stars(), m) ==> m == n
        }),
{
    let p = dir + stars() + rest;
    let n = dir.len() as int;
    assert(p[n] == '*' && p[n + 1] == '*');
    assert(p.subrange(n, n + 2) =~= stars());
    assert(text::occurs_at(p, stars(), n));
    assert forall|k: int| 0 <= k < n implies !text::occurs_at(p, stars(), k) by {
        if text::occurs_at(p, stars(), k) {
            assert(p.subrange(k, k + 2)[0] == p[k]);
            assert(dir[k] == '*');
        }
    }
    assert forall|m: int| #[trigger] text::first_at(p, stars(), m) implies m == n by {
        if m < n {
            assert(!text::occurs_at(p, stars(), m));
        } else if n < m {
            assert(!text::occurs_at(p, stars(), n));
        }
    }
}

/// A plain name behind the stars is the end of the rest.
proof fn lemma_plain_suffix(dir: Seq<char>, name: Seq<char>, t: Seq<char>)
    requires
        !name.contains('*'),
        name.len() > 0,
    ensures
        double_star_match(dir, seq!['/'] + name, t) == (text::begins_with(t, dir)
            && text::finishes_with(without_slash(t.skip(dir.len() as int)), name)),
{
    assert((seq!['/'] + name).skip(1) =~= name);
}

/// Two stars between a directory and a name match that name in the directory and
/// at any depth below it.
#[verifier::rlimit(60)]
pub proof fn law_name_below_a_directory(dir: Seq<char>, name: Seq<char>, t: Seq<char>)
    requires
        !dir.contains('*'),
        !name.contains('*'),
        name.len() > 0,
    ensures
        slash_glob(dir + stars() + (seq!['/'] + name), t) == (text::begins_with(t, dir)
            && text::finishes_with(without_slash(t.skip(dir.len() as int)), name)),
{
    let p = dir + stars() + (seq!['/'] + name);
    let n = dir.len() as int;
    let tail = seq!['/'] + name;
    assert(p.take(n) =~= dir);
    assert(p.skip(n + 2) =~= tail);
    let cut = double_star_match(p.take(n), p.skip(n + 2), t);
    assert(cut == (text::begins_with(t, dir) && text::finishes_with(
        without_slash(t.skip(dir.len() as int)),
        name,
    ))) by {
        lemma_plain_suffix(dir, name, t);
    }
    assert(slash_glob(p, t) == cut) by {
        lemma_stars_behind(dir, tail);
        lemma_cut_decides(p, t, n);
    }
}

/// One slash is dropped from the front of a text, where there is one.
pub proof fn law_one_slash(rest: Seq<char>)
    ensures
        without_slash(seq!['/'] + rest) == rest,
        rest.len() > 0 && rest[0] != '/' ==> without_slash(rest) == rest,
        without_slash(Seq::empty()).len() == 0,
{
    assert((seq!['/'] + rest).skip(1) =~= rest);
}

} // verus!
