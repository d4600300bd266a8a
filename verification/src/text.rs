//! Strings as sequences of characters: searching, splitting, trimming.
//!
//! The specifications speak of `Seq<char>`; the executable functions work on
//! character slices, so that a position is always a character index.
use vstd::prelude::*;
use vstd::slice::slice_subrange;

verus! {

// ---------------------------------------------------------------------------
// Specifications
// ---------------------------------------------------------------------------

/// `p` stands in `s` at character `i`.
pub open spec fn occurs_at(s: Seq<char>, p: Seq<char>, i: int) -> bool {
    0 <= i && i + p.len() <= s.len() && s.subrange(i, i + p.len()) == p
}

/// `p` stands somewhere in `s`.
pub open spec fn has_text(s: Seq<char>, p: Seq<char>) -> bool {
    exists|i: int| occurs_at(s, p, i)
}

/// The first place at which `p` stands in `s` is character `i`.
pub open spec fn first_at(s: Seq<char>, p: Seq<char>, i: int) -> bool {
    occurs_at(s, p, i) && forall|j: int| 0 <= j < i ==> !occurs_at(s, p, j)
}

/// The first place at which `p` stands in `s`, if there is one.
pub open spec fn find_text(s: Seq<char>, p: Seq<char>) -> Option<int> {
    if has_text(s, p) {
        Some(choose|i: int| first_at(s, p, i))
    } else {
        None
    }
}

/// The first place is the only one with that property.
pub proof fn lemma_find_text(s: Seq<char>, p: Seq<char>, i: int)
    requires
        first_at(s, p, i),
    ensures
        find_text(s, p) == Some(i),
{
    let j = choose|j: int| first_at(s, p, j);
    if j < i {
        assert(!occurs_at(s, p, j));
    } else if i < j {
        assert(!occurs_at(s, p, i));
    }
}

/// `s` begins with `p`.
pub open spec fn begins_with(s: Seq<char>, p: Seq<char>) -> bool {
    occurs_at(s, p, 0)
}

/// `s` ends with `p`.
pub open spec fn finishes_with(s: Seq<char>, p: Seq<char>) -> bool {
    occurs_at(s, p, s.len() - p.len())
}

/// The pieces of `s` between the occurrences of `c`; always at least one piece.
pub open spec fn split_char(s: Seq<char>, c: char) -> Seq<Seq<char>>
    decreases s.len(),
{
    if s.len() == 0 {
        seq![Seq::empty()]
    } else {
        let before = split_char(s.drop_last(), c);
        if s.last() == c {
            before.push(Seq::empty())
        } else {
            before.drop_last().push(before.last().push(s.last()))
        }
    }
}

/// The pieces put together again with `c` between neighbours.
pub open spec fn join_char(parts: Seq<Seq<char>>, c: char) -> Seq<char>
    decreases parts.len(),
{
    if parts.len() == 0 {
        Seq::empty()
    } else if parts.len() == 1 {
        parts[0]
    } else {
        join_char(parts.drop_last(), c).push(c) + parts.last()
    }
}

/// `s` without one trailing carriage return.
pub open spec fn without_cr(s: Seq<char>) -> Seq<char> {
    if s.len() > 0 && s.last() == '\r' {
        s.drop_last()
    } else {
        s
    }
}

/// The lines of `s`: pieces ended by a line feed, which may have a carriage
/// return before it, and the rest behind the last line feed unless it is empty.
pub open spec fn text_lines(s: Seq<char>) -> Seq<Seq<char>> {
    let parts = split_char(s, '\n');
    let ended = Seq::new((parts.len() - 1) as nat, |i: int| without_cr(parts[i]));
    if parts.last().len() == 0 {
        ended
    } else {
        ended.push(parts.last())
    }
}

/// The Unicode property `White_Space`.
pub open spec fn is_space(c: char) -> bool {
    ||| 0x09 <= c as u32 <= 0x0d
    ||| c as u32 == 0x20
    ||| c as u32 == 0x85
    ||| c as u32 == 0xa0
    ||| c as u32 == 0x1680
    ||| 0x2000 <= c as u32 <= 0x200a
    ||| c as u32 == 0x2028
    ||| c as u32 == 0x2029
    ||| c as u32 == 0x202f
    ||| c as u32 == 0x205f
    ||| c as u32 == 0x3000
}

/// `s` without its leading white space.
pub open spec fn trimmed_start(s: Seq<char>) -> Seq<char>
    decreases s.len(),
{
    if s.len() > 0 && is_space(s[0]) {
        trimmed_start(s.drop_first())
    } else {
        s
    }
}

/// `s` without its trailing white space.
pub open spec fn trimmed_end(s: Seq<char>) -> Seq<char>
    decreases s.len(),
{
    if s.len() > 0 && is_space(s.last()) {
        trimmed_end(s.drop_last())
    } else {
        s
    }
}

/// `s` without white space at either end.
pub open spec fn trimmed(s: Seq<char>) -> Seq<char> {
    trimmed_end(trimmed_start(s))
}

/// `s` without the `c` at its front.
pub open spec fn stripped_start(s: Seq<char>, c: char) -> Seq<char>
    decreases s.len(),
{
    if s.len() > 0 && s[0] == c {
        stripped_start(s.drop_first(), c)
    } else {
        s
    }
}

/// `s` without the `c` at its end.
pub open spec fn stripped_end(s: Seq<char>, c: char) -> Seq<char>
    decreases s.len(),
{
    if s.len() > 0 && s.last() == c {
        stripped_end(s.drop_last(), c)
    } else {
        s
    }
}

/// `s` with every `from` replaced by `to`.
pub open spec fn replaced(s: Seq<char>, from: char, to: char) -> Seq<char> {
    Seq::new(s.len(), |i: int| if s[i] == from { to } else { s[i] })
}

/// How much of `s` the `to` at character `i` takes up: all of it where it stands
/// there already, else the `p` that it takes the place of.
pub open spec fn taken_at(s: Seq<char>, p: Seq<char>, to: Seq<char>, i: int) -> int {
    if occurs_at(s, to, i) {
        to.len() as int
    } else {
        p.len() as int
    }
}

/// `s` with every `p` replaced by `to`, from the left and without overlap, but
/// for a `p` at whose place `to` stands already.
pub open spec fn written_out(s: Seq<char>, p: Seq<char>, to: Seq<char>) -> Seq<char>
    decreases s.len(),
{
    match find_text(s, p) {
        Some(i) => {
            let n = taken_at(s, p, to, i);
            if 0 <= i && 0 < n && i + n <= s.len() {
                s.take(i) + to + written_out(s.skip(i + n), p, to)
            } else {
                s
            }
        },
        None => s,
    }
}

/// The maximal runs of `s` without white space.
pub open spec fn words_of(s: Seq<char>) -> Seq<Seq<char>>
    decreases s.len(),
{
    if s.len() == 0 {
        Seq::empty()
    } else {
        let before = words_of(s.drop_last());
        let c = s.last();
        if is_space(c) {
            before
        } else if s.len() >= 2 && !is_space(s[s.len() - 2]) {
            before.drop_last().push(before.last().push(c))
        } else {
            before.push(seq![c])
        }
    }
}

/// The number of bytes of `c` in UTF-8.
pub open spec fn utf8_width(c: char) -> nat {
    if (c as u32) < 0x80 {
        1
    } else if (c as u32) < 0x800 {
        2
    } else if (c as u32) < 0x10000 {
        3
    } else {
        4
    }
}

/// The number of bytes of `s` in UTF-8.
pub open spec fn utf8_len(s: Seq<char>) -> nat
    decreases s.len(),
{
    if s.len() == 0 {
        0
    } else {
        utf8_len(s.drop_last()) + utf8_width(s.last())
    }
}

/// The views of the elements of a sequence.
pub open spec fn views<T: View>(s: Seq<T>) -> Seq<T::V> {
    Seq::new(s.len(), |i: int| s[i]@)
}

// ---------------------------------------------------------------------------
// Between strings and character vectors
// ---------------------------------------------------------------------------

/// `String::push` appends one character.
pub assume_specification[ String::push ](s: &mut String, c: char)
    ensures
        final(s)@ == old(s)@.push(c),
;

/// The characters of a string.
pub fn chars_of(s: &str) -> (r: Vec<char>)
    ensures
        r@ == s@,
{
    let mut out: Vec<char> = Vec::new();
    for c in it: s.chars()
        invariant
            it.seq() == s@,
            out@ == s@.take(it.index() as int),
    {
        out.push(c);
    }
    proof {
        assert(s@.take(s@.len() as int) == s@);
    }
    out
}

/// The string of a character slice.
pub fn string_of(s: &[char]) -> (r: String)
    ensures
        r@ == s@,
{
    let mut out = String::new();
    let mut i: usize = 0;
    while i < s.len()
        invariant
            i <= s.len(),
            out@ == s@.take(i as int),
        decreases s.len() - i,
    {
        out.push(s[i]);
        i += 1;
    }
    proof {
        assert(s@.take(s@.len() as int) == s@);
    }
    out
}

/// Appends a slice to a character vector.
pub fn push_all(out: &mut Vec<char>, s: &[char])
    ensures
        final(out)@ == old(out)@ + s@,
{
    let mut i: usize = 0;
    while i < s.len()
        invariant
            i <= s.len(),
            out@ == old(out)@ + s@.take(i as int),
        decreases s.len() - i,
    {
        out.push(s[i]);
        i += 1;
    }
    proof {
        assert(s@.take(s@.len() as int) == s@);
    }
}

/// A copy of a slice.
pub fn copy_of(s: &[char]) -> (r: Vec<char>)
    ensures
        r@ == s@,
{
    let mut out: Vec<char> = Vec::new();
    push_all(&mut out, s);
    out
}

/// A string of its own with the same characters.
pub fn owned(s: &str) -> (r: String)
    ensures
        r@ == s@,
{
    s.to_owned()
}

/// The two strings, one behind the other.
pub fn concat(a: &str, b: &str) -> (r: String)
    ensures
        r@ == a@ + b@,
{
    let mut out = String::new();
    out.append(a);
    out.append(b);
    out
}

/// Both slices hold the same characters.
pub fn same(a: &[char], b: &[char]) -> (r: bool)
    ensures
        r == (a@ == b@),
{
    if a.len() != b.len() {
        return false;
    }
    let mut i: usize = 0;
    while i < a.len()
        invariant
            i <= a.len(),
            a.len() == b.len(),
            forall|j: int| 0 <= j < i ==> a@[j] == b@[j],
        decreases a.len() - i,
    {
        if a[i] != b[i] {
            return false;
        }
        i += 1;
    }
    assert(a@ =~= b@);
    true
}

/// Both strings hold the same characters.
pub fn str_eq(a: &str, b: &str) -> (r: bool)
    ensures
        r == (a@ == b@),
{
    same(chars_of(a).as_slice(), chars_of(b).as_slice())
}

// ---------------------------------------------------------------------------
// Searching
// ---------------------------------------------------------------------------

/// Whether `p` stands in `s` at character `i`.
pub fn match_at(s: &[char], p: &[char], i: usize) -> (r: bool)
    ensures
        r == occurs_at(s@, p@, i as int),
{
    if i > s.len() || p.len() > s.len() - i {
        return false;
    }
    let piece = slice_subrange(s, i, i + p.len());
    same(piece, p)
}

/// The first place at which `p` stands in `s`.
pub fn find(s: &[char], p: &[char]) -> (r: Option<usize>)
    ensures
        match r {
            Some(i) => first_at(s@, p@, i as int) && find_text(s@, p@) == Some(i as int),
            None => !has_text(s@, p@) && find_text(s@, p@) is None,
        },
{
    if p.len() > s.len() {
        return None;
    }
    let last: usize = s.len() - p.len();
    let mut i: usize = 0;
    while i < last
        invariant
            i <= last,
            last + p.len() == s.len(),
            forall|j: int| 0 <= j < i ==> !occurs_at(s@, p@, j),
        decreases last - i,
    {
        if match_at(s, p, i) {
            proof {
                lemma_find_text(s@, p@, i as int);
            }
            return Some(i);
        }
        i += 1;
    }
    if match_at(s, p, last) {
        proof {
            lemma_find_text(s@, p@, last as int);
        }
        Some(last)
    } else {
        None
    }
}

/// Whether `p` stands somewhere in `s`.
pub fn contains(s: &[char], p: &[char]) -> (r: bool)
    ensures
        r == has_text(s@, p@),
{
    match find(s, p) {
        Some(i) => true,
        None => false,
    }
}

/// Whether `p` stands somewhere in `s`.
pub fn str_contains(s: &str, p: &str) -> (r: bool)
    ensures
        r == has_text(s@, p@),
{
    contains(chars_of(s).as_slice(), chars_of(p).as_slice())
}

/// Whether `c` stands somewhere in `s`.
pub fn contains_char(s: &[char], c: char) -> (r: bool)
    ensures
        r == s@.contains(c),
{
    let mut i: usize = 0;
    while i < s.len()
        invariant
            i <= s.len(),
            forall|j: int| 0 <= j < i ==> s@[j] != c,
        decreases s.len() - i,
    {
        if s[i] == c {
            return true;
        }
        i += 1;
    }
    false
}

/// Whether `s` begins with `p`.
pub fn starts_with(s: &[char], p: &[char]) -> (r: bool)
    ensures
        r == begins_with(s@, p@),
{
    match_at(s, p, 0)
}

/// Whether `s` ends with `p`.
pub fn ends_with(s: &[char], p: &[char]) -> (r: bool)
    ensures
        r == finishes_with(s@, p@),
{
    if p.len() > s.len() {
        return false;
    }
    match_at(s, p, s.len() - p.len())
}

// ---------------------------------------------------------------------------
// Splitting
// ---------------------------------------------------------------------------

/// A split never comes out empty.
pub proof fn lemma_split_nonempty(s: Seq<char>, c: char)
    ensures
        split_char(s, c).len() >= 1,
    decreases s.len(),
{
    if s.len() > 0 {
        lemma_split_nonempty(s.drop_last(), c);
    }
}

/// Cuts `s` at every `c`.
pub fn split(s: &[char], c: char) -> (r: Vec<Vec<char>>)
    ensures
        views(r@) == split_char(s@, c),
        r.len() >= 1,
{
    let mut out: Vec<Vec<char>> = Vec::new();
    let mut cur: Vec<char> = Vec::new();
    let mut i: usize = 0;
    proof {
        assert(views(out@).push(cur@) =~= split_char(s@.take(0), c));
    }
    while i < s.len()
        invariant
            i <= s.len(),
            views(out@).push(cur@) == split_char(s@.take(i as int), c),
        decreases s.len() - i,
    {
        let ghost before = views(out@).push(cur@);
        let x = s[i];
        proof {
            assert(s@.take(i + 1).drop_last() =~= s@.take(i as int));
            assert(before.drop_last() =~= views(out@));
            assert(before.last() == cur@);
        }
        if x == c {
            let ghost prev = out@;
            out.push(cur);
            cur = Vec::new();
            proof {
                assert(views(out@) =~= before);
                assert(cur@ =~= Seq::empty());
            }
        } else {
            cur.push(x);
        }
        i += 1;
    }
    let ghost whole = views(out@).push(cur@);
    out.push(cur);
    proof {
        assert(s@.take(s@.len() as int) =~= s@);
        assert(views(out@) =~= whole);
    }
    out
}

/// The pieces put together with `c` between neighbours.
pub fn join(parts: &Vec<Vec<char>>, c: char) -> (r: Vec<char>)
    ensures
        r@ == join_char(views(parts@), c),
{
    let mut out: Vec<char> = Vec::new();
    let ghost all = views(parts@);
    let mut i: usize = 0;
    while i < parts.len()
        invariant
            i <= parts.len(),
            all == views(parts@),
            out@ == join_char(all.take(i as int), c),
        decreases parts.len() - i,
    {
        let ghost before = out@;
        if i > 0 {
            out.push(c);
        }
        push_all(&mut out, parts[i].as_slice());
        proof {
            let t = all.take(i + 1);
            assert(t.drop_last() =~= all.take(i as int));
            assert(t.last() == parts@[i as int]@);
            if i == 0 {
                assert(before =~= Seq::empty());
                assert(out@ =~= t[0]);
            }
            assert(out@ =~= join_char(t, c));
        }
        i += 1;
    }
    proof {
        assert(all.take(all.len() as int) =~= all);
    }
    out
}

/// The lines of `s`.
pub fn lines(s: &[char]) -> (r: Vec<Vec<char>>)
    ensures
        views(r@) == text_lines(s@),
{
    let parts = split(s, '\n');
    let ghost pieces = split_char(s@, '\n');
    let n: usize = parts.len() - 1;
    let mut out: Vec<Vec<char>> = Vec::new();
    let mut i: usize = 0;
    while i < n
        invariant
            i <= n,
            n == parts.len() - 1,
            views(parts@) == pieces,
            out.len() == i,
            forall|j: int| 0 <= j < i ==> #[trigger] out@[j]@ == without_cr(pieces[j]),
        decreases n - i,
    {
        let part = &parts[i];
        assert(part@ == pieces[i as int]);
        let keep: usize = if part.len() > 0 && part[part.len() - 1] == '\r' {
            part.len() - 1
        } else {
            part.len()
        };
        let line = copy_of(slice_subrange(part.as_slice(), 0, keep));
        proof {
            assert(line@ =~= without_cr(pieces[i as int]));
        }
        out.push(line);
        i += 1;
    }
    let last = &parts[n];
    assert(last@ == pieces.last());
    if last.len() > 0 {
        out.push(copy_of(last.as_slice()));
    }
    proof {
        assert(views(out@) =~= text_lines(s@));
    }
    out
}

/// The words of `s`.
pub fn words(s: &[char]) -> (r: Vec<Vec<char>>)
    ensures
        views(r@) == words_of(s@),
{
    let mut out: Vec<Vec<char>> = Vec::new();
    let mut cur: Vec<char> = Vec::new();
    let mut i: usize = 0;
    while i < s.len()
        invariant
            i <= s.len(),
            cur@.len() == 0 ==> views(out@) == words_of(s@.take(i as int)),
            cur@.len() == 0 ==> (i == 0 || is_space(s@[i - 1])),
            cur@.len() > 0 ==> views(out@).push(cur@) == words_of(s@.take(i as int)),
            cur@.len() > 0 ==> i > 0 && !is_space(s@[i - 1]),
        decreases s.len() - i,
    {
        let x = s[i];
        let ghost t = s@.take(i + 1);
        proof {
            assert(t.drop_last() =~= s@.take(i as int));
            assert(t.last() == x);
            if i > 0 {
                assert(t[t.len() - 2] == s@[i - 1]);
            }
        }
        if white(x) {
            if cur.len() > 0 {
                let ghost whole = views(out@).push(cur@);
                out.push(cur);
                cur = Vec::new();
                proof {
                    assert(views(out@) =~= whole);
                }
            }
        } else {
            let ghost whole = views(out@).push(cur@);
            proof {
                assert(whole.drop_last() =~= views(out@));
            }
            let ghost prev = cur@;
            cur.push(x);
            proof {
                if prev.len() == 0 {
                    assert(cur@ =~= seq![x]);
                }
            }
        }
        i += 1;
    }
    proof {
        assert(s@.take(s@.len() as int) =~= s@);
    }
    if cur.len() > 0 {
        let ghost whole = views(out@).push(cur@);
        out.push(cur);
        proof {
            assert(views(out@) =~= whole);
        }
    }
    out
}

// ---------------------------------------------------------------------------
// Trimming and replacing
// ---------------------------------------------------------------------------

/// Whether `c` is white space.
pub fn white(c: char) -> (r: bool)
    ensures
        r == is_space(c),
{
    let u: u32 = c as u32;
    (0x09 <= u && u <= 0x0d) || u == 0x20 || u == 0x85 || u == 0xa0 || u == 0x1680 || (0x2000 <= u
        && u <= 0x200a) || u == 0x2028 || u == 0x2029 || u == 0x202f || u == 0x205f || u == 0x3000
}

/// `s` without white space at either end.
pub fn trim(s: &[char]) -> (r: &[char])
    ensures
        r@ == trimmed(s@),
{
    let mut from: usize = 0;
    proof {
        assert(s@.skip(0) =~= s@);
    }
    while from < s.len() && white(s[from])
        invariant
            from <= s.len(),
            trimmed_start(s@) == trimmed_start(s@.skip(from as int)),
        decreases s.len() - from,
    {
        proof {
            assert(s@.skip(from as int).drop_first() =~= s@.skip(from + 1));
        }
        from += 1;
    }
    let mut to: usize = s.len();
    let ghost front = trimmed_start(s@);
    proof {
        assert(front =~= s@.subrange(from as int, to as int));
    }
    while from < to && white(s[to - 1])
        invariant
            from <= to <= s.len(),
            trimmed_end(front) == trimmed_end(s@.subrange(from as int, to as int)),
        decreases to - from,
    {
        proof {
            assert(s@.subrange(from as int, to as int).drop_last() =~= s@.subrange(
                from as int,
                to - 1,
            ));
        }
        to -= 1;
    }
    slice_subrange(s, from, to)
}

/// `s` without the `c` at its front.
pub fn strip_start(s: &[char], c: char) -> (r: &[char])
    ensures
        r@ == stripped_start(s@, c),
{
    let mut from: usize = 0;
    proof {
        assert(s@.skip(0) =~= s@);
    }
    while from < s.len() && s[from] == c
        invariant
            from <= s.len(),
            stripped_start(s@, c) == stripped_start(s@.skip(from as int), c),
        decreases s.len() - from,
    {
        proof {
            assert(s@.skip(from as int).drop_first() =~= s@.skip(from + 1));
        }
        from += 1;
    }
    proof {
        assert(s@.skip(from as int) =~= s@.subrange(from as int, s@.len() as int));
    }
    slice_subrange(s, from, s.len())
}

/// `s` without the `c` at its end.
pub fn strip_end(s: &[char], c: char) -> (r: &[char])
    ensures
        r@ == stripped_end(s@, c),
{
    let mut to: usize = s.len();
    proof {
        assert(s@.take(s@.len() as int) =~= s@);
    }
    while to > 0 && s[to - 1] == c
        invariant
            to <= s.len(),
            stripped_end(s@, c) == stripped_end(s@.take(to as int), c),
        decreases to,
    {
        proof {
            assert(s@.take(to as int).drop_last() =~= s@.take(to - 1));
        }
        to -= 1;
    }
    slice_subrange(s, 0, to)
}

/// `s` with every `from` replaced by `to`.
pub fn replace_char(s: &[char], from: char, to: char) -> (r: Vec<char>)
    ensures
        r@ == replaced(s@, from, to),
{
    let mut out: Vec<char> = Vec::new();
    let mut i: usize = 0;
    while i < s.len()
        invariant
            i <= s.len(),
            out@ == replaced(s@, from, to).take(i as int),
        decreases s.len() - i,
    {
        out.push(if s[i] == from { to } else { s[i] });
        i += 1;
    }
    proof {
        assert(replaced(s@, from, to).take(s@.len() as int) =~= replaced(s@, from, to));
    }
    out
}

/// `s` with every `p` replaced by `to`, from the left and without overlap, but
/// for a `p` at whose place `to` stands already.
pub fn write_out(s: &[char], p: &[char], to: &[char]) -> (r: Vec<char>)
    requires
        p@.len() > 0,
        to@.len() > 0,
    ensures
        r@ == written_out(s@, p@, to@),
{
    let mut out: Vec<char> = Vec::new();
    let mut from: usize = 0;
    proof {
        assert(s@.skip(0) =~= s@);
        assert(written_out(s@, p@, to@) =~= out@ + written_out(s@.skip(0), p@, to@));
    }
    loop
        invariant_except_break
            from <= s.len(),
            p@.len() > 0,
            to@.len() > 0,
            written_out(s@, p@, to@) == out@ + written_out(s@.skip(from as int), p@, to@),
        ensures
            written_out(s@, p@, to@) == out@,
        decreases s.len() - from,
    {
        let rest = slice_subrange(s, from, s.len());
        proof {
            assert(rest@ =~= s@.skip(from as int));
        }
        let ghost before = out@;
        match find(rest, p) {
            Some(i) => {
                assert(occurs_at(rest@, p@, i as int));
                let n: usize = if match_at(rest, to, i) {
                    to.len()
                } else {
                    p.len()
                };
                push_all(&mut out, slice_subrange(rest, 0, i));
                push_all(&mut out, to);
                from = from + i + n;
                proof {
                    assert(rest@.skip(i + n) =~= s@.skip(from as int));
                    assert(rest@.subrange(0, i as int) =~= rest@.take(i as int));
                    assert(before + written_out(rest@, p@, to@) =~= out@ + written_out(
                        s@.skip(from as int),
                        p@,
                        to@,
                    ));
                }
            },
            None => {
                push_all(&mut out, rest);
                break;
            },
        }
    }
    out
}

proof fn lemma_first_exists(s: Seq<char>, p: Seq<char>, k: int)
    requires
        occurs_at(s, p, k),
    ensures
        exists|i: int| first_at(s, p, i),
    decreases k,
{
    if !first_at(s, p, k) {
        let j = choose|j: int| 0 <= j < k && occurs_at(s, p, j);
        lemma_first_exists(s, p, j);
    }
}

/// Where `to` stands at every place of `p`, nothing is written out.
pub proof fn law_written_out_already(s: Seq<char>, p: Seq<char>, to: Seq<char>)
    requires
        forall|i: int| occurs_at(s, p, i) ==> occurs_at(s, to, i),
    ensures
        written_out(s, p, to) == s,
    decreases s.len(),
{
    if has_text(s, p) {
        lemma_first_exists(s, p, choose|k: int| occurs_at(s, p, k));
        let i = find_text(s, p)->0;
        assert(occurs_at(s, p, i));
        let n = to.len() as int;
        if n > 0 {
            let rest = s.skip(i + n);
            assert forall|j: int| occurs_at(rest, p, j) implies occurs_at(rest, to, j) by {
                assert(rest.subrange(j, j + p.len()) =~= s.subrange(
                    i + n + j,
                    i + n + j + p.len(),
                ));
                assert(occurs_at(s, p, i + n + j));
                assert(occurs_at(s, to, i + n + j));
                assert(rest.subrange(j, j + to.len()) =~= s.subrange(
                    i + n + j,
                    i + n + j + to.len(),
                ));
            }
            law_written_out_already(rest, p, to);
            assert(s.take(i) + to + rest =~= s) by {
                assert(s.subrange(i, i + n) == to);
            }
        }
    }
}

// ---------------------------------------------------------------------------
// Byte positions
// ---------------------------------------------------------------------------

/// The number of bytes of `c` in UTF-8.
pub fn char_width(c: char) -> (r: usize)
    ensures
        r == utf8_width(c),
{
    let u: u32 = c as u32;
    if u < 0x80 {
        1
    } else if u < 0x800 {
        2
    } else if u < 0x10000 {
        3
    } else {
        4
    }
}

/// A longer prefix has no fewer bytes, and a character has at least one.
pub proof fn lemma_utf8_len_take(s: Seq<char>, i: int, j: int)
    requires
        0 <= i <= j <= s.len(),
    ensures
        utf8_len(s.take(i)) + (j - i) <= utf8_len(s.take(j)),
    decreases j - i,
{
    if i < j {
        lemma_utf8_len_take(s, i, j - 1);
        assert(s.take(j).drop_last() =~= s.take(j - 1));
    }
}

proof fn lemma_utf8_len_concat(a: Seq<char>, b: Seq<char>)
    ensures
        utf8_len(a + b) == utf8_len(a) + utf8_len(b),
    decreases b.len(),
{
    if b.len() == 0 {
        assert(a + b =~= a);
    } else {
        assert((a + b).drop_last() =~= a + b.drop_last());
        lemma_utf8_len_concat(a, b.drop_last());
    }
}

/// The byte length is the length of the UTF-8 encoding.
pub proof fn lemma_utf8_len_is_encoded_len(s: Seq<char>)
    ensures
        utf8_len(s) == vstd::utf8::encode_utf8(s).len(),
    decreases s.len(),
{
    if s.len() > 0 {
        let one = seq![s[0]];
        assert(s =~= one + s.drop_first());
        lemma_utf8_len_concat(one, s.drop_first());
        lemma_utf8_len_is_encoded_len(s.drop_first());
        assert(one.drop_last() =~= Seq::empty());
        assert(utf8_len(one) == utf8_len(one.drop_last()) + utf8_width(s[0]));
        assert(utf8_len(Seq::<char>::empty()) == 0);
        assert(vstd::utf8::encode_scalar(s[0] as u32).len() == utf8_width(s[0])) by {
            vstd::utf8::char_is_scalar(s[0]);
        }
    }
}

/// Whether a byte position of `s` stands between two characters or at an end.
pub open spec fn at_boundary(s: Seq<char>, byte: int) -> bool {
    exists|k: int| 0 <= k <= s.len() && #[trigger] utf8_len(s.take(k)) == byte
}

/// The number of characters of `s` that begin before byte `byte`.
pub open spec fn chars_before(s: Seq<char>, byte: int) -> nat
    decreases s.len(),
{
    if s.len() == 0 {
        0
    } else if utf8_len(s.drop_last()) < byte {
        s.len()
    } else {
        chars_before(s.drop_last(), byte)
    }
}

proof fn lemma_chars_before(s: Seq<char>, byte: int, k: int)
    requires
        0 <= k <= s.len(),
        forall|j: int| 0 <= j < k ==> #[trigger] utf8_len(s.take(j)) < byte,
        k < s.len() ==> utf8_len(s.take(k)) >= byte,
    ensures
        chars_before(s, byte) == k,
    decreases s.len(),
{
    if s.len() > 0 {
        let t = s.drop_last();
        assert(t =~= s.take(s.len() - 1));
        if k < s.len() {
            lemma_utf8_len_take(s, k, s.len() - 1);
            assert forall|j: int| 0 <= j <= k implies #[trigger] t.take(j) =~= s.take(j) by {}
            assert(t.take(k) =~= s.take(k));
            assert forall|j: int| 0 <= j < k implies #[trigger] utf8_len(t.take(j)) < byte by {
                assert(t.take(j) =~= s.take(j));
            }
            lemma_chars_before(t, byte, k);
        } else {
            assert(utf8_len(s.take(s.len() - 1)) < byte);
        }
    }
}

/// The number of characters of `s` that begin before byte `byte`.
pub fn chars_before_byte(s: &[char], byte: usize) -> (r: usize)
    ensures
        r == chars_before(s@, byte as int),
        r <= s.len(),
{
    let mut at: usize = 0;
    let mut i: usize = 0;
    while i < s.len() && at < byte
        invariant
            i <= s.len(),
            at < byte ==> at == utf8_len(s@.take(i as int)),
            at >= byte ==> utf8_len(s@.take(i as int)) >= byte,
            forall|k: int| 0 <= k < i ==> #[trigger] utf8_len(s@.take(k)) < byte,
        decreases s.len() - i,
    {
        let w = char_width(s[i]);
        proof {
            assert(s@.take(i + 1).drop_last() =~= s@.take(i as int));
        }
        if w >= byte - at {
            at = byte;
        } else {
            at = at + w;
        }
        i += 1;
    }
    proof {
        lemma_chars_before(s@, byte as int, i as int);
    }
    i
}

/// Whether `s` has at least `n` bytes in UTF-8.
pub fn has_bytes(s: &[char], n: usize) -> (r: bool)
    ensures
        r == (utf8_len(s@) >= n),
{
    let mut at: usize = 0;
    let mut i: usize = 0;
    while i < s.len() && at < n
        invariant
            i <= s.len(),
            at < n ==> at == utf8_len(s@.take(i as int)),
            at >= n ==> utf8_len(s@.take(i as int)) >= n,
        decreases s.len() - i,
    {
        let w = char_width(s[i]);
        proof {
            assert(s@.take(i + 1).drop_last() =~= s@.take(i as int));
        }
        if w >= n - at {
            at = n;
        } else {
            at = at + w;
        }
        i += 1;
    }
    proof {
        assert(s@.take(s@.len() as int) =~= s@);
        lemma_utf8_len_take(s@, i as int, s@.len() as int);
    }
    at >= n
}

// ---------------------------------------------------------------------------
// Laws
// ---------------------------------------------------------------------------

/// Splitting at `c` and joining with `c` gives the text back.
pub proof fn law_split_join(s: Seq<char>, c: char)
    ensures
        join_char(split_char(s, c), c) == s,
    decreases s.len(),
{
    lemma_split_nonempty(s, c);
    if s.len() > 0 {
        let t = s.drop_last();
        law_split_join(t, c);
        lemma_split_nonempty(t, c);
        let before = split_char(t, c);
        assert(s =~= t.push(s.last()));
        if s.last() == c {
            let after = before.push(Seq::empty());
            assert(after.drop_last() =~= before);
            assert(join_char(after, c) =~= t.push(c));
        } else {
            let after = before.drop_last().push(before.last().push(s.last()));
            assert(after.drop_last() =~= before.drop_last());
            if before.len() == 1 {
                assert(join_char(after, c) =~= t.push(s.last()));
            } else {
                assert(join_char(after, c) =~= t.push(s.last()));
            }
        }
    }
}

/// No piece of a split at `c` holds a `c`.
pub proof fn law_split_pieces(s: Seq<char>, c: char, i: int)
    requires
        0 <= i < split_char(s, c).len(),
    ensures
        !split_char(s, c)[i].contains(c),
    decreases s.len(),
{
    if s.len() > 0 {
        let before = split_char(s.drop_last(), c);
        lemma_split_nonempty(s.drop_last(), c);
        if i < before.len() {
            law_split_pieces(s.drop_last(), c, i);
        }
        if s.last() != c && i == before.len() - 1 {
            assert(!before.last().contains(c));
            let piece = before.last().push(s.last());
            assert forall|j: int| 0 <= j < piece.len() implies piece[j] != c by {
                if j < before.last().len() {
                    assert(before.last().contains(before.last()[j]));
                }
            }
        }
    }
}

/// A text begins with another where its first characters are those of the other,
/// and ends with it where its last characters are.
pub proof fn law_ends_of_text(s: Seq<char>, p: Seq<char>)
    ensures
        begins_with(s, p) <==> p.len() <= s.len() && s.take(p.len() as int) == p,
        finishes_with(s, p) <==> p.len() <= s.len() && s.skip(s.len() - p.len()) == p,
{
    if p.len() <= s.len() {
        assert(s.subrange(0, p.len() as int) =~= s.take(p.len() as int));
        assert(s.subrange(s.len() - p.len(), s.len() as int) =~= s.skip(s.len() - p.len()));
    }
}

/// A text holds another wherever this stands in it, whatever comes before and
/// behind.
pub proof fn law_text_is_found(before: Seq<char>, p: Seq<char>, behind: Seq<char>)
    ensures
        has_text(before + p + behind, p),
{
    let s = before + p + behind;
    let i = before.len() as int;
    assert(s.subrange(i, i + p.len()) =~= p);
    assert(occurs_at(s, p, i));
}

/// What is found in a text stands there, and nowhere before.
pub proof fn law_found_text_is_there(s: Seq<char>, p: Seq<char>)
    requires
        has_text(s, p),
    ensures
        ({
            let i = find_text(s, p)->0;
            &&& find_text(s, p) is Some
            &&& 0 <= i <= s.len() - p.len()
            &&& s == s.take(i) + p + s.skip(i + p.len())
            &&& forall|j: int| 0 <= j < i ==> #[trigger] s.subrange(j, j + p.len()) != p
        }),
{
    lemma_first_exists(s, p, choose|k: int| occurs_at(s, p, k));
    let i = find_text(s, p)->0;
    assert(first_at(s, p, i));
    assert(s.take(i) + p + s.skip(i + p.len()) =~= s) by {
        assert(s.subrange(i, i + p.len()) == p);
        assert forall|k: int| i <= k < i + p.len() implies s[k] == p[k - i] by {
            assert(s.subrange(i, i + p.len())[k - i] == s[k]);
        }
    }
    assert forall|j: int| 0 <= j < i implies #[trigger] s.subrange(j, j + p.len()) != p by {
        assert(!occurs_at(s, p, j));
    }
}

/// Among the ASCII characters the white space is the space, the tabs, the form
/// feed and the ends of lines.
pub proof fn law_white_space(c: char)
    requires
        (c as u32) < 0x80,
    ensures
        is_space(c) <==> c == ' ' || c == '\t' || c == '\n' || c == '\r' || c as u32 == 0x0b
            || c as u32 == 0x0c,
{
}

proof fn lemma_trimmed_start(left: Seq<char>, rest: Seq<char>)
    requires
        forall|i: int| 0 <= i < left.len() ==> is_space(left[i]),
    ensures
        trimmed_start(left + rest) == trimmed_start(rest),
    decreases left.len(),
{
    if left.len() == 0 {
        assert(left + rest =~= rest);
    } else {
        assert((left + rest)[0] == left[0]);
        assert((left + rest).drop_first() =~= left.drop_first() + rest);
        lemma_trimmed_start(left.drop_first(), rest);
    }
}

proof fn lemma_trimmed_end(rest: Seq<char>, right: Seq<char>)
    requires
        forall|i: int| 0 <= i < right.len() ==> is_space(right[i]),
    ensures
        trimmed_end(rest + right) == trimmed_end(rest),
    decreases right.len(),
{
    if right.len() == 0 {
        assert(rest + right =~= rest);
    } else {
        assert((rest + right).last() == right.last());
        assert((rest + right).drop_last() =~= rest + right.drop_last());
        lemma_trimmed_end(rest, right.drop_last());
    }
}

/// Trimming takes the white space off both ends, all of it and nothing else.
pub proof fn law_trim(left: Seq<char>, core: Seq<char>, right: Seq<char>)
    requires
        forall|i: int| 0 <= i < left.len() ==> is_space(left[i]),
        forall|i: int| 0 <= i < right.len() ==> is_space(right[i]),
        core.len() > 0 ==> !is_space(core[0]) && !is_space(core.last()),
    ensures
        trimmed(left + core + right) == core,
{
    assert(left + core + right =~= left + (core + right));
    lemma_trimmed_start(left, core + right);
    if core.len() == 0 {
        assert(core + right =~= right + core);
        lemma_trimmed_start(right, core);
        assert(trimmed_start(core) =~= core);
    } else {
        assert((core + right)[0] == core[0]);
        assert(trimmed_start(core + right) == core + right);
        lemma_trimmed_end(core, right);
    }
}

proof fn lemma_split_whole(s: Seq<char>, c: char)
    requires
        !s.contains(c),
    ensures
        split_char(s, c) == seq![s],
    decreases s.len(),
{
    if s.len() == 0 {
        assert(s =~= Seq::empty());
        assert(split_char(s, c) =~= seq![s]);
    } else {
        let t = s.drop_last();
        assert forall|i: int| 0 <= i < t.len() implies t[i] != c by {
            assert(s.contains(s[i]));
        }
        assert(s.contains(s.last()));
        lemma_split_whole(t, c);
        assert(t.push(s.last()) =~= s);
        assert(split_char(s, c) =~= seq![s]);
    }
}

/// Splitting goes on behind a separator.
pub proof fn lemma_split_concat(a: Seq<char>, b: Seq<char>, c: char)
    ensures
        split_char(a.push(c) + b, c) == split_char(a, c) + split_char(b, c),
    decreases b.len(),
{
    let s = a.push(c) + b;
    lemma_split_nonempty(a, c);
    if b.len() == 0 {
        assert(s =~= a.push(c));
        assert(s.drop_last() =~= a);
        assert(split_char(s, c) =~= split_char(a, c) + split_char(b, c));
    } else {
        let t = b.drop_last();
        lemma_split_concat(a, t, c);
        lemma_split_nonempty(t, c);
        assert(s.drop_last() =~= a.push(c) + t);
        assert(s.last() == b.last());
        let before = split_char(a, c) + split_char(t, c);
        assert(before.last() == split_char(t, c).last());
        assert(before.drop_last() =~= split_char(a, c) + split_char(t, c).drop_last());
        assert(split_char(s, c) =~= split_char(a, c) + split_char(b, c));
    }
}

/// The pieces of a text are what stands between the separators: what comes
/// before the first separator, and the pieces of the rest.
pub proof fn law_split(piece: Seq<char>, rest: Seq<char>, c: char)
    requires
        !piece.contains(c),
    ensures
        split_char(piece, c) == seq![piece],
        split_char(piece.push(c) + rest, c) == seq![piece] + split_char(rest, c),
{
    lemma_split_whole(piece, c);
    lemma_split_concat(piece, rest, c);
}

/// A line ends at the first line feed, with or without a carriage return before
/// it, and the other lines are those of the rest. A text without a line feed is
/// one line, or none where it is empty.
pub proof fn law_lines(line: Seq<char>, rest: Seq<char>)
    requires
        !line.contains('\n'),
    ensures
        line.len() > 0 ==> text_lines(line) == seq![line],
        text_lines(Seq::empty()) == Seq::<Seq<char>>::empty(),
        line.len() > 0 && line.last() == '\r' || text_lines(line.push('\n') + rest) == seq![line]
            + text_lines(rest),
        text_lines(line.push('\r').push('\n') + rest) == seq![line] + text_lines(rest),
{
    lemma_split_whole(line, '\n');
    lemma_split_nonempty(rest, '\n');
    assert(split_char(Seq::empty(), '\n') =~= seq![Seq::<char>::empty()]);
    assert(text_lines(Seq::empty()) =~= Seq::<Seq<char>>::empty());
    if line.len() > 0 {
        assert(text_lines(line) =~= seq![line]);
    }
    lemma_split_concat(line, rest, '\n');
    if !(line.len() > 0 && line.last() == '\r') {
        assert(text_lines(line.push('\n') + rest) =~= seq![line] + text_lines(rest));
    }
    let ended = line.push('\r');
    assert forall|i: int| 0 <= i < ended.len() implies ended[i] != '\n' by {
        if i < line.len() {
            assert(line.contains(line[i]));
        }
    }
    lemma_split_whole(ended, '\n');
    lemma_split_concat(ended, rest, '\n');
    assert(without_cr(ended) =~= line);
    assert(text_lines(ended.push('\n') + rest) =~= seq![line] + text_lines(rest));
}

/// Words are what stands between white space: a text without any is one word,
/// and white space between two texts parts their words.
pub proof fn law_words(a: Seq<char>, space: char, b: Seq<char>)
    requires
        is_space(space),
    ensures
        words_of(a.push(space) + b) == words_of(a) + words_of(b),
        a.len() > 0 && (forall|i: int| 0 <= i < a.len() ==> !is_space(a[i])) ==> words_of(a)
            == seq![a],
        words_of(Seq::empty()) == Seq::<Seq<char>>::empty(),
    decreases a.len() + b.len(),
{
    let s = a.push(space) + b;
    if b.len() == 0 {
        assert(s =~= a.push(space));
        assert(s.drop_last() =~= a);
        assert(words_of(s) =~= words_of(a) + words_of(b));
    } else {
        let t = b.drop_last();
        law_words(a, space, t);
        assert(s.drop_last() =~= a.push(space) + t);
        assert(s.last() == b.last());
        if b.len() >= 2 {
            assert(s[s.len() - 2] == b[b.len() - 2]);
            if !is_space(b[b.len() - 2]) {
                assert(words_of(t).len() > 0);
                let before = words_of(a) + words_of(t);
                assert(before.drop_last() =~= words_of(a) + words_of(t).drop_last());
            }
        } else {
            assert(s[s.len() - 2] == space);
        }
        assert(words_of(s) =~= words_of(a) + words_of(b));
    }
    if a.len() > 0 && (forall|i: int| 0 <= i < a.len() ==> !is_space(a[i])) {
        lemma_one_word(a);
    }
}

proof fn lemma_one_word(a: Seq<char>)
    requires
        a.len() > 0,
        forall|i: int| 0 <= i < a.len() ==> !is_space(a[i]),
    ensures
        words_of(a) == seq![a],
    decreases a.len(),
{
    let t = a.drop_last();
    if a.len() == 1 {
        assert(words_of(t) =~= Seq::empty());
        assert(seq![a.last()] =~= a);
    } else {
        lemma_one_word(t);
        assert(t.push(a.last()) =~= a);
    }
    assert(words_of(a) =~= seq![a]);
}

/// Stripping a character takes it off one end of a text, as often as it stands
/// there, and nothing else.
pub proof fn law_strip(n: nat, c: char, rest: Seq<char>)
    ensures
        rest.len() > 0 && rest[0] == c || stripped_start(Seq::new(n, |i: int| c) + rest, c) == rest,
        rest.len() > 0 && rest.last() == c || stripped_end(rest + Seq::new(n, |i: int| c), c)
            == rest,
    decreases n,
{
    let run = Seq::new(n, |i: int| c);
    if n == 0 {
        assert(run + rest =~= rest);
        assert(rest + run =~= rest);
    } else {
        let fewer = Seq::new((n - 1) as nat, |i: int| c);
        law_strip((n - 1) as nat, c, rest);
        assert((run + rest).drop_first() =~= fewer + rest);
        assert((rest + run).drop_last() =~= rest + fewer);
    }
}

/// Replacing a character changes every one of that kind, and no other.
pub proof fn law_replace(s: Seq<char>, from: char, to: char, i: int)
    requires
        0 <= i < s.len(),
    ensures
        replaced(s, from, to).len() == s.len(),
        s[i] == from ==> replaced(s, from, to)[i] == to,
        s[i] != from ==> replaced(s, from, to)[i] == s[i],
{
}

/// The first place of a text is written out, and then the rest.
pub proof fn law_written_out_there(before: Seq<char>, p: Seq<char>, behind: Seq<char>, to: Seq<char>)
    requires
        p.len() > 0,
        forall|i: int| 0 <= i < before.len() ==> !occurs_at(before + p + behind, p, i),
        !occurs_at(before + p + behind, to, before.len() as int),
    ensures
        written_out(before + p + behind, p, to) == before + to + written_out(behind, p, to),
{
    let s = before + p + behind;
    let i = before.len() as int;
    assert(s.subrange(i, i + p.len()) =~= p);
    assert(first_at(s, p, i));
    lemma_find_text(s, p, i);
    assert(s.take(i) =~= before);
    assert(s.skip(i + p.len()) =~= behind);
}

/// The bytes of two texts add up. An ASCII character has one byte, a character
/// below U+0800 two, one below U+10000 three and every other four.
pub proof fn law_bytes(a: Seq<char>, b: Seq<char>, c: char)
    ensures
        utf8_len(a + b) == utf8_len(a) + utf8_len(b),
        utf8_len(seq![c]) == (if (c as u32) < 0x80 {
            1nat
        } else if (c as u32) < 0x800 {
            2
        } else if (c as u32) < 0x10000 {
            3
        } else {
            4
        }),
    decreases b.len(),
{
    assert(seq![c].drop_last() =~= Seq::empty());
    assert(utf8_len(Seq::empty()) == 0);
    if b.len() == 0 {
        assert(a + b =~= a);
    } else {
        law_bytes(a, b.drop_last(), c);
        assert((a + b).drop_last() =~= a + b.drop_last());
    }
}

} // verus!
