//! What a query or a regular expression looks like before it is run.
use vstd::prelude::*;

use crate::chars;
use crate::chars::is_alphanumeric;
use crate::text;
use crate::text::{chars_of, contains, trim};

verus! {

// ---------------------------------------------------------------------------
// Tokens of a regular expression
// ---------------------------------------------------------------------------

/// How a piece of a regular expression behaves in full-text search.
#[derive(Clone, Copy, PartialEq, Eq, Structural, Debug)]
pub enum Piece {
    /// A letter, a digit or an underscore.
    Word,
    /// An escape or a character class; it merges with the words beside it.
    Merge,
    /// Any other character; it separates words.
    Gap,
}

/// A letter, a digit or an underscore.
pub open spec fn is_word(c: char) -> bool {
    chars::alphanumeric(c) || c == '_'
}

/// The place behind the `]` that closes a class whose inside begins at `i`;
/// behind the end of the pattern where nothing closes it.
pub open spec fn class_end(p: Seq<char>, i: int) -> int
    decreases p.len() - i,
{
    if i >= p.len() {
        i
    } else if p[i] == '\\' && i + 1 < p.len() {
        class_end(p, i + 2)
    } else if p[i] == ']' {
        i + 1
    } else {
        class_end(p, i + 1)
    }
}

/// A class ends within the pattern.
pub proof fn lemma_class_end(p: Seq<char>, i: int)
    requires
        i <= p.len(),
    ensures
        i <= class_end(p, i) <= p.len(),
    decreases p.len() - i,
{
    if i >= p.len() {
    } else if p[i] == '\\' && i + 1 < p.len() {
        lemma_class_end(p, i + 2);
    } else if p[i] == ']' {
    } else {
        lemma_class_end(p, i + 1);
    }
}

/// The pieces of a pattern from character `i` on.
pub open spec fn pieces_from(p: Seq<char>, i: int) -> Seq<Piece>
    decreases
            if i < p.len() {
                p.len() - i
            } else {
                0
            },
{
    if i < 0 || i >= p.len() {
        Seq::empty()
    } else if p[i] == '\\' {
        seq![Piece::Merge] + pieces_from(p, i + 2)
    } else if p[i] == '[' {
        proof {
            lemma_class_end(p, i + 1);
        }
        seq![Piece::Merge] + pieces_from(p, class_end(p, i + 1))
    } else if is_word(p[i]) {
        seq![Piece::Word] + pieces_from(p, i + 1)
    } else {
        seq![Piece::Gap] + pieces_from(p, i + 1)
    }
}

/// The pieces `a` to `b` are a whole word of three characters or more that no
/// escape and no class touches.
pub open spec fn token_at(pieces: Seq<Piece>, a: int, b: int) -> bool {
    &&& 0 <= a && a + 3 <= b && b <= pieces.len()
    &&& forall|k: int| a <= k < b ==> pieces[k] == Piece::Word
    &&& a == 0 || pieces[a - 1] == Piece::Gap
    &&& b == pieces.len() || pieces[b] == Piece::Gap
}

/// The pattern holds a word that full-text search can look up.
pub open spec fn has_token(p: Seq<char>) -> bool {
    exists|a: int, b: int| token_at(pieces_from(p, 0), a, b)
}

fn find_class_end(p: &[char], from: usize) -> (r: usize)
    requires
        from <= p.len(),
    ensures
        r == class_end(p@, from as int),
        from <= r <= p.len(),
{
    let mut i: usize = from;
    while i < p.len()
        invariant
            from <= i <= p.len(),
            class_end(p@, from as int) == class_end(p@, i as int),
        decreases p.len() - i,
    {
        if p[i] == '\\' && p.len() - i > 1 {
            i += 2;
        } else if p[i] == ']' {
            return i + 1;
        } else {
            i += 1;
        }
    }
    i
}

fn pieces(p: &[char]) -> (r: Vec<Piece>)
    ensures
        r@ == pieces_from(p@, 0),
{
    let mut out: Vec<Piece> = Vec::new();
    let mut i: usize = 0;
    while i < p.len()
        invariant
            i <= p.len(),
            pieces_from(p@, 0) == out@ + pieces_from(p@, i as int),
        decreases p.len() - i,
    {
        let c = p[i];
        let ghost prev = out@;
        let ghost at = i as int;
        if c == '\\' {
            out.push(Piece::Merge);
            if p.len() - i > 1 {
                i += 2;
            } else {
                i += 1;
            }
        } else if c == '[' {
            out.push(Piece::Merge);
            i = find_class_end(p, i + 1);
        } else if is_alphanumeric(c) || c == '_' {
            out.push(Piece::Word);
            i += 1;
        } else {
            out.push(Piece::Gap);
            i += 1;
        }
        proof {
            if c == '\\' {
                assert(pieces_from(p@, at + 2) =~= pieces_from(p@, i as int));
            }
            assert(prev + pieces_from(p@, at) =~= out@ + pieces_from(p@, i as int));
        }
    }
    proof {
        assert(out@ + pieces_from(p@, i as int) =~= out@);
    }
    out
}

/// Whether a regular expression holds a word that full-text search can look
/// up: three or more letters, digits or underscores in a row, with neither an
/// escape nor a character class next to them.
///
/// A pattern without such a word has to be run over every chunk.
pub fn regex_has_anchorable_token(pattern: &str) -> (r: bool)
    ensures
        r == has_token(pattern@),
{
    let ps = pieces(chars_of(pattern).as_slice());
    let n: usize = ps.len();
    let mut run: usize = 0;
    let mut k: usize = 0;
    while k < n
        invariant
            k <= n,
            n == ps.len(),
            ps@ == pieces_from(pattern@, 0),
            run <= k,
            forall|j: int| k - run <= j < k ==> ps@[j] == Piece::Word,
            run == k || ps@[k - run - 1] != Piece::Word,
            forall|a: int, b: int| token_at(ps@, a, b) ==> b >= k,
        decreases n - k,
    {
        if ps[k] == Piece::Word {
            run += 1;
        } else {
            let whole = run >= 3 && (run == k || ps[k - run - 1] == Piece::Gap) && ps[k]
                == Piece::Gap;
            if whole {
                assert(token_at(ps@, k - run, k as int));
                return true;
            }
            proof {
                assert forall|a: int, b: int| token_at(ps@, a, b) implies b >= k + 1 by {
                    if b == k {
                        assert(a <= k - run) by {
                            if a > k - run {
                                assert(ps@[a - 1] == Piece::Word);
                            }
                        }
                        assert(a == k - run);
                    }
                }
            }
            run = 0;
        }
        k += 1;
    }
    let whole = run >= 3 && (run == n || ps[n - run - 1] == Piece::Gap);
    proof {
        if whole {
            assert(token_at(ps@, n - run, n as int));
        } else {
            assert forall|a: int, b: int| !token_at(ps@, a, b) by {
                if token_at(ps@, a, b) {
                    assert(b == n);
                    if a > n - run {
                        assert(ps@[a - 1] == Piece::Word);
                    }
                    assert(a == n - run);
                }
            }
        }
    }
    whole
}

// ---------------------------------------------------------------------------
// Alternation
// ---------------------------------------------------------------------------

/// The characters of a pattern from `i` on that stand neither in an escape nor
/// in a character class.
pub open spec fn active_from(p: Seq<char>, i: int) -> Seq<char>
    decreases
            if i < p.len() {
                p.len() - i
            } else {
                0
            },
{
    if i < 0 || i >= p.len() {
        Seq::empty()
    } else if p[i] == '\\' {
        active_from(p, i + 2)
    } else if p[i] == '[' {
        proof {
            lemma_class_end(p, i + 1);
        }
        active_from(p, class_end(p, i + 1))
    } else {
        seq![p[i]] + active_from(p, i + 1)
    }
}

/// The number of groups that are open behind `s`.
pub open spec fn open_groups(s: Seq<char>) -> nat
    decreases s.len(),
{
    if s.len() == 0 {
        0
    } else {
        let before = open_groups(s.drop_last());
        if s.last() == '(' {
            before + 1
        } else if s.last() == ')' && before > 0 {
            (before - 1) as nat
        } else {
            before
        }
    }
}

/// Character `k` is a `|` outside every group.
pub open spec fn bar_at(s: Seq<char>, k: int) -> bool {
    0 <= k < s.len() && s[k] == '|' && open_groups(s.take(k)) == 0
}

/// The pattern has an alternation outside groups, classes and escapes.
pub open spec fn has_bar(p: Seq<char>) -> bool {
    exists|k: int| bar_at(active_from(p, 0), k)
}

fn active(p: &[char]) -> (r: Vec<char>)
    ensures
        r@ == active_from(p@, 0),
{
    let mut out: Vec<char> = Vec::new();
    let mut i: usize = 0;
    while i < p.len()
        invariant
            i <= p.len(),
            active_from(p@, 0) == out@ + active_from(p@, i as int),
        decreases p.len() - i,
    {
        let c = p[i];
        let ghost prev = out@;
        let ghost at = i as int;
        if c == '\\' {
            if p.len() - i > 1 {
                i += 2;
            } else {
                i += 1;
            }
        } else if c == '[' {
            i = find_class_end(p, i + 1);
        } else {
            out.push(c);
            i += 1;
        }
        proof {
            if c == '\\' {
                assert(active_from(p@, at + 2) =~= active_from(p@, i as int));
            }
            assert(prev + active_from(p@, at) =~= out@ + active_from(p@, i as int));
        }
    }
    proof {
        assert(out@ + active_from(p@, i as int) =~= out@);
    }
    out
}

/// Whether a regular expression has a `|` that stands in no group, no
/// character class and no escape.
///
/// Full-text search would take `TODO|FIXME` for a query for both words, so
/// such a pattern has to be run over every chunk.
pub fn regex_has_disjunctive_or(pattern: &str) -> (r: bool)
    ensures
        r == has_bar(pattern@),
{
    let s = active(chars_of(pattern).as_slice());
    let mut depth: usize = 0;
    let mut k: usize = 0;
    while k < s.len()
        invariant
            k <= s.len(),
            s@ == active_from(pattern@, 0),
            depth <= k,
            depth == open_groups(s@.take(k as int)),
            forall|j: int| 0 <= j < k ==> !bar_at(s@, j),
        decreases s.len() - k,
    {
        let c = s[k];
        proof {
            assert(s@.take(k + 1).drop_last() =~= s@.take(k as int));
        }
        if c == '(' {
            depth += 1;
        } else if c == ')' {
            if depth > 0 {
                depth -= 1;
            }
        } else if c == '|' {
            if depth == 0 {
                assert(bar_at(s@, k as int));
                return true;
            }
        }
        k += 1;
    }
    false
}

// ---------------------------------------------------------------------------
// Code-like queries
// ---------------------------------------------------------------------------

/// An angle or a square bracket.
pub open spec fn is_bracket(c: char) -> bool {
    c == '<' || c == '>' || c == '[' || c == ']'
}

/// The query holds an operator of two characters.
pub open spec fn has_long_operator(q: Seq<char>) -> bool {
    ||| text::has_text(q, "->"@)
    ||| text::has_text(q, "=>"@)
    ||| text::has_text(q, "::"@)
    ||| text::has_text(q, "!="@)
    ||| text::has_text(q, "=="@)
    ||| text::has_text(q, "<="@)
    ||| text::has_text(q, ">="@)
    ||| text::has_text(q, "&&"@)
    ||| text::has_text(q, "||"@)
    ||| text::has_text(q, "<<"@)
    ||| text::has_text(q, ">>"@)
}

/// The query holds `=`, `<` or `>` between spaces.
pub open spec fn has_spaced_operator(q: Seq<char>) -> bool {
    text::has_text(q, " = "@) || text::has_text(q, " < "@) || text::has_text(q, " > "@)
}

/// The query ends as a statement or the head of a block does.
pub open spec fn ends_statement(q: Seq<char>) -> bool {
    text::trimmed(q).len() > 0 && (text::trimmed(q).last() == ';' || text::trimmed(q).last() == '{')
}

/// The query holds two brackets or more.
pub open spec fn has_brackets(q: Seq<char>) -> bool {
    exists|i: int, j: int| 0 <= i < j < q.len() && is_bracket(q[i]) && is_bracket(q[j])
}

/// The query looks like code whose punctuation full-text search would lose.
pub open spec fn is_code_pattern(q: Seq<char>) -> bool {
    has_long_operator(q) || has_spaced_operator(q) || ends_statement(q) || has_brackets(q)
}

fn bracket(c: char) -> (r: bool)
    ensures
        r == is_bracket(c),
{
    c == '<' || c == '>' || c == '[' || c == ']'
}

fn two_brackets(q: &[char]) -> (r: bool)
    ensures
        r == has_brackets(q@),
{
    let mut first: Option<usize> = None;
    let mut i: usize = 0;
    while i < q.len()
        invariant
            i <= q.len(),
            match first {
                Some(f) => f < i && is_bracket(q@[f as int]) && forall|j: int|
                    0 <= j < i && j != f ==> !is_bracket(q@[j]),
                None => forall|j: int| 0 <= j < i ==> !is_bracket(q@[j]),
            },
        decreases q.len() - i,
    {
        if bracket(q[i]) {
            match first {
                Some(f) => {
                    return true;
                },
                None => {
                    first = Some(i);
                },
            }
        }
        i += 1;
    }
    false
}

fn holds(q: &[char], op: &str) -> (r: bool)
    ensures
        r == text::has_text(q@, op@),
{
    contains(q, chars_of(op).as_slice())
}

/// Whether a literal query looks like code: it holds an operator of two
/// characters, `=`, `<` or `>` between spaces, a closing `;` or `{`, or two
/// angle or square brackets.
pub fn looks_like_code_pattern(query: &str) -> (r: bool)
    ensures
        r == is_code_pattern(query@),
{
    let v = chars_of(query);
    let q = v.as_slice();
    if holds(q, "->") || holds(q, "=>") || holds(q, "::") || holds(q, "!=") || holds(q, "==")
        || holds(q, "<=") || holds(q, ">=") || holds(q, "&&") || holds(q, "||") || holds(q, "<<")
        || holds(q, ">>") {
        return true;
    }
    if holds(q, " = ") || holds(q, " < ") || holds(q, " > ") {
        return true;
    }
    let t = trim(q);
    if t.len() > 0 && (t[t.len() - 1] == ';' || t[t.len() - 1] == '{') {
        return true;
    }
    two_brackets(q)
}

/// Without escapes and classes each character of a pattern is a piece of its own.
proof fn lemma_plain_pieces(p: Seq<char>, i: int)
    requires
        0 <= i <= p.len(),
        !p.contains('\\'),
        !p.contains('['),
    ensures
        pieces_from(p, i).len() == p.len() - i,
        forall|k: int|
            0 <= k < p.len() - i ==> #[trigger] pieces_from(p, i)[k] == (if is_word(p[i + k]) {
                Piece::Word
            } else {
                Piece::Gap
            }),
        active_from(p, i) == p.skip(i),
    decreases p.len() - i,
{
    if i < p.len() {
        assert(p[i] != '\\' && p[i] != '[');
        lemma_plain_pieces(p, i + 1);
        let rest = pieces_from(p, i + 1);
        assert forall|k: int| 0 <= k < p.len() - i implies #[trigger] pieces_from(p, i)[k] == (
        if is_word(p[i + k]) {
            Piece::Word
        } else {
            Piece::Gap
        }) by {
            if k > 0 {
                assert(pieces_from(p, i)[k] == rest[k - 1]);
                assert(p[i + 1 + (k - 1)] == p[i + k]);
            }
        }
        assert(seq![p[i]] + p.skip(i + 1) =~= p.skip(i));
    } else {
        assert(p.skip(i) =~= Seq::empty());
    }
}

/// The first place of a run of words that reaches `a`.
proof fn lemma_run_start(p: Seq<char>, a: int) -> (r: int)
    requires
        0 <= a < p.len(),
        is_word(p[a]),
    ensures
        0 <= r <= a,
        forall|k: int| r <= k <= a ==> is_word(#[trigger] p[k]),
        r == 0 || !is_word(p[r - 1]),
    decreases a,
{
    if a == 0 || !is_word(p[a - 1]) {
        a
    } else {
        lemma_run_start(p, a - 1)
    }
}

/// The place behind a run of words from `a` on.
proof fn lemma_run_end(p: Seq<char>, a: int) -> (r: int)
    requires
        0 <= a < p.len(),
        is_word(p[a]),
    ensures
        a < r <= p.len(),
        forall|k: int| a <= k < r ==> is_word(#[trigger] p[k]),
        r == p.len() || !is_word(p[r]),
    decreases p.len() - a,
{
    if a + 1 == p.len() || !is_word(p[a + 1]) {
        a + 1
    } else {
        lemma_run_end(p, a + 1)
    }
}

/// A pattern without escapes and classes has a token exactly if three letters,
/// digits or underscores stand in a row in it.
pub proof fn law_token_of_plain_pattern(p: Seq<char>)
    requires
        !p.contains('\\'),
        !p.contains('['),
    ensures
        has_token(p) <==> exists|a: int|
            0 <= a && a + 3 <= p.len() && is_word(#[trigger] p[a]) && is_word(p[a + 1]) && is_word(
                p[a + 2],
            ),
{
    lemma_plain_pieces(p, 0);
    let q = pieces_from(p, 0);
    assert forall|k: int| 0 <= k < p.len() implies (#[trigger] q[k] == Piece::Word) == is_word(p[k])
        && (q[k] == Piece::Gap) == !is_word(p[k]) by {
        assert(p[0 + k] == p[k]);
    }
    if has_token(p) {
        let (a, b) = choose|a: int, b: int| token_at(q, a, b);
        assert(q[a] == Piece::Word && q[a + 1] == Piece::Word && q[a + 2] == Piece::Word);
        assert(is_word(p[a]) && is_word(p[a + 1]) && is_word(p[a + 2]));
    }
    if exists|a: int|
        0 <= a && a + 3 <= p.len() && is_word(#[trigger] p[a]) && is_word(p[a + 1]) && is_word(
            p[a + 2],
        ) {
        let m = choose|a: int|
            0 <= a && a + 3 <= p.len() && is_word(#[trigger] p[a]) && is_word(p[a + 1]) && is_word(
                p[a + 2],
            );
        let a = lemma_run_start(p, m);
        let b = lemma_run_end(p, m);
        if b == m + 1 {
            assert(is_word(p[b]));
            assert(false);
        }
        if b == m + 2 {
            assert(is_word(p[b]));
            assert(false);
        }
        assert forall|k: int| a <= k < b implies q[k] == Piece::Word by {
            assert(is_word(p[k]));
        }
        if a > 0 {
            assert(q[a - 1] == Piece::Gap);
        }
        if b < p.len() {
            assert(q[b] == Piece::Gap);
        }
        assert(token_at(q, a, b));
    }
}

proof fn lemma_class_end_shift(p: Seq<char>, d: int, i: int)
    requires
        0 <= d <= p.len(),
        0 <= i,
    ensures
        class_end(p, d + i) == d + class_end(p.skip(d), i),
    decreases p.len() - d - i,
{
    let q = p.skip(d);
    if i < q.len() {
        assert(q[i] == p[d + i]);
        if p[d + i] == '\\' && d + i + 1 < p.len() {
            lemma_class_end_shift(p, d, i + 2);
        } else if p[d + i] != ']' {
            lemma_class_end_shift(p, d, i + 1);
        }
    }
}

proof fn lemma_pieces_shift(p: Seq<char>, d: int, i: int)
    requires
        0 <= d <= p.len(),
        0 <= i,
    ensures
        pieces_from(p, d + i) == pieces_from(p.skip(d), i),
        active_from(p, d + i) == active_from(p.skip(d), i),
    decreases
            if d + i < p.len() {
                p.len() - d - i
            } else {
                0
            },
{
    let q = p.skip(d);
    if d + i < p.len() {
        assert(q[i] == p[d + i]);
        if p[d + i] == '\\' {
            lemma_pieces_shift(p, d, i + 2);
        } else if p[d + i] == '[' {
            lemma_class_end_shift(p, d, i + 1);
            lemma_class_end(q, i + 1);
            lemma_pieces_shift(p, d, class_end(q, i + 1));
        } else {
            lemma_pieces_shift(p, d, i + 1);
        }
    }
}

proof fn lemma_class_closes(p: Seq<char>, i: int, e: int)
    requires
        0 <= i <= e < p.len(),
        p[e] == ']',
        forall|k: int| i <= k < e ==> #[trigger] p[k] != ']' && p[k] != '\\',
    ensures
        class_end(p, i) == e + 1,
    decreases e - i,
{
    if i < e {
        lemma_class_closes(p, i + 1, e);
    }
}

/// An escape, and a class up to the bracket that closes it, is one piece that
/// makes no token with what stands beside it. What stands in it is neither a bar
/// nor a bracket of a group.
pub proof fn law_escapes_and_classes(c: char, class: Seq<char>, rest: Seq<char>)
    requires
        !class.contains(']'),
        !class.contains('\\'),
    ensures
        pieces_from(seq!['\\', c] + rest, 0) == seq![Piece::Merge] + pieces_from(rest, 0),
        pieces_from(seq!['['] + class + seq![']'] + rest, 0) == seq![Piece::Merge] + pieces_from(
            rest,
            0,
        ),
        active_from(seq!['\\', c] + rest, 0) == active_from(rest, 0),
        active_from(seq!['['] + class + seq![']'] + rest, 0) == active_from(rest, 0),
        c != '\\' && c != '[' ==> pieces_from(seq![c] + rest, 0) == seq![
            if is_word(c) {
                Piece::Word
            } else {
                Piece::Gap
            },
        ] + pieces_from(rest, 0),
        c != '\\' && c != '[' ==> active_from(seq![c] + rest, 0) == seq![c] + active_from(rest, 0),
{
    let p = seq!['\\', c] + rest;
    assert(p.skip(2) =~= rest);
    lemma_pieces_shift(p, 2, 0);
    let q = seq!['['] + class + seq![']'] + rest;
    let e = class.len() as int + 1;
    assert(q[0] == '[');
    assert(q[e] == ']');
    assert forall|k: int| 1 <= k < e implies #[trigger] q[k] != ']' && q[k] != '\\' by {
        assert(q[k] == class[k - 1]);
    }
    lemma_class_closes(q, 1, e);
    assert(q.skip(e + 1) =~= rest);
    lemma_pieces_shift(q, e + 1, 0);
    let s = seq![c] + rest;
    assert(s.skip(1) =~= rest);
    lemma_pieces_shift(s, 1, 0);
}

/// The groups that are open grow with each opening bracket and shrink with each
/// closing one, and no other character changes them.
pub proof fn law_open_groups(s: Seq<char>, c: char)
    ensures
        open_groups(Seq::empty()) == 0,
        open_groups(s.push('(')) == open_groups(s) + 1,
        open_groups(s) > 0 ==> open_groups(s.push(')')) == open_groups(s) - 1,
        open_groups(s) == 0 ==> open_groups(s.push(')')) == 0,
        c != '(' && c != ')' ==> open_groups(s.push(c)) == open_groups(s),
{
    assert(s.push('(').drop_last() =~= s);
    assert(s.push(')').drop_last() =~= s);
    assert(s.push(c).drop_last() =~= s);
}

proof fn lemma_no_groups(s: Seq<char>)
    requires
        !s.contains('('),
    ensures
        open_groups(s) == 0,
    decreases s.len(),
{
    if s.len() > 0 {
        let t = s.drop_last();
        assert(s[s.len() - 1] != '(');
        if t.contains('(') {
            let i = choose|i: int| 0 <= i < t.len() && t[i] == '(';
            assert(s[i] == '(');
        }
        lemma_no_groups(t);
    }
}

proof fn lemma_inside_group(s: Seq<char>)
    requires
        s.len() > 0,
        s[0] == '(',
        forall|i: int| 1 <= i < s.len() ==> #[trigger] s[i] != '(' && s[i] != ')',
    ensures
        open_groups(s) == 1,
    decreases s.len(),
{
    let t = s.drop_last();
    if t.len() > 0 {
        assert(t[0] == s[0]);
        assert forall|i: int| 1 <= i < t.len() implies #[trigger] t[i] != '(' && t[i] != ')' by {
            assert(t[i] == s[i]);
        }
        lemma_inside_group(t);
        assert(s.last() == s[s.len() - 1]);
    } else {
        assert(open_groups(t) == 0);
        assert(s.last() == '(');
    }
}

/// A pattern without escapes, classes and groups has alternatives exactly if it
/// has a bar. A bar within a group separates none.
pub proof fn law_bars(p: Seq<char>)
    requires
        !p.contains('\\'),
        !p.contains('['),
        !p.contains('('),
        !p.contains(')'),
    ensures
        has_bar(p) <==> p.contains('|'),
        !has_bar(seq!['('] + p + seq![')']),
{
    lemma_plain_pieces(p, 0);
    assert(p.skip(0) =~= p);
    if has_bar(p) {
        let k = choose|k: int| bar_at(active_from(p, 0), k);
        assert(p[k] == '|');
    }
    if p.contains('|') {
        let k = choose|k: int| 0 <= k < p.len() && p[k] == '|';
        if p.take(k).contains('(') {
            let i = choose|i: int| 0 <= i < p.take(k).len() && p.take(k)[i] == '(';
            assert(p[i] == '(');
        }
        lemma_no_groups(p.take(k));
        assert(bar_at(active_from(p, 0), k));
    }
    let g = seq!['('] + p + seq![')'];
    assert forall|i: int| 0 <= i < g.len() implies #[trigger] g[i] != '\\' && g[i] != '[' by {
        if 1 <= i <= p.len() {
            assert(g[i] == p[i - 1]);
            assert(p.contains(p[i - 1]));
        }
    }
    lemma_plain_pieces(g, 0);
    assert(g.skip(0) =~= g);
    if has_bar(g) {
        let k = choose|k: int| bar_at(active_from(g, 0), k);
        assert(g[k] == '|');
        let s = g.take(k);
        assert(s[0] == '(');
        assert forall|i: int| 1 <= i < s.len() implies #[trigger] s[i] != '(' && s[i] != ')' by {
            assert(s[i] == p[i - 1]);
            assert(p.contains(p[i - 1]));
        }
        lemma_inside_group(s);
        assert(false);
    }
}

/// A query with one of the operators of code in it, whatever stands around, looks
/// like code.
pub proof fn law_operators_are_code(before: Seq<char>, op: Seq<char>, behind: Seq<char>)
    requires
        op == "->"@ || op == "=>"@ || op == "::"@ || op == "!="@ || op == "=="@ || op == "<="@ || op
            == ">="@ || op == "&&"@ || op == "||"@ || op == "<<"@ || op == ">>"@ || op == " = "@ || op
            == " < "@ || op == " > "@,
    ensures
        is_code_pattern(before + op + behind),
{
    text::law_text_is_found(before, op, behind);
}

/// A query that ends like a statement or a block, but for white space, looks like
/// code, and so does one with two brackets.
pub proof fn law_statements_are_code(
    q: Seq<char>,
    space: Seq<char>,
    middle: Seq<char>,
    behind: Seq<char>,
    open: char,
    close: char,
)
    requires
        forall|i: int| 0 <= i < space.len() ==> text::is_space(space[i]),
        q.len() > 0,
        !text::is_space(q[0]),
        open == '<' || open == '>' || open == '[' || open == ']',
        close == '<' || close == '>' || close == '[' || close == ']',
    ensures
        q.last() == ';' ==> is_code_pattern(q + space),
        q.last() == '{' ==> is_code_pattern(q + space),
        is_code_pattern(q + seq![open] + middle + seq![close] + behind),
{
    let s = q + seq![open] + middle + seq![close] + behind;
    let i = q.len() as int;
    let j = q.len() as int + 1 + middle.len();
    assert(s[i] == open && s[j] == close);
    assert(is_bracket(s[i]) && is_bracket(s[j]));
    assert(has_brackets(s));
    if q.last() == ';' || q.last() == '{' {
        text::law_white_space(q.last());
        assert(Seq::<char>::empty() + q + space =~= q + space);
        text::law_trim(Seq::empty(), q, space);
    }
}

/// Words of letters and digits, with spaces between them, do not look like code.
pub proof fn law_words_are_no_code(q: Seq<char>)
    requires
        forall|i: int|
            0 <= i < q.len() ==> 'a' <= #[trigger] q[i] <= 'z' || 'A' <= q[i] <= 'Z' || '0' <= q[i]
                <= '9' || q[i] == ' ' || q[i] == '_',
    ensures
        !is_code_pattern(q),
{
    reveal_strlit("->");
    reveal_strlit("=>");
    reveal_strlit("::");
    reveal_strlit("!=");
    reveal_strlit("==");
    reveal_strlit("<=");
    reveal_strlit(">=");
    reveal_strlit("&&");
    reveal_strlit("||");
    reveal_strlit("<<");
    reveal_strlit(">>");
    reveal_strlit(" = ");
    reveal_strlit(" < ");
    reveal_strlit(" > ");
    lemma_absent(q, "->"@, 0);
    lemma_absent(q, "=>"@, 0);
    lemma_absent(q, "::"@, 0);
    lemma_absent(q, "!="@, 0);
    lemma_absent(q, "=="@, 0);
    lemma_absent(q, "<="@, 0);
    lemma_absent(q, ">="@, 0);
    lemma_absent(q, "&&"@, 0);
    lemma_absent(q, "||"@, 0);
    lemma_absent(q, "<<"@, 0);
    lemma_absent(q, ">>"@, 0);
    lemma_absent(q, " = "@, 1);
    lemma_absent(q, " < "@, 1);
    lemma_absent(q, " > "@, 1);
    if ends_statement(q) {
        let t = text::trimmed(q);
        lemma_trimmed_has(q);
        assert(q.contains(t.last()));
        assert(false);
    }
}

proof fn lemma_absent(q: Seq<char>, op: Seq<char>, k: int)
    requires
        0 <= k < op.len(),
        !q.contains(op[k]),
    ensures
        !text::has_text(q, op),
{
    if text::has_text(q, op) {
        text::law_found_text_is_there(q, op);
        let i = text::find_text(q, op)->0;
        assert((q.take(i) + op + q.skip(i + op.len()))[i + k] == op[k]);
        assert(q[i + k] == op[k]);
    }
}

/// The last character of a trimmed text is one of the text.
proof fn lemma_trimmed_has(q: Seq<char>)
    requires
        text::trimmed(q).len() > 0,
    ensures
        q.contains(text::trimmed(q).last()),
{
    let s = text::trimmed_start(q);
    lemma_trimmed_start_has(q);
    lemma_trimmed_end_has(s);
    let c = text::trimmed(q).last();
    let i = choose|i: int| 0 <= i < s.len() && s[i] == c;
    assert(q.contains(s[i]));
}

proof fn lemma_trimmed_start_has(q: Seq<char>)
    ensures
        forall|i: int|
            0 <= i < text::trimmed_start(q).len() ==> q.contains(
                #[trigger] text::trimmed_start(q)[i],
            ),
    decreases q.len(),
{
    if q.len() > 0 {
        let t = q.drop_first();
        lemma_trimmed_start_has(t);
        assert forall|i: int| 0 <= i < text::trimmed_start(q).len() implies q.contains(
            #[trigger] text::trimmed_start(q)[i],
        ) by {
            if text::is_space(q[0]) {
                let c = text::trimmed_start(t)[i];
                let j = choose|j: int| 0 <= j < t.len() && t[j] == c;
                assert(q[j + 1] == c);
            } else {
                assert(q[i] == text::trimmed_start(q)[i]);
            }
        }
    }
}

proof fn lemma_trimmed_end_has(q: Seq<char>)
    ensures
        text::trimmed_end(q).len() > 0 ==> q.contains(text::trimmed_end(q).last()),
    decreases q.len(),
{
    if q.len() > 0 {
        if text::is_space(q.last()) {
            let t = q.drop_last();
            lemma_trimmed_end_has(t);
            if text::trimmed_end(q).len() > 0 {
                let c = text::trimmed_end(t).last();
                let j = choose|j: int| 0 <= j < t.len() && t[j] == c;
                assert(q[j] == c);
            }
        } else {
            assert(q[q.len() - 1] == text::trimmed_end(q).last());
        }
    }
}

} // verus!
