//! What a query asks for: identifiers, kinds of code, and variants of it.
use vstd::prelude::*;

use crate::chars;
use crate::chars::{is_alphanumeric, is_lowercase, is_uppercase, to_lowercase};
use crate::sorting;
use crate::text;
use crate::text::{
    chars_of, concat, contains_char, has_bytes, owned, same, str_contains, str_eq, string_of,
    words, write_out,
};

verus! {

// ---------------------------------------------------------------------------
// Identifiers
// ---------------------------------------------------------------------------

/// Some character is an upper-case letter.
pub open spec fn any_upper(s: Seq<char>) -> bool {
    exists|i: int| 0 <= i < s.len() && chars::upper_case(#[trigger] s[i])
}

/// Some character is a lower-case letter.
pub open spec fn any_lower(s: Seq<char>) -> bool {
    exists|i: int| 0 <= i < s.len() && chars::lower_case(#[trigger] s[i])
}

/// A capitalised word that is no name.
pub open spec fn is_question_word(s: Seq<char>) -> bool {
    s == "Find"@ || s == "Show"@ || s == "Get"@ || s == "Where"@ || s == "How"@ || s == "What"@ || s
        == "All"@
}

/// A name such as `UserService`.
pub open spec fn is_pascal(s: Seq<char>) -> bool {
    s.len() > 0 && chars::upper_case(s[0]) && any_lower(s) && !is_question_word(s)
}

/// A name such as `handle_request`.
pub open spec fn is_snake(s: Seq<char>) -> bool {
    s.contains('_') && forall|i: int|
        0 <= i < s.len() ==> (chars::alphanumeric(#[trigger] s[i]) || s[i] == '_')
}

/// A name such as `userName`.
pub open spec fn is_camel(s: Seq<char>) -> bool {
    s.len() > 0 && chars::lower_case(s[0]) && any_upper(s)
}

/// A word that looks like a name in code.
pub open spec fn is_identifier(s: Seq<char>) -> bool {
    is_pascal(s) || is_snake(s) || is_camel(s)
}

/// Those of the words that look like names in code.
pub open spec fn identifiers_of(ws: Seq<Seq<char>>) -> Seq<Seq<char>>
    decreases ws.len(),
{
    if ws.len() == 0 {
        Seq::empty()
    } else {
        let before = identifiers_of(ws.drop_last());
        if is_identifier(ws.last()) {
            before.push(ws.last())
        } else {
            before
        }
    }
}

fn upper_in(s: &[char]) -> (r: bool)
    ensures
        r == any_upper(s@),
{
    let mut i: usize = 0;
    while i < s.len()
        invariant
            i <= s.len(),
            forall|j: int| 0 <= j < i ==> !chars::upper_case(#[trigger] s@[j]),
        decreases s.len() - i,
    {
        if is_uppercase(s[i]) {
            assert(chars::upper_case(s@[i as int]));
            return true;
        }
        i += 1;
    }
    false
}

fn lower_in(s: &[char]) -> (r: bool)
    ensures
        r == any_lower(s@),
{
    let mut i: usize = 0;
    while i < s.len()
        invariant
            i <= s.len(),
            forall|j: int| 0 <= j < i ==> !chars::lower_case(#[trigger] s@[j]),
        decreases s.len() - i,
    {
        if is_lowercase(s[i]) {
            assert(chars::lower_case(s@[i as int]));
            return true;
        }
        i += 1;
    }
    false
}

fn snake(s: &[char]) -> (r: bool)
    ensures
        r == is_snake(s@),
{
    if !contains_char(s, '_') {
        return false;
    }
    let mut i: usize = 0;
    while i < s.len()
        invariant
            i <= s.len(),
            forall|j: int|
                0 <= j < i ==> (chars::alphanumeric(#[trigger] s@[j]) || s@[j] == '_'),
        decreases s.len() - i,
    {
        if !is_alphanumeric(s[i]) && s[i] != '_' {
            return false;
        }
        i += 1;
    }
    true
}

fn question_word(s: &[char]) -> (r: bool)
    ensures
        r == is_question_word(s@),
{
    same(s, chars_of("Find").as_slice()) || same(s, chars_of("Show").as_slice()) || same(
        s,
        chars_of("Get").as_slice(),
    ) || same(s, chars_of("Where").as_slice()) || same(s, chars_of("How").as_slice()) || same(
        s,
        chars_of("What").as_slice(),
    ) || same(s, chars_of("All").as_slice())
}

fn identifier(s: &[char]) -> (r: bool)
    ensures
        r == is_identifier(s@),
{
    let pascal = s.len() > 0 && is_uppercase(s[0]) && lower_in(s) && !question_word(s);
    let camel = s.len() > 0 && is_lowercase(s[0]) && upper_in(s);
    pascal || snake(s) || camel
}

/// The words of a query that look like names in code: `PascalCase`,
/// `snake_case` or `camelCase`.
pub fn detect_identifiers(query: &str) -> (r: Vec<String>)
    ensures
        text::views(r@) == identifiers_of(text::words_of(query@)),
{
    let ws = words(chars_of(query).as_slice());
    let ghost all = text::words_of(query@);
    let mut out: Vec<String> = Vec::new();
    let mut i: usize = 0;
    proof {
        assert(text::views(out@) =~= identifiers_of(all.take(0)));
    }
    while i < ws.len()
        invariant
            i <= ws.len(),
            text::views(ws@) == all,
            text::views(out@) == identifiers_of(all.take(i as int)),
        decreases ws.len() - i,
    {
        let ghost before = text::views(out@);
        proof {
            assert(all.take(i + 1).drop_last() =~= all.take(i as int));
            assert(all.take(i + 1).last() == ws@[i as int]@);
        }
        if identifier(ws[i].as_slice()) {
            out.push(string_of(ws[i].as_slice()));
            proof {
                assert(text::views(out@) =~= before.push(ws@[i as int]@));
            }
        }
        i += 1;
    }
    proof {
        assert(all.take(all.len() as int) =~= all);
    }
    out
}

/// At character `i` an upper-case letter is followed by a lower-case letter or
/// a digit.
pub open spec fn pascal_at(s: Seq<char>, i: int) -> bool {
    0 <= i && i + 1 < s.len() && chars::upper_case(s[i]) && (chars::lower_case(
        s[i + 1],
    ) || ('0' <= s[i + 1] && s[i + 1] <= '9'))
}

/// Character `i` is an underscore between lower-case letters.
pub open spec fn snake_at(s: Seq<char>, i: int) -> bool {
    1 <= i && i + 1 < s.len() && s[i] == '_' && chars::lower_case(s[i - 1])
        && chars::lower_case(s[i + 1])
}

/// At character `i` a lower-case letter is followed by an upper-case one.
pub open spec fn camel_at(s: Seq<char>, i: int) -> bool {
    0 <= i && i + 1 < s.len() && chars::lower_case(s[i]) && chars::upper_case(
        s[i + 1],
    )
}

/// The query holds what looks like a specific name.
pub open spec fn names_something(s: Seq<char>) -> bool {
    exists|i: int| pascal_at(s, i) || snake_at(s, i) || camel_at(s, i)
}

/// Whether a query holds what looks like a specific name: an upper-case letter
/// before a lower-case letter or a digit, an underscore between lower-case
/// letters, or a lower-case letter before an upper-case one.
pub fn contains_identifier(query: &str) -> (r: bool)
    ensures
        r == names_something(query@),
{
    let s = chars_of(query);
    let mut i: usize = 0;
    while i < s.len()
        invariant
            i <= s.len(),
            s@ == query@,
            forall|j: int|
                0 <= j < i ==> !pascal_at(s@, j) && !snake_at(s@, j) && !camel_at(s@, j),
        decreases s.len() - i,
    {
        if s.len() - i > 1 {
            let c = s[i];
            let next = s[i + 1];
            let pascal = is_uppercase(c) && (is_lowercase(next) || (next >= '0' && next <= '9'));
            let snake = i > 0 && c == '_' && is_lowercase(s[i - 1]) && is_lowercase(next);
            let camel = is_lowercase(c) && is_uppercase(next);
            assert(pascal == pascal_at(s@, i as int));
            assert(snake == snake_at(s@, i as int));
            assert(camel == camel_at(s@, i as int));
            if pascal || snake || camel {
                return true;
            }
        }
        i += 1;
    }
    false
}

// ---------------------------------------------------------------------------
// Structural intent
// ---------------------------------------------------------------------------

/// The kinds of code that a query can ask for.
#[derive(Clone, Copy, PartialEq, Eq, Structural, Debug)]
pub enum ChunkKind {
    Class,
    Struct,
    Function,
    Method,
    Enum,
    Interface,
    Trait,
}

impl ChunkKind {
    /// The name of the kind.
    pub open spec fn spec_name(self) -> Seq<char> {
        match self {
            ChunkKind::Class => "Class"@,
            ChunkKind::Struct => "Struct"@,
            ChunkKind::Function => "Function"@,
            ChunkKind::Method => "Method"@,
            ChunkKind::Enum => "Enum"@,
            ChunkKind::Interface => "Interface"@,
            ChunkKind::Trait => "Trait"@,
        }
    }

    /// The name of the kind.
    pub fn name(self) -> (r: &'static str)
        ensures
            r@ == self.spec_name(),
    {
        match self {
            ChunkKind::Class => "Class",
            ChunkKind::Struct => "Struct",
            ChunkKind::Function => "Function",
            ChunkKind::Method => "Method",
            ChunkKind::Enum => "Enum",
            ChunkKind::Interface => "Interface",
            ChunkKind::Trait => "Trait",
        }
    }
}

/// The kind of code whose keyword, followed by a space, stands in the text.
pub open spec fn keyword_kind(lower: Seq<char>) -> Option<ChunkKind> {
    if text::has_text(lower, "class "@) {
        Some(ChunkKind::Class)
    } else if text::has_text(lower, "struct "@) {
        Some(ChunkKind::Struct)
    } else if text::has_text(lower, "function "@) || text::has_text(lower, "fn "@) {
        Some(ChunkKind::Function)
    } else if text::has_text(lower, "method "@) {
        Some(ChunkKind::Method)
    } else if text::has_text(lower, "enum "@) {
        Some(ChunkKind::Enum)
    } else if text::has_text(lower, "interface "@) {
        Some(ChunkKind::Interface)
    } else if text::has_text(lower, "trait "@) {
        Some(ChunkKind::Trait)
    } else {
        None
    }
}

/// The kind of code whose keyword, followed by a space, stands in a text in
/// lower case.
pub fn kind_of_keyword(lower: &str) -> (r: Option<ChunkKind>)
    ensures
        r == keyword_kind(lower@),
{
    if str_contains(lower, "class ") {
        Some(ChunkKind::Class)
    } else if str_contains(lower, "struct ") {
        Some(ChunkKind::Struct)
    } else if str_contains(lower, "function ") || str_contains(lower, "fn ") {
        Some(ChunkKind::Function)
    } else if str_contains(lower, "method ") {
        Some(ChunkKind::Method)
    } else if str_contains(lower, "enum ") {
        Some(ChunkKind::Enum)
    } else if str_contains(lower, "interface ") {
        Some(ChunkKind::Interface)
    } else if str_contains(lower, "trait ") {
        Some(ChunkKind::Trait)
    } else {
        None
    }
}

/// The kind of code that a query asks for.
pub open spec fn intent_of(query: Seq<char>) -> Option<ChunkKind> {
    if names_something(query) {
        keyword_kind(chars::in_lower_case(query))
    } else {
        None
    }
}

/// The kind of code that a query asks for: it has to name a keyword such as
/// `struct`, and to hold what looks like a specific name.
pub fn detect_structural_intent(query: &str) -> (r: Option<ChunkKind>)
    ensures
        r == intent_of(query@),
{
    if !contains_identifier(query) {
        return None;
    }
    let lower = to_lowercase(query);
    kind_of_keyword(lower.as_str())
}

/// The constants of the fusion for a query: for the vector results and for the
/// full-text results.
pub open spec fn rrf_constants(has_identifiers: bool, has_intent: bool) -> (u32, u32) {
    if has_identifiers {
        (12, 28)
    } else if has_intent {
        (15, 25)
    } else {
        (20, 20)
    }
}

/// The constants of the fusion for a query: for the vector results and for the
/// full-text results. A query with names trusts the vector results more.
pub fn adapt_rrf_k(query: &str) -> (r: (u32, u32))
    ensures
        r == rrf_constants(
            identifiers_of(text::words_of(query@)).len() > 0,
            intent_of(query@) is Some,
        ),
{
    let ids = detect_identifiers(query);
    assert(text::views(ids@).len() == ids@.len());
    let intent = detect_structural_intent(query);
    if ids.len() > 0 {
        (12, 28)
    } else if intent.is_some() {
        (15, 25)
    } else {
        (20, 20)
    }
}

// ---------------------------------------------------------------------------
// Variants of a query
// ---------------------------------------------------------------------------

/// The most variants of a query, with the query itself.
pub const MAX_TOTAL_VARIANTS: usize = 9;

/// The abbreviations and what they stand for.
pub open spec fn abbreviations() -> Seq<(Seq<char>, Seq<char>)> {
    seq![
        ("auth"@, "authentication"@),
        ("config"@, "configuration"@),
        ("db"@, "database"@),
        ("conn"@, "connection"@),
        ("err"@, "error"@),
        ("msg"@, "message"@),
    ]
}

/// The short form of the one query that is expanded to it.
pub open spec fn short_form(query: Seq<char>) -> Option<Seq<char>> {
    if query == "authentication"@ {
        Some("auth"@)
    } else {
        None
    }
}

/// The query has the shape of a function name.
pub open spec fn function_like(q: Seq<char>) -> bool {
    q.contains('_') && !q.contains(' ')
}

/// The query has the shape of a type name.
pub open spec fn type_like(q: Seq<char>) -> bool {
    q.len() > 0 && chars::upper_case(q[0]) && !q.contains(' ')
}

/// The query is a single lower-case word.
pub open spec fn concept_like(q: Seq<char>) -> bool {
    !q.contains('_') && !q.contains(' ') && q.len() > 0 && chars::lower_case(q[0])
}

/// The variants of a function name.
pub open spec fn function_variants(q: Seq<char>) -> Seq<Seq<char>> {
    if function_like(q) {
        seq!["fn "@ + q, "async fn "@ + q, "pub fn "@ + q, q + " method"@, "Function: "@ + q]
    } else {
        Seq::empty()
    }
}

/// The variants of a type name; the last two only where there are no others.
pub open spec fn type_variants(q: Seq<char>) -> Seq<Seq<char>> {
    if !type_like(q) {
        Seq::empty()
    } else if function_like(q) {
        seq!["struct "@ + q, "impl "@ + q, "enum "@ + q]
    } else {
        seq!["struct "@ + q, "impl "@ + q, "enum "@ + q, "class "@ + q, "Struct: "@ + q]
    }
}

/// The variants of a single word; the second only where there are no others.
pub open spec fn concept_variants(q: Seq<char>) -> Seq<Seq<char>> {
    if !concept_like(q) {
        Seq::empty()
    } else if function_like(q) || type_like(q) {
        seq!["fn "@ + q]
    } else {
        seq!["fn "@ + q, q + " function"@]
    }
}

/// The query with the first `n` abbreviations written out, one at a time; at
/// most two of them. Where the whole word stands already it is left as it is.
pub open spec fn abbreviation_variants(q: Seq<char>, n: int) -> Seq<Seq<char>>
    decreases n,
{
    if n <= 0 {
        Seq::empty()
    } else {
        let before = abbreviation_variants(q, n - 1);
        let (abbr, full) = abbreviations()[n - 1];
        if before.len() < 2 && text::has_text(q, abbr) && text::written_out(q, abbr, full) != q {
            before.push(text::written_out(q, abbr, full))
        } else {
            before
        }
    }
}

/// The query and its variants.
pub open spec fn variants_of(q: Seq<char>) -> Seq<Seq<char>> {
    if text::utf8_len(q) < 4 || text::utf8_len(q) > 50 {
        seq![q]
    } else if short_form(q) is Some {
        seq![q, short_form(q)->0]
    } else {
        let all = seq![q] + function_variants(q) + type_variants(q) + concept_variants(q)
            + abbreviation_variants(q, 6);
        if all.len() > MAX_TOTAL_VARIANTS {
            all.take(MAX_TOTAL_VARIANTS as int)
        } else {
            all
        }
    }
}

fn find_short_form(query: &str) -> (r: Option<&'static str>)
    ensures
        match r {
            Some(s) => short_form(query@) == Some(s@),
            None => short_form(query@) is None,
        },
{
    if str_eq(query, "authentication") {
        Some("auth")
    } else {
        None
    }
}

fn push_abbreviation(
    variants: &mut Vec<String>,
    count: usize,
    q: &[char],
    abbr: &str,
    full: &str,
) -> (r: usize)
    requires
        abbr@.len() > 0,
        full@.len() > 0,
        count <= 2,
    ensures
        ({
            let new = text::written_out(q@, abbr@, full@);
            if count < 2 && text::has_text(q@, abbr@) && new != q@ {
                r == count + 1 && text::views(final(variants)@) == text::views(
                    old(variants)@,
                ).push(new)
            } else {
                r == count && final(variants)@ == old(variants)@
            }
        }),
{
    if count >= 2 {
        return count;
    }
    let a = chars_of(abbr);
    if !text::contains(q, a.as_slice()) {
        return count;
    }
    let new = write_out(q, a.as_slice(), chars_of(full).as_slice());
    if same(new.as_slice(), q) {
        return count;
    }
    let ghost before = text::views(variants@);
    variants.push(string_of(new.as_slice()));
    proof {
        assert(text::views(variants@) =~= before.push(new@));
    }
    count + 1
}

fn push_variant(variants: &mut Vec<String>, v: String)
    ensures
        text::views(final(variants)@) == text::views(old(variants)@).push(v@),
{
    let ghost before = text::views(variants@);
    variants.push(v);
    proof {
        assert(text::views(variants@) =~= before.push(v@));
    }
}

/// The query and variants of it that match code better.
///
/// - `handle_file` also as `fn handle_file`, `async fn handle_file` and so on
/// - `UserService` also as `struct UserService`, `impl UserService` and so on
/// - `authentication` also as `auth`
///
/// A query of fewer than 4 or more than 50 bytes has no variants.
pub fn expand_query(query: &str) -> (r: Vec<String>)
    ensures
        text::views(r@) == variants_of(query@),
{
    let q = chars_of(query);
    let qs = q.as_slice();
    let mut variants: Vec<String> = Vec::new();
    proof {
        assert(text::views(variants@) =~= Seq::empty());
    }
    push_variant(&mut variants, owned(query));
    proof {
        assert(text::views(variants@) =~= seq![query@]);
    }
    if !has_bytes(qs, 4) || has_bytes(qs, 51) {
        return variants;
    }
    match find_short_form(query) {
        Some(s) => {
            push_variant(&mut variants, owned(s));
            proof {
                assert(text::views(variants@) =~= seq![query@, s@]);
            }
            return variants;
        },
        None => {},
    }
    let underscore = contains_char(qs, '_');
    let space = contains_char(qs, ' ');
    let function = underscore && !space;
    let kind = qs.len() > 0 && is_uppercase(qs[0]) && !space;
    let concept = !underscore && !space && qs.len() > 0 && is_lowercase(qs[0]);
    if function {
        push_variant(&mut variants, concat("fn ", query));
        push_variant(&mut variants, concat("async fn ", query));
        push_variant(&mut variants, concat("pub fn ", query));
        push_variant(&mut variants, concat(query, " method"));
        push_variant(&mut variants, concat("Function: ", query));
    }
    proof {
        assert(text::views(variants@) =~= seq![query@] + function_variants(query@));
    }
    if kind {
        push_variant(&mut variants, concat("struct ", query));
        push_variant(&mut variants, concat("impl ", query));
        push_variant(&mut variants, concat("enum ", query));
        if !function {
            push_variant(&mut variants, concat("class ", query));
            push_variant(&mut variants, concat("Struct: ", query));
        }
    }
    proof {
        assert(text::views(variants@) =~= seq![query@] + function_variants(query@) + type_variants(
            query@,
        ));
    }
    if concept {
        push_variant(&mut variants, concat("fn ", query));
        if !function && !kind {
            push_variant(&mut variants, concat(query, " function"));
        }
    }
    let ghost base = seq![query@] + function_variants(query@) + type_variants(query@)
        + concept_variants(query@);
    proof {
        assert(text::views(variants@) =~= base);
        reveal_strlit("auth");
        reveal_strlit("config");
        reveal_strlit("db");
        reveal_strlit("conn");
        reveal_strlit("err");
        reveal_strlit("msg");
        reveal_strlit("authentication");
        reveal_strlit("configuration");
        reveal_strlit("database");
        reveal_strlit("connection");
        reveal_strlit("error");
        reveal_strlit("message");
        assert(base + abbreviation_variants(query@, 0) =~= base);
    }
    let n0: usize = push_abbreviation(&mut variants, 0, qs, "auth", "authentication");
    proof {
        assert(text::views(variants@) =~= base + abbreviation_variants(query@, 1));
    }
    let n1: usize = push_abbreviation(&mut variants, n0, qs, "config", "configuration");
    proof {
        assert(text::views(variants@) =~= base + abbreviation_variants(query@, 2));
    }
    let n2: usize = push_abbreviation(&mut variants, n1, qs, "db", "database");
    proof {
        assert(text::views(variants@) =~= base + abbreviation_variants(query@, 3));
    }
    let n3: usize = push_abbreviation(&mut variants, n2, qs, "conn", "connection");
    proof {
        assert(text::views(variants@) =~= base + abbreviation_variants(query@, 4));
    }
    let n4: usize = push_abbreviation(&mut variants, n3, qs, "err", "error");
    proof {
        assert(text::views(variants@) =~= base + abbreviation_variants(query@, 5));
    }
    let n5: usize = push_abbreviation(&mut variants, n4, qs, "msg", "message");
    proof {
        assert(text::views(variants@) =~= base + abbreviation_variants(query@, 6));
    }
    if variants.len() > MAX_TOTAL_VARIANTS {
        let ghost all = text::views(variants@);
        variants.truncate(MAX_TOTAL_VARIANTS);
        proof {
            assert(text::views(variants@) =~= all.take(MAX_TOTAL_VARIANTS as int));
        }
    }
    variants
}

/// The query itself always comes first, and there are never more than nine.
pub proof fn law_query_comes_first(q: Seq<char>)
    ensures
        variants_of(q).len() >= 1,
        variants_of(q)[0] == q,
        variants_of(q).len() <= MAX_TOTAL_VARIANTS,
{
}

/// The names in a query are those of its words that look like names, each at its
/// place.
pub proof fn law_identifiers_select(words: Seq<Seq<char>>) -> (places: Seq<int>)
    ensures
        sorting::selects(places, words.len() as int, |i: int| is_identifier(words[i])),
        identifiers_of(words).len() == places.len(),
        forall|k: int|
            0 <= k < places.len() ==> #[trigger] identifiers_of(words)[k] == words[places[k]],
    decreases words.len(),
{
    if words.len() == 0 {
        Seq::empty()
    } else {
        let front = words.drop_last();
        let before = law_identifiers_select(front);
        let first = identifiers_of(front);
        let all = identifiers_of(words);
        let places = sorting::lemma_selects_step(
            before,
            words.len() - 1,
            |i: int| is_identifier(front[i]),
            |i: int| is_identifier(words[i]),
        );
        assert forall|k: int| 0 <= k < places.len() implies #[trigger] all[k] == words[places[k]] by {
            if k < before.len() {
                assert(all[k] == first[k]);
            }
        }
        places
    }
}

/// A word looks like a name where it begins with an upper-case letter and holds a
/// lower-case one, where it has letters, digits and an underscore, or where it
/// begins with a lower-case letter and holds an upper-case one. A plain word in
/// lower case does not, nor does one with which a question begins.
pub proof fn law_shapes_of_names(s: Seq<char>, i: int, j: int)
    requires
        0 <= i < s.len(),
        0 <= j < s.len(),
    ensures
        chars::upper_case(s[0]) && chars::lower_case(s[i]) && s != "Find"@ && s != "Show"@ && s
            != "Get"@ && s != "Where"@ && s != "How"@ && s != "What"@ && s != "All"@
            ==> is_identifier(s),
        s[i] == '_' && (forall|k: int|
            0 <= k < s.len() ==> chars::alphanumeric(#[trigger] s[k]) || s[k] == '_')
            ==> is_identifier(s),
        chars::lower_case(s[0]) && chars::upper_case(s[i]) ==> is_identifier(s),
        (forall|k: int| 0 <= k < s.len() ==> 'a' <= #[trigger] s[k] <= 'z') ==> !is_identifier(s),
        s == "Find"@ || s == "Show"@ || s == "Get"@ || s == "Where"@ || s == "How"@ || s == "What"@
            || s == "All"@ ==> !is_identifier(s),
{
    if s[i] == '_' {
        assert(s.contains('_'));
    }
    if forall|k: int| 0 <= k < s.len() ==> 'a' <= #[trigger] s[k] <= 'z' {
        assert('a' <= s[0] <= 'z');
        if s.contains('_') {
            let k = choose|k: int| 0 <= k < s.len() && s[k] == '_';
            assert('a' <= s[k] <= 'z');
        }
        if any_upper(s) {
            let k = choose|k: int| 0 <= k < s.len() && chars::upper_case(#[trigger] s[k]);
            assert('a' <= s[k] <= 'z');
        }
    }
    if s == "Find"@ || s == "Show"@ || s == "Get"@ || s == "Where"@ || s == "How"@ || s == "What"@ || s
        == "All"@ {
        reveal_strlit("Find");
        reveal_strlit("Show");
        reveal_strlit("Get");
        reveal_strlit("Where");
        reveal_strlit("How");
        reveal_strlit("What");
        reveal_strlit("All");
        assert('A' <= s[0] <= 'Z');
        assert(forall|k: int| 0 <= k < s.len() ==> #[trigger] s[k] != '_');
    }
}

/// A query names something where an upper-case letter stands before a lower-case
/// one or a digit, an underscore between lower-case letters, or a lower-case
/// letter before an upper-case one. A text in lower case without underscores
/// names nothing.
pub proof fn law_something_is_named(before: Seq<char>, a: char, b: char, c: char, behind: Seq<char>)
    ensures
        chars::upper_case(a) && chars::lower_case(b) ==> names_something(
            before + seq![a, b] + behind,
        ),
        chars::upper_case(a) && '0' <= b <= '9' ==> names_something(before + seq![a, b] + behind),
        chars::lower_case(a) && chars::upper_case(b) ==> names_something(
            before + seq![a, b] + behind,
        ),
        chars::lower_case(a) && b == '_' && chars::lower_case(c) ==> names_something(
            before + seq![a, b, c] + behind,
        ),
        (forall|k: int|
            0 <= k < before.len() ==> 'a' <= #[trigger] before[k] <= 'z' || before[k] == ' ')
            ==> !names_something(before),
{
    let n = before.len() as int;
    let two = before + seq![a, b] + behind;
    let three = before + seq![a, b, c] + behind;
    assert(two[n] == a && two[n + 1] == b);
    assert(three[n] == a && three[n + 1] == b && three[n + 2] == c);
    assert(pascal_at(two, n) || !(chars::upper_case(a) && (chars::lower_case(b) || '0' <= b <= '9')));
    assert(camel_at(two, n) || !(chars::lower_case(a) && chars::upper_case(b)));
    assert(snake_at(three, n + 1) || !(chars::lower_case(a) && b == '_' && chars::lower_case(c)));
    if (forall|k: int|
        0 <= k < before.len() ==> 'a' <= #[trigger] before[k] <= 'z' || before[k] == ' ')
        && names_something(before) {
        let i = choose|i: int|
            pascal_at(before, i) || snake_at(before, i) || camel_at(before, i);
        assert('a' <= before[i] <= 'z' || before[i] == ' ');
        assert('a' <= before[i + 1] <= 'z' || before[i + 1] == ' ');
    }
}

/// A query asks for a kind of code by its keyword with a space behind it: first
/// for classes, then structs, functions, methods, enums, interfaces and traits.
/// It asks for none without such a keyword, or where it names nothing.
pub proof fn law_kind_that_is_asked_for(query: Seq<char>)
    ensures
        ({
            let lower = chars::in_lower_case(query);
            let class = text::has_text(lower, "class "@);
            let structs = text::has_text(lower, "struct "@);
            let functions = text::has_text(lower, "function "@) || text::has_text(lower, "fn "@);
            let method = text::has_text(lower, "method "@);
            let enums = text::has_text(lower, "enum "@);
            let interface = text::has_text(lower, "interface "@);
            let traits = text::has_text(lower, "trait "@);
            &&& !names_something(query) ==> intent_of(query) is None
            &&& names_something(query) && class ==> intent_of(query) == Some(ChunkKind::Class)
            &&& names_something(query) && !class && structs ==> intent_of(query) == Some(
                ChunkKind::Struct,
            )
            &&& names_something(query) && !class && !structs && functions ==> intent_of(query)
                == Some(ChunkKind::Function)
            &&& names_something(query) && !class && !structs && !functions && method ==> intent_of(
                query,
            ) == Some(ChunkKind::Method)
            &&& names_something(query) && !class && !structs && !functions && !method && enums
                ==> intent_of(query) == Some(ChunkKind::Enum)
            &&& names_something(query) && !class && !structs && !functions && !method && !enums
                && interface ==> intent_of(query) == Some(ChunkKind::Interface)
            &&& names_something(query) && !class && !structs && !functions && !method && !enums
                && !interface && traits ==> intent_of(query) == Some(ChunkKind::Trait)
            &&& !class && !structs && !functions && !method && !enums && !interface && !traits
                ==> intent_of(query) is None
        }),
{
}

/// Each kind of code has its own name.
pub proof fn law_names_of_kinds()
    ensures
        ChunkKind::Class.spec_name() == "Class"@,
        ChunkKind::Struct.spec_name() == "Struct"@,
        ChunkKind::Function.spec_name() == "Function"@,
        ChunkKind::Method.spec_name() == "Method"@,
        ChunkKind::Enum.spec_name() == "Enum"@,
        ChunkKind::Interface.spec_name() == "Interface"@,
        ChunkKind::Trait.spec_name() == "Trait"@,
{
}

/// A query with names trusts the vector results more, one that asks for a kind a
/// little more, and any other both alike.
pub proof fn law_fusion_constants(has_intent: bool)
    ensures
        rrf_constants(true, has_intent) == (12u32, 28u32),
        rrf_constants(false, true) == (15u32, 25u32),
        rrf_constants(false, false) == (20u32, 20u32),
{
}

/// A query of fewer than four bytes or more than fifty stays alone.
pub proof fn law_no_variants(q: Seq<char>)
    requires
        text::utf8_len(q) < 4 || text::utf8_len(q) > 50,
    ensures
        variants_of(q) == seq![q],
{
}

/// The query `authentication` has the variant `auth`, and no other.
pub proof fn law_authentication()
    ensures
        variants_of("authentication"@) == seq!["authentication"@, "auth"@],
{
    reveal_strlit("authentication");
    let q = "authentication"@;
    assert(q.len() == 14);
    lemma_ascii_bytes(q);
}

proof fn lemma_ascii_bytes(q: Seq<char>)
    requires
        forall|i: int| 0 <= i < q.len() ==> (#[trigger] q[i] as u32) < 0x80,
    ensures
        text::utf8_len(q) == q.len(),
    decreases q.len(),
{
    if q.len() > 0 {
        let t = q.drop_last();
        assert forall|i: int| 0 <= i < t.len() implies (#[trigger] t[i] as u32) < 0x80 by {
            assert(t[i] == q[i]);
        }
        lemma_ascii_bytes(t);
    }
}

/// The name of a function is also looked for as its declaration, public,
/// asynchronous or plain, and as a method.
pub proof fn law_variants_of_a_function(q: Seq<char>)
    requires
        4 <= text::utf8_len(q) <= 50,
        q.contains('_'),
        !q.contains(' '),
        q != "authentication"@,
    ensures
        variants_of(q).len() >= 6,
        variants_of(q)[0] == q,
        variants_of(q)[1] == "fn "@ + q,
        variants_of(q)[2] == "async fn "@ + q,
        variants_of(q)[3] == "pub fn "@ + q,
        variants_of(q)[4] == q + " method"@,
        variants_of(q)[5] == "Function: "@ + q,
{
}

/// The name of a type is also looked for as a struct, an implementation, an enum
/// and a class.
pub proof fn law_variants_of_a_type(q: Seq<char>)
    requires
        4 <= text::utf8_len(q) <= 50,
        q.len() > 0,
        chars::upper_case(q[0]),
        !q.contains('_'),
        !q.contains(' '),
        q != "authentication"@,
    ensures
        variants_of(q).len() >= 6,
        variants_of(q)[0] == q,
        variants_of(q)[1] == "struct "@ + q,
        variants_of(q)[2] == "impl "@ + q,
        variants_of(q)[3] == "enum "@ + q,
        variants_of(q)[4] == "class "@ + q,
        variants_of(q)[5] == "Struct: "@ + q,
{
}

/// A plain word in lower case is also looked for as a function.
pub proof fn law_variants_of_a_word(q: Seq<char>)
    requires
        4 <= text::utf8_len(q) <= 50,
        q.len() > 0,
        chars::lower_case(q[0]),
        !chars::upper_case(q[0]),
        !q.contains('_'),
        !q.contains(' '),
        q != "authentication"@,
    ensures
        variants_of(q).len() >= 3,
        variants_of(q)[0] == q,
        variants_of(q)[1] == "fn "@ + q,
        variants_of(q)[2] == q + " function"@,
{
}

/// A query of several words has no variants but for abbreviations that are
/// written out, each by itself, and no more than two.
pub proof fn law_variants_of_a_sentence(q: Seq<char>, k: int)
    requires
        4 <= text::utf8_len(q) <= 50,
        q.contains(' '),
        q != "authentication"@,
    ensures
        variants_of(q).len() <= 3,
        0 < k < variants_of(q).len() ==> {
            let v = variants_of(q)[k];
            ||| v == text::written_out(q, "auth"@, "authentication"@)
            ||| v == text::written_out(q, "config"@, "configuration"@)
            ||| v == text::written_out(q, "db"@, "database"@)
            ||| v == text::written_out(q, "conn"@, "connection"@)
            ||| v == text::written_out(q, "err"@, "error"@)
            ||| v == text::written_out(q, "msg"@, "message"@)
        },
        0 < k < variants_of(q).len() ==> variants_of(q)[k] != q,
{
    lemma_abbreviation_variants(q, 6, k - 1);
    assert(abbreviation_variants(q, 6).len() <= 2);
    let all = seq![q] + function_variants(q) + type_variants(q) + concept_variants(q)
        + abbreviation_variants(q, 6);
    assert(all =~= seq![q] + abbreviation_variants(q, 6));
    if 0 < k < variants_of(q).len() {
        assert(variants_of(q)[k] == abbreviation_variants(q, 6)[k - 1]);
        let m = choose|m: int|
            0 <= m < 6 && abbreviation_variants(q, 6)[k - 1] == text::written_out(
                q,
                (#[trigger] abbreviations()[m]).0,
                abbreviations()[m].1,
            );
        assert(m == 0 || m == 1 || m == 2 || m == 3 || m == 4 || m == 5);
    }
}

proof fn lemma_abbreviation_variants(q: Seq<char>, n: int, k: int)
    requires
        0 <= n <= 6,
    ensures
        abbreviation_variants(q, n).len() <= 2,
        0 <= k < abbreviation_variants(q, n).len() ==> abbreviation_variants(q, n)[k] != q
            && exists|m: int|
            0 <= m < n && abbreviation_variants(q, n)[k] == text::written_out(
                q,
                (#[trigger] abbreviations()[m]).0,
                abbreviations()[m].1,
            ),
    decreases n,
{
    if n > 0 {
        lemma_abbreviation_variants(q, n - 1, k);
        let before = abbreviation_variants(q, n - 1);
        let all = abbreviation_variants(q, n);
        if 0 <= k < all.len() {
            if k < before.len() {
                assert(all[k] == before[k]);
                let m = choose|m: int|
                    0 <= m < n - 1 && before[k] == text::written_out(
                        q,
                        (#[trigger] abbreviations()[m]).0,
                        abbreviations()[m].1,
                    );
                assert(all[k] == text::written_out(q, abbreviations()[m].0, abbreviations()[m].1));
            } else {
                assert(all[k] == text::written_out(
                    q,
                    abbreviations()[n - 1].0,
                    abbreviations()[n - 1].1,
                ));
            }
        }
    }
}

/// The first abbreviation of a sentence that can be written out is.
pub proof fn law_first_abbreviation_is_written_out(q: Seq<char>, m: int)
    requires
        4 <= text::utf8_len(q) <= 50,
        q.contains(' '),
        q != "authentication"@,
        0 <= m < 6,
        abbreviations().len() == 6,
        text::has_text(q, abbreviations()[m].0),
        text::written_out(q, abbreviations()[m].0, abbreviations()[m].1) != q,
        forall|j: int|
            0 <= j < m ==> !text::has_text(q, (#[trigger] abbreviations()[j]).0)
                || text::written_out(q, abbreviations()[j].0, abbreviations()[j].1) == q,
    ensures
        variants_of(q).len() >= 2,
        variants_of(q)[1] == text::written_out(q, abbreviations()[m].0, abbreviations()[m].1),
{
    lemma_no_abbreviation(q, m);
    lemma_abbreviations_grow(q, m + 1, 6);
    lemma_abbreviation_variants(q, 6, 0);
    let all = seq![q] + function_variants(q) + type_variants(q) + concept_variants(q)
        + abbreviation_variants(q, 6);
    assert(all =~= seq![q] + abbreviation_variants(q, 6));
    assert(abbreviation_variants(q, m + 1)[0] == text::written_out(
        q,
        abbreviations()[m].0,
        abbreviations()[m].1,
    ));
}

proof fn lemma_no_abbreviation(q: Seq<char>, n: int)
    requires
        0 <= n <= 6,
        forall|j: int|
            0 <= j < n ==> !text::has_text(q, (#[trigger] abbreviations()[j]).0)
                || text::written_out(q, abbreviations()[j].0, abbreviations()[j].1) == q,
    ensures
        abbreviation_variants(q, n).len() == 0,
    decreases n,
{
    if n > 0 {
        lemma_no_abbreviation(q, n - 1);
        assert(!text::has_text(q, abbreviations()[n - 1].0) || text::written_out(
            q,
            abbreviations()[n - 1].0,
            abbreviations()[n - 1].1,
        ) == q);
    }
}

proof fn lemma_abbreviations_grow(q: Seq<char>, a: int, b: int)
    requires
        0 <= a <= b,
    ensures
        abbreviation_variants(q, a).len() <= abbreviation_variants(q, b).len(),
        forall|k: int|
            0 <= k < abbreviation_variants(q, a).len() ==> #[trigger] abbreviation_variants(q, a)[k]
                == abbreviation_variants(q, b)[k],
    decreases b - a,
{
    if a < b {
        lemma_abbreviations_grow(q, a, b - 1);
        assert forall|k: int| 0 <= k < abbreviation_variants(q, a).len() implies
            #[trigger] abbreviation_variants(q, a)[k] == abbreviation_variants(q, b)[k] by {
            assert(abbreviation_variants(q, a)[k] == abbreviation_variants(q, b - 1)[k]);
        }
    }
}

/// The abbreviations that are known.
pub proof fn law_abbreviations()
    ensures
        abbreviations() == seq![
            ("auth"@, "authentication"@),
            ("config"@, "configuration"@),
            ("db"@, "database"@),
            ("conn"@, "connection"@),
            ("err"@, "error"@),
            ("msg"@, "message"@),
        ],
        MAX_TOTAL_VARIANTS == 9,
{
}

/// The operation itself: a word that looks like a name is detected, and nothing
/// else is.
pub proof fn law_detected_names(query: &str, r: Vec<String>, i: int)
    requires
        call_ensures(detect_identifiers, (query,), r),
    ensures
        0 <= i < text::words_of(query@).len() && is_identifier(text::words_of(query@)[i])
            ==> text::views(r@).contains(text::words_of(query@)[i]),
        0 <= i < r@.len() ==> is_identifier(r@[i]@) && text::words_of(query@).contains(r@[i]@),
{
    let words = text::words_of(query@);
    let places = law_identifiers_select(words);
    let wanted = |i: int| is_identifier(words[i]);
    let all = text::views(r@);
    if 0 <= i < words.len() && is_identifier(words[i]) {
        assert(wanted(i));
        assert(places.contains(i));
        let k = choose|k: int| 0 <= k < places.len() && places[k] == i;
        assert(all[k] == words[places[k]]);
    }
    if 0 <= i < r@.len() {
        assert(all.len() == r@.len());
        assert(all[i] == r@[i]@);
        assert(identifiers_of(words)[i] == words[places[i]]);
        assert(wanted(places[i]));
    }
}

} // verus!
