//! Literal search: snippets, filters, the order of the matches, and how sure
//! the search is of them.
use vstd::prelude::*;
use vstd::slice::slice_subrange;

use crate::glob;
use crate::glob::simple_glob_match;
use crate::numbers;
use crate::numbers::to_decimal;
use crate::paths;
use crate::paths::relative_path;
use crate::pattern;
use crate::pattern::{looks_like_code_pattern, regex_has_anchorable_token, regex_has_disjunctive_or};
use crate::regexes;
use crate::regexes::{compile, escape, match_start};
use crate::routing::MultiStoreContext;
use crate::score::Score;
use crate::sorting;
use crate::text;
use crate::text::{
    chars_before_byte, chars_of, concat, find, lines, owned, str_eq, string_of, words,
};
use crate::types;
use crate::types::{
    Candidate, ChunkMeta, LiteralSearchRequest, LiteralSearchResponse, LiteralSearchResultItem,
};

verus! {

/// The longest snippet, in characters.
pub const SNIPPET_CHARS: usize = 200;

// ---------------------------------------------------------------------------
// Snippets
// ---------------------------------------------------------------------------

/// Where a window of `max` of `n` characters begins that has character `at` in
/// its middle, as far as the ends allow.
pub open spec fn window_start(n: int, at: int, max: int) -> int {
    let wanted = if at > max / 2 {
        at - max / 2
    } else {
        0
    };
    if wanted > n - max {
        n - max
    } else {
        wanted
    }
}

/// The line, or the window of `max` of its characters around character `at`.
pub open spec fn windowed(line: Seq<char>, at: int, max: int) -> Seq<char> {
    if line.len() <= max {
        line
    } else {
        line.subrange(
            window_start(line.len() as int, at, max),
            window_start(line.len() as int, at, max) + max,
        )
    }
}

fn window(line: &[char], at: usize, max: usize) -> (r: String)
    requires
        at <= line.len(),
    ensures
        r@ == windowed(line@, at as int, max as int),
{
    if line.len() <= max {
        return string_of(line);
    }
    let half: usize = max / 2;
    let wanted: usize = if at > half {
        at - half
    } else {
        0
    };
    let start: usize = if wanted > line.len() - max {
        line.len() - max
    } else {
        wanted
    };
    string_of(slice_subrange(line, start, start + max))
}

/// The line, cut to `max_chars` characters around the match that begins at a
/// byte of it.
pub fn truncate_line_around_match(line: &str, match_start_byte: usize, max_chars: usize) -> (r:
    String)
    requires
        line@.len() > max_chars ==> match_start_byte >= text::utf8_len(line@) || text::at_boundary(
            line@,
            match_start_byte as int,
        ),
    ensures
        r@ == windowed(
            line@,
            text::chars_before(line@, match_start_byte as int) as int,
            max_chars as int,
        ),
{
    let v = chars_of(line);
    let at = chars_before_byte(v.as_slice(), match_start_byte);
    window(v.as_slice(), at, max_chars)
}

/// A snippet holds no more than the characters asked for, and it holds the
/// place of the match.
pub proof fn law_snippet_holds_match(line: Seq<char>, at: int, max: int)
    requires
        0 <= at < line.len(),
        0 < max,
    ensures
        windowed(line, at, max).len() <= max,
        windowed(line, at, max).contains(line[at]),
        line.len() > max ==> windowed(line, at, max).len() == max && {
            let s = window_start(line.len() as int, at, max);
            0 <= s <= at < s + max <= line.len()
        },
{
    if line.len() > max {
        let s = window_start(line.len() as int, at, max);
        assert(s <= at < s + max);
        assert(windowed(line, at, max)[at - s] == line[at]);
    } else {
        assert(line.contains(line[at]));
    }
}

// ---------------------------------------------------------------------------
// Matching lines
// ---------------------------------------------------------------------------

/// The character at which a line matches: the first match of the regular
/// expression, or the first place of the query without one.
pub open spec fn line_match(
    line: Seq<char>,
    query: Seq<char>,
    re: Option<regex::Regex>,
) -> Option<int> {
    match re {
        Some(re) => match regexes::regex_match_start(re, line) {
            Some(b) => Some(text::chars_before(line, b as int) as int),
            None => None,
        },
        None => text::find_text(line, query),
    }
}

/// The first line, from the `i`th on, that matches, and where it does.
pub open spec fn first_match_from(
    all: Seq<Seq<char>>,
    query: Seq<char>,
    re: Option<regex::Regex>,
    i: int,
) -> Option<(int, int)>
    decreases all.len() - i,
{
    if i < 0 || i >= all.len() {
        None
    } else {
        match line_match(all[i], query, re) {
            Some(at) => Some((i, at)),
            None => first_match_from(all, query, re, i + 1),
        }
    }
}

/// The number of the first line that matches, counted from 0, and its snippet.
pub open spec fn content_match(
    content: Seq<char>,
    query: Seq<char>,
    re: Option<regex::Regex>,
) -> Option<(int, Seq<char>)> {
    if query.len() == 0 {
        None
    } else {
        match first_match_from(text::text_lines(content), query, re, 0) {
            Some((i, at)) => Some(
                (i, windowed(text::text_lines(content)[i], at, SNIPPET_CHARS as int)),
            ),
            None => None,
        }
    }
}

/// A compiled expression without the reference.
pub open spec fn regex_value(re: Option<&regex::Regex>) -> Option<regex::Regex> {
    match re {
        Some(r) => Some(*r),
        None => None,
    }
}

fn match_in_line(line: &[char], query: &[char], re: Option<&regex::Regex>) -> (r: Option<usize>)
    ensures
        match r {
            Some(at) => line_match(line@, query@, regex_value(re)) == Some(at as int) && at
                <= line.len(),
            None => line_match(line@, query@, regex_value(re)) is None,
        },
{
    match re {
        Some(re) => {
            let s = string_of(line);
            match match_start(re, s.as_str()) {
                Some(b) => Some(chars_before_byte(line, b)),
                None => None,
            }
        },
        None => find(line, query),
    }
}

/// The first line of the content that matches, counted from 0, with a snippet
/// of it. An empty query matches nothing.
pub fn match_line_for_literal(content: &str, query: &str, regex: Option<&regex::Regex>) -> (r:
    Option<(usize, String)>)
    ensures
        match r {
            Some((i, s)) => content_match(content@, query@, regex_value(regex)) == Some(
                (i as int, s@),
            ) && i < text::text_lines(content@).len(),
            None => content_match(content@, query@, regex_value(regex)) is None,
        },
{
    let q = chars_of(query);
    if q.len() == 0 {
        return None;
    }
    let all = lines(chars_of(content).as_slice());
    let ghost ls = text::text_lines(content@);
    let mut i: usize = 0;
    while i < all.len()
        invariant
            i <= all.len(),
            q@ == query@,
            q@.len() > 0,
            text::views(all@) == ls,
            ls == text::text_lines(content@),
            first_match_from(ls, query@, regex_value(regex), 0) == first_match_from(
                ls,
                query@,
                regex_value(regex),
                i as int,
            ),
        decreases all.len() - i,
    {
        assert(all@[i as int]@ == ls[i as int]);
        match match_in_line(all[i].as_slice(), q.as_slice(), regex) {
            Some(at) => {
                return Some((i, window(all[i].as_slice(), at, SNIPPET_CHARS)));
            },
            None => {},
        }
        i += 1;
    }
    None
}

// ---------------------------------------------------------------------------
// Planning a search
// ---------------------------------------------------------------------------

/// What is looked for in the text of a chunk.
#[derive(Debug)]
pub struct LiteralQuery {
    pub text: String,
    /// The compiled query, where it is run as a regular expression and valid.
    pub regex: Option<regex::Regex>,
    pub regex_enabled: bool,
}

/// How a literal search is to be run.
#[derive(Debug)]
pub struct LiteralPlan {
    pub query: LiteralQuery,
    pub limit: usize,
    pub phrase: bool,
    pub auto_promoted: bool,
    /// Every chunk is read; the full-text search cannot help.
    pub scan: bool,
    pub grep: bool,
}

/// An escaped query that takes any white space for a space.
pub open spec fn relaxed(s: Seq<char>) -> Seq<char>
    decreases s.len(),
{
    if s.len() == 0 {
        Seq::empty()
    } else if s.last() == ' ' {
        relaxed(s.drop_last()) + seq!['\\', 's', '+']
    } else {
        relaxed(s.drop_last()).push(s.last())
    }
}

/// The regular expression for a query that looks like code: its text, with any
/// white space where it has a space.
pub open spec fn promoted(query: Seq<char>) -> Seq<char> {
    relaxed(regexes::escaped(query))
}

fn relax(s: &[char]) -> (r: Vec<char>)
    ensures
        r@ == relaxed(s@),
{
    let mut out: Vec<char> = Vec::new();
    let mut i: usize = 0;
    while i < s.len()
        invariant
            i <= s.len(),
            out@ == relaxed(s@.take(i as int)),
        decreases s.len() - i,
    {
        let ghost prev = out@;
        proof {
            assert(s@.take(i + 1).drop_last() =~= s@.take(i as int));
        }
        if s[i] == ' ' {
            out.push('\\');
            out.push('s');
            out.push('+');
            proof {
                assert(out@ =~= prev + seq!['\\', 's', '+']);
            }
        } else {
            out.push(s[i]);
        }
        i += 1;
    }
    proof {
        assert(s@.take(s@.len() as int) =~= s@);
    }
    out
}

/// The regular expression for a query that looks like code.
pub fn promote_query(query: &str) -> (r: String)
    ensures
        r@ == promoted(query@),
{
    let e = escape(query);
    string_of(relax(chars_of(e.as_str()).as_slice()).as_slice())
}

/// The query is made a regular expression without being asked to.
pub open spec fn is_promoted(request: LiteralSearchRequest) -> bool {
    request.regex != Some(true) && request.phrase != Some(true) && pattern::is_code_pattern(
        request.query@,
    )
}

/// A pattern that compiles has to be run over every chunk.
pub open spec fn needs_scan(pattern_text: Seq<char>) -> bool {
    !pattern::has_token(pattern_text) || pattern::has_bar(pattern_text)
}

impl LiteralPlan {
    /// The plan belongs to the request.
    pub open spec fn is_for(&self, request: LiteralSearchRequest) -> bool {
        &&& self.limit == (match request.limit {
            Some(l) => l,
            None => 20,
        })
        &&& self.phrase == (request.phrase == Some(true))
        &&& self.auto_promoted == is_promoted(request)
        &&& self.query.text@ == (if is_promoted(request) {
            promoted(request.query@)
        } else {
            request.query@
        })
        &&& self.query.regex_enabled == (is_promoted(request) || request.regex == Some(true))
        &&& self.query.regex == (if self.query.regex_enabled {
            regexes::regex_compiled(self.query.text@)
        } else {
            None
        })
        &&& self.scan == (self.query.regex is Some && needs_scan(self.query.text@))
        &&& self.grep == (types::opt_text(request.format) == Some("grep"@))
    }

    /// How many candidates the full-text search is asked for.
    pub fn candidates(&self) -> (r: usize)
        requires
            self.limit * 3 <= usize::MAX,
        ensures
            r == self.limit * 3,
    {
        self.limit * 3
    }
}

/// Plans a literal search.
///
/// A query that looks like code, and for which the request asks for neither a
/// regular expression nor a phrase, becomes a regular expression. A regular
/// expression without a word for the full-text search, or with alternatives,
/// is run over every chunk.
pub fn plan_literal_search(request: &LiteralSearchRequest) -> (r: LiteralPlan)
    ensures
        r.is_for(*request),
{
    let limit: usize = match request.limit {
        Some(l) => l,
        None => 20,
    };
    let user_regex = match request.regex {
        Some(b) => b,
        None => false,
    };
    let user_phrase = match request.phrase {
        Some(b) => b,
        None => false,
    };
    let auto_promoted = !user_regex && !user_phrase && looks_like_code_pattern(
        request.query.as_str(),
    );
    let text = if auto_promoted {
        promote_query(request.query.as_str())
    } else {
        request.query.clone()
    };
    let regex_enabled = auto_promoted || user_regex;
    let regex = if regex_enabled {
        compile(text.as_str())
    } else {
        None
    };
    let scan = match &regex {
        Some(re) => !regex_has_anchorable_token(text.as_str()) || regex_has_disjunctive_or(
            text.as_str(),
        ),
        None => false,
    };
    let grep = match &request.format {
        Some(f) => str_eq(f.as_str(), "grep"),
        None => false,
    };
    LiteralPlan {
        query: LiteralQuery { text, regex, regex_enabled },
        limit,
        phrase: user_phrase,
        auto_promoted,
        scan,
        grep,
    }
}

// ---------------------------------------------------------------------------
// Filters and items
// ---------------------------------------------------------------------------

/// The chunks that a search considers.
#[derive(Debug)]
pub struct LiteralFilter {
    pub language: Option<String>,
    pub file_glob: Option<String>,
    /// The normal root of the project.
    pub project_root: String,
}

impl LiteralFilter {
    /// The chunk is considered.
    pub open spec fn passes(&self, chunk: ChunkMeta) -> bool {
        &&& self.language is Some ==> chunk.language@ == self.language->0@
        &&& self.file_glob is Some ==> glob::glob_matches(
            self.file_glob->0@,
            paths::relative_to(chunk.path@, self.project_root@),
        )
    }

    /// Whether the chunk is considered: its file has the language, and its
    /// path below the project root matches the glob.
    pub fn admits(&self, chunk: &ChunkMeta) -> (r: bool)
        ensures
            r == self.passes(*chunk),
    {
        match &self.language {
            Some(lang) => {
                if !str_eq(chunk.language.as_str(), lang.as_str()) {
                    return false;
                }
            },
            None => {},
        }
        match &self.file_glob {
            Some(g) => {
                let rel = relative_path(chunk.path.as_str(), self.project_root.as_str());
                simple_glob_match(g.as_str(), rel.as_str())
            },
            None => true,
        }
    }
}

/// One match, without its containers.
#[verifier::ext_equal]
pub struct LiteralHit {
    pub path: Seq<char>,
    pub line: int,
    pub snippet: Seq<char>,
    pub score: Score,
    pub kind: Option<Seq<char>>,
    pub signature: Option<Seq<char>>,
}

/// The text, where it is not empty.
pub open spec fn nonempty(s: Seq<char>) -> Option<Seq<char>> {
    if s.len() == 0 {
        None
    } else {
        Some(s)
    }
}

/// The match in a chunk at a line of it.
pub open spec fn hit_in(chunk: ChunkMeta, offset: int, snippet: Seq<char>, score: Score) -> LiteralHit {
    LiteralHit {
        path: chunk.path@,
        line: chunk.start_line + offset,
        snippet,
        score,
        kind: nonempty(chunk.kind@),
        signature: match chunk.signature {
            Some(s) => nonempty(s@),
            None => None,
        },
    }
}

/// What an item says; where it ends, `one_line_each` tells.
pub open spec fn hit_of(item: LiteralSearchResultItem) -> LiteralHit {
    LiteralHit {
        path: item.path@,
        line: item.start_line as int,
        snippet: item.snippet@,
        score: item.score,
        kind: types::opt_text(item.kind),
        signature: types::opt_text(item.signature),
    }
}

/// What the items say; each stands on one line.
pub open spec fn hits_of(items: Seq<LiteralSearchResultItem>) -> Seq<LiteralHit> {
    Seq::new(items.len(), |i: int| hit_of(items[i]))
}

/// Every item begins and ends on the same line.
pub open spec fn one_line_each(items: Seq<LiteralSearchResultItem>) -> bool {
    forall|i: int| 0 <= i < items.len() ==> (#[trigger] items[i]).end_line == items[i].start_line
}

fn item_in(chunk: &ChunkMeta, offset: usize, snippet: String, score: Score) -> (r:
    LiteralSearchResultItem)
    requires
        chunk.start_line + offset <= usize::MAX,
    ensures
        hit_of(r) == hit_in(*chunk, offset as int, snippet@, score),
        r.end_line == r.start_line,
{
    let line: usize = chunk.start_line + offset;
    let kind = if chunk.kind.as_str().is_empty() {
        None
    } else {
        Some(chunk.kind.clone())
    };
    let signature = match &chunk.signature {
        Some(s) => if s.as_str().is_empty() {
            None
        } else {
            Some(s.clone())
        },
        None => None,
    };
    LiteralSearchResultItem {
        path: chunk.path.clone(),
        start_line: line,
        end_line: line,
        snippet,
        score,
        kind,
        signature,
    }
}

// ---------------------------------------------------------------------------
// Reading every chunk
// ---------------------------------------------------------------------------

/// The match of a considered chunk.
pub open spec fn scan_hit(chunk: ChunkMeta, filter: LiteralFilter, query: LiteralQuery) -> Option<
    LiteralHit,
> {
    if !filter.passes(chunk) {
        None
    } else {
        match content_match(chunk.content@, query.text@, query.regex) {
            Some((offset, snippet)) => Some(hit_in(chunk, offset, snippet, Score { bits: 0 })),
            None => None,
        }
    }
}

/// The matches of the chunks, in their order.
pub open spec fn scan_hits(
    chunks: Seq<ChunkMeta>,
    filter: LiteralFilter,
    query: LiteralQuery,
) -> Seq<LiteralHit>
    decreases chunks.len(),
{
    if chunks.len() == 0 {
        Seq::empty()
    } else {
        let before = scan_hits(chunks.drop_last(), filter, query);
        match scan_hit(chunks.last(), filter, query) {
            Some(h) => before.push(h),
            None => before,
        }
    }
}

/// The matches of all stores, in their order.
pub open spec fn store_hits(
    stores: Seq<Vec<ChunkMeta>>,
    filter: LiteralFilter,
    query: LiteralQuery,
) -> Seq<LiteralHit>
    decreases stores.len(),
{
    if stores.len() == 0 {
        Seq::empty()
    } else {
        store_hits(stores.drop_last(), filter, query) + scan_hits(stores.last()@, filter, query)
    }
}

/// What a scan brings: the first matches, up to the limit.
pub open spec fn scanned(
    stores: Seq<Vec<ChunkMeta>>,
    filter: LiteralFilter,
    query: LiteralQuery,
    limit: int,
) -> Seq<LiteralHit> {
    types::at_most(store_hits(stores, filter, query), limit)
}

/// The lines of every chunk can be numbered.
pub open spec fn chunks_wf(chunks: Seq<ChunkMeta>) -> bool {
    forall|i: int| 0 <= i < chunks.len() ==> (#[trigger] chunks[i]).wf()
}

fn scan_chunk(chunk: &ChunkMeta, filter: &LiteralFilter, query: &LiteralQuery) -> (r: Option<
    LiteralSearchResultItem,
>)
    requires
        chunk.wf(),
    ensures
        match r {
            Some(item) => scan_hit(*chunk, *filter, *query) == Some(hit_of(item)) && item.end_line
                == item.start_line,
            None => scan_hit(*chunk, *filter, *query) is None,
        },
{
    if !filter.admits(chunk) {
        return None;
    }
    match match_line_for_literal(
        chunk.content.as_str(),
        query.text.as_str(),
        query.regex.as_ref(),
    ) {
        Some((offset, snippet)) => Some(item_in(chunk, offset, snippet, Score::zero())),
        None => None,
    }
}

proof fn lemma_scan_prefix(
    chunks: Seq<ChunkMeta>,
    filter: LiteralFilter,
    query: LiteralQuery,
    n: int,
)
    requires
        0 <= n <= chunks.len(),
    ensures
        scan_hits(chunks.take(n), filter, query).len() <= scan_hits(chunks, filter, query).len(),
        scan_hits(chunks.take(n), filter, query) == scan_hits(chunks, filter, query).take(
            scan_hits(chunks.take(n), filter, query).len() as int,
        ),
    decreases chunks.len() - n,
{
    let a = scan_hits(chunks.take(n), filter, query);
    let all = scan_hits(chunks, filter, query);
    if n == chunks.len() {
        assert(chunks.take(n) =~= chunks);
        assert(all.take(all.len() as int) =~= all);
    } else {
        lemma_scan_prefix(chunks, filter, query, n + 1);
        let b = scan_hits(chunks.take(n + 1), filter, query);
        assert(chunks.take(n + 1).drop_last() =~= chunks.take(n));
        assert(b.len() >= a.len());
        assert(a =~= b.take(a.len() as int));
        assert(a =~= all.take(a.len() as int));
    }
}

proof fn lemma_store_prefix(
    stores: Seq<Vec<ChunkMeta>>,
    filter: LiteralFilter,
    query: LiteralQuery,
    n: int,
)
    requires
        0 <= n <= stores.len(),
    ensures
        store_hits(stores.take(n), filter, query).len() <= store_hits(stores, filter, query).len(),
        store_hits(stores.take(n), filter, query) == store_hits(stores, filter, query).take(
            store_hits(stores.take(n), filter, query).len() as int,
        ),
    decreases stores.len() - n,
{
    let a = store_hits(stores.take(n), filter, query);
    let all = store_hits(stores, filter, query);
    if n == stores.len() {
        assert(stores.take(n) =~= stores);
        assert(all.take(all.len() as int) =~= all);
    } else {
        lemma_store_prefix(stores, filter, query, n + 1);
        let b = store_hits(stores.take(n + 1), filter, query);
        assert(stores.take(n + 1).drop_last() =~= stores.take(n));
        assert(b.len() >= a.len());
        assert(a =~= b.take(a.len() as int));
        assert(a =~= all.take(a.len() as int));
    }
}

/// Runs the query over every chunk of every store.
pub fn scan_stores(
    stores: &Vec<Vec<ChunkMeta>>,
    filter: &LiteralFilter,
    query: &LiteralQuery,
    limit: usize,
) -> (r: Vec<LiteralSearchResultItem>)
    requires
        forall|k: int| 0 <= k < stores@.len() ==> chunks_wf(#[trigger] stores@[k]@),
    ensures
        hits_of(r@) == scanned(stores@, *filter, *query, limit as int),
        one_line_each(r@),
{
    let mut out: Vec<LiteralSearchResultItem> = Vec::new();
    if limit == 0 {
        proof {
            assert(hits_of(out@) =~= scanned(stores@, *filter, *query, 0));
        }
        return out;
    }
    let mut k: usize = 0;
    proof {
        assert(hits_of(out@) =~= store_hits(stores@.take(0), *filter, *query));
    }
    while k < stores.len()
        invariant
            k <= stores.len(),
            out.len() < limit,
            one_line_each(out@),
            hits_of(out@) == store_hits(stores@.take(k as int), *filter, *query),
            forall|m: int| 0 <= m < stores@.len() ==> chunks_wf(#[trigger] stores@[m]@),
        decreases stores.len() - k,
    {
        let chunks = &stores[k];
        let ghost base = hits_of(out@);
        proof {
            assert(stores@.take(k + 1).drop_last() =~= stores@.take(k as int));
            assert(stores@.take(k + 1).last() == stores@[k as int]);
            assert(chunks_wf(chunks@));
            assert(chunks@.take(0) =~= Seq::empty());
            assert(base + scan_hits(chunks@.take(0), *filter, *query) =~= base);
        }
        let mut i: usize = 0;
        while i < chunks.len()
            invariant
                i <= chunks.len(),
                k < stores.len(),
                chunks@ == stores@[k as int]@,
                chunks_wf(chunks@),
                out.len() < limit,
                one_line_each(out@),
                base == store_hits(stores@.take(k as int), *filter, *query),
                hits_of(out@) == base + scan_hits(chunks@.take(i as int), *filter, *query),
            decreases chunks.len() - i,
        {
            proof {
                assert(chunks@.take(i + 1).drop_last() =~= chunks@.take(i as int));
            }
            let ghost before = out@;
            match scan_chunk(&chunks[i], filter, query) {
                Some(item) => {
                    let ghost h = hit_of(item);
                    out.push(item);
                    proof {
                        assert(hits_of(out@) =~= hits_of(before).push(h));
                        assert(hits_of(out@) =~= base + scan_hits(
                            chunks@.take(i + 1),
                            *filter,
                            *query,
                        ));
                    }
                    if out.len() >= limit {
                        proof {
                            lemma_scan_prefix(chunks@, *filter, *query, i + 1);
                            lemma_store_prefix(stores@, *filter, *query, k + 1);
                            assert(stores@.take(k + 1).drop_last() =~= stores@.take(k as int));
                            assert(stores@.take(k + 1).last() == stores@[k as int]);
                            let all = store_hits(stores@, *filter, *query);
                            let part = store_hits(stores@.take(k + 1), *filter, *query);
                            assert(hits_of(out@) =~= part.take(limit as int));
                            assert(hits_of(out@) =~= all.take(limit as int));
                            assert(hits_of(out@) =~= types::at_most(all, limit as int));
                        }
                        return out;
                    }
                },
                None => {},
            }
            i += 1;
        }
        proof {
            assert(chunks@.take(chunks@.len() as int) =~= chunks@);
            assert(stores@.take(k + 1).drop_last() =~= stores@.take(k as int));
            assert(stores@.take(k + 1).last() == stores@[k as int]);
        }
        k += 1;
    }
    proof {
        assert(stores@.take(stores@.len() as int) =~= stores@);
    }
    out
}

// ---------------------------------------------------------------------------
// Candidates of the full-text search
// ---------------------------------------------------------------------------

/// The first line of a text.
pub open spec fn first_line(content: Seq<char>) -> Seq<char> {
    if text::text_lines(content).len() > 0 {
        text::text_lines(content)[0]
    } else {
        Seq::empty()
    }
}

/// The item of a chunk that the full-text search has found: at its match, or
/// at its first line where nothing but a regular expression has to match.
pub open spec fn ranked_hit(chunk: ChunkMeta, query: LiteralQuery, score: Score) -> Option<
    LiteralHit,
> {
    match content_match(chunk.content@, query.text@, query.regex) {
        Some((offset, snippet)) => Some(hit_in(chunk, offset, snippet, score)),
        None => if query.regex_enabled {
            None
        } else {
            Some(hit_in(chunk, 0, first_line(chunk.content@), score))
        },
    }
}

fn ranked_item(chunk: &ChunkMeta, query: &LiteralQuery, score: Score) -> (r: Option<
    LiteralSearchResultItem,
>)
    requires
        chunk.wf(),
    ensures
        match r {
            Some(item) => ranked_hit(*chunk, *query, score) == Some(hit_of(item)) && item.end_line
                == item.start_line,
            None => ranked_hit(*chunk, *query, score) is None,
        },
{
    match match_line_for_literal(
        chunk.content.as_str(),
        query.text.as_str(),
        query.regex.as_ref(),
    ) {
        Some((offset, snippet)) => Some(item_in(chunk, offset, snippet, score)),
        None => {
            if query.regex_enabled {
                return None;
            }
            let all = lines(chars_of(chunk.content.as_str()).as_slice());
            let snippet = if all.len() > 0 {
                assert(all@[0]@ == text::views(all@)[0]);
                string_of(all[0].as_slice())
            } else {
                String::new()
            };
            proof {
                assert(snippet@ =~= first_line(chunk.content@));
            }
            Some(item_in(chunk, 0, snippet, score))
        },
    }
}

/// The item of a candidate: from the first store, from the `k`th on, whose
/// chunk is considered and matches.
pub open spec fn candidate_hit_from(
    c: Candidate,
    filter: LiteralFilter,
    query: LiteralQuery,
    k: int,
) -> Option<LiteralHit>
    decreases c.chunks@.len() - k,
{
    if k < 0 || k >= c.chunks@.len() {
        None
    } else if c.chunks@[k] is Some && filter.passes(c.chunks@[k]->0) && ranked_hit(
        c.chunks@[k]->0,
        query,
        c.score,
    ) is Some {
        ranked_hit(c.chunks@[k]->0, query, c.score)
    } else {
        candidate_hit_from(c, filter, query, k + 1)
    }
}

/// The items of the candidates, in their order.
pub open spec fn candidate_hits(
    candidates: Seq<Candidate>,
    filter: LiteralFilter,
    query: LiteralQuery,
) -> Seq<LiteralHit>
    decreases candidates.len(),
{
    if candidates.len() == 0 {
        Seq::empty()
    } else {
        let before = candidate_hits(candidates.drop_last(), filter, query);
        match candidate_hit_from(candidates.last(), filter, query, 0) {
            Some(h) => before.push(h),
            None => before,
        }
    }
}

fn candidate_item(c: &Candidate, filter: &LiteralFilter, query: &LiteralQuery) -> (r: Option<
    LiteralSearchResultItem,
>)
    requires
        c.wf(),
    ensures
        match r {
            Some(item) => candidate_hit_from(*c, *filter, *query, 0) == Some(hit_of(item))
                && item.end_line == item.start_line,
            None => candidate_hit_from(*c, *filter, *query, 0) is None,
        },
{
    let mut k: usize = 0;
    while k < c.chunks.len()
        invariant
            k <= c.chunks.len(),
            c.wf(),
            candidate_hit_from(*c, *filter, *query, 0) == candidate_hit_from(
                *c,
                *filter,
                *query,
                k as int,
            ),
        decreases c.chunks.len() - k,
    {
        match &c.chunks[k] {
            Some(chunk) => {
                assert(c.chunks@[k as int] is Some);
                if filter.admits(chunk) {
                    match ranked_item(chunk, query, c.score) {
                        Some(item) => {
                            return Some(item);
                        },
                        None => {},
                    }
                }
            },
            None => {},
        }
        k += 1;
    }
    None
}

proof fn lemma_candidate_prefix(
    candidates: Seq<Candidate>,
    filter: LiteralFilter,
    query: LiteralQuery,
    n: int,
)
    requires
        0 <= n <= candidates.len(),
    ensures
        candidate_hits(candidates.take(n), filter, query).len() <= candidate_hits(
            candidates,
            filter,
            query,
        ).len(),
        candidate_hits(candidates.take(n), filter, query) == candidate_hits(
            candidates,
            filter,
            query,
        ).take(candidate_hits(candidates.take(n), filter, query).len() as int),
    decreases candidates.len() - n,
{
    let a = candidate_hits(candidates.take(n), filter, query);
    let all = candidate_hits(candidates, filter, query);
    if n == candidates.len() {
        assert(candidates.take(n) =~= candidates);
        assert(all.take(all.len() as int) =~= all);
    } else {
        lemma_candidate_prefix(candidates, filter, query, n + 1);
        let b = candidate_hits(candidates.take(n + 1), filter, query);
        assert(candidates.take(n + 1).drop_last() =~= candidates.take(n));
        assert(a =~= b.take(a.len() as int));
        assert(a =~= all.take(a.len() as int));
    }
}

/// The items of the candidates of several stores, up to the limit.
pub fn resolve_candidates_multi(
    candidates: &Vec<Candidate>,
    filter: &LiteralFilter,
    query: &LiteralQuery,
    limit: usize,
) -> (r: Vec<LiteralSearchResultItem>)
    requires
        types::candidates_wf(candidates@),
    ensures
        hits_of(r@) == types::at_most(
            candidate_hits(candidates@, *filter, *query),
            limit as int,
        ),
        one_line_each(r@),
{
    let mut out: Vec<LiteralSearchResultItem> = Vec::new();
    if limit == 0 {
        proof {
            assert(hits_of(out@) =~= types::at_most(
                candidate_hits(candidates@, *filter, *query),
                0,
            ));
        }
        return out;
    }
    let mut i: usize = 0;
    proof {
        assert(hits_of(out@) =~= candidate_hits(candidates@.take(0), *filter, *query));
    }
    while i < candidates.len()
        invariant
            i <= candidates.len(),
            types::candidates_wf(candidates@),
            out.len() < limit,
            one_line_each(out@),
            hits_of(out@) == candidate_hits(candidates@.take(i as int), *filter, *query),
        decreases candidates.len() - i,
    {
        let ghost before = out@;
        proof {
            assert(candidates@.take(i + 1).drop_last() =~= candidates@.take(i as int));
        }
        match candidate_item(&candidates[i], filter, query) {
            Some(item) => {
                let ghost h = hit_of(item);
                out.push(item);
                proof {
                    assert(hits_of(out@) =~= hits_of(before).push(h));
                }
                if out.len() >= limit {
                    proof {
                        lemma_candidate_prefix(candidates@, *filter, *query, i + 1);
                        assert(hits_of(out@) =~= types::at_most(
                            candidate_hits(candidates@, *filter, *query),
                            limit as int,
                        ));
                    }
                    return out;
                }
            },
            None => {},
        }
        i += 1;
    }
    proof {
        assert(candidates@.take(candidates@.len() as int) =~= candidates@);
    }
    out
}

/// The chunk that the only store holds for a candidate, where the search
/// considers it.
pub open spec fn single_chunk(c: Candidate, filter: LiteralFilter) -> Option<ChunkMeta> {
    if c.chunks@.len() > 0 && c.chunks@[0] is Some && filter.passes(c.chunks@[0]->0) {
        c.chunks@[0]
    } else {
        None
    }
}

/// The first `limit` considered chunks of the candidates, with their scores.
pub open spec fn single_chunks(
    candidates: Seq<Candidate>,
    filter: LiteralFilter,
) -> Seq<(ChunkMeta, Score)>
    decreases candidates.len(),
{
    if candidates.len() == 0 {
        Seq::empty()
    } else {
        let before = single_chunks(candidates.drop_last(), filter);
        match single_chunk(candidates.last(), filter) {
            Some(chunk) => before.push((chunk, candidates.last().score)),
            None => before,
        }
    }
}

/// The items of chunks, in their order.
pub open spec fn ranked_hits(chunks: Seq<(ChunkMeta, Score)>, query: LiteralQuery) -> Seq<LiteralHit>
    decreases chunks.len(),
{
    if chunks.len() == 0 {
        Seq::empty()
    } else {
        let before = ranked_hits(chunks.drop_last(), query);
        match ranked_hit(chunks.last().0, query, chunks.last().1) {
            Some(h) => before.push(h),
            None => before,
        }
    }
}

proof fn lemma_single_prefix(candidates: Seq<Candidate>, filter: LiteralFilter, n: int)
    requires
        0 <= n <= candidates.len(),
    ensures
        single_chunks(candidates.take(n), filter).len() <= single_chunks(candidates, filter).len(),
        single_chunks(candidates.take(n), filter) == single_chunks(candidates, filter).take(
            single_chunks(candidates.take(n), filter).len() as int,
        ),
    decreases candidates.len() - n,
{
    let a = single_chunks(candidates.take(n), filter);
    let all = single_chunks(candidates, filter);
    if n == candidates.len() {
        assert(candidates.take(n) =~= candidates);
        assert(all.take(all.len() as int) =~= all);
    } else {
        lemma_single_prefix(candidates, filter, n + 1);
        let b = single_chunks(candidates.take(n + 1), filter);
        assert(candidates.take(n + 1).drop_last() =~= candidates.take(n));
        assert(a =~= b.take(a.len() as int));
        assert(a =~= all.take(a.len() as int));
    }
}

/// The items of the candidates of one store: of the considered chunks the first
/// `limit` are taken, and of those the ones that match.
pub fn resolve_candidates_single(
    candidates: &Vec<Candidate>,
    filter: &LiteralFilter,
    query: &LiteralQuery,
    limit: usize,
) -> (r: Vec<LiteralSearchResultItem>)
    requires
        types::candidates_wf(candidates@),
    ensures
        hits_of(r@) == ranked_hits(
            types::at_most(single_chunks(candidates@, *filter), limit as int),
            *query,
        ),
        one_line_each(r@),
{
    let mut out: Vec<LiteralSearchResultItem> = Vec::new();
    let mut taken: usize = 0;
    let mut i: usize = 0;
    let ghost all = single_chunks(candidates@, *filter);
    proof {
        assert(single_chunks(candidates@.take(0), *filter) =~= Seq::empty());
        assert(hits_of(out@) =~= ranked_hits(Seq::empty(), *query));
    }
    while i < candidates.len() && taken < limit
        invariant
            i <= candidates.len(),
            types::candidates_wf(candidates@),
            taken <= limit,
            taken == single_chunks(candidates@.take(i as int), *filter).len(),
            one_line_each(out@),
            hits_of(out@) == ranked_hits(single_chunks(candidates@.take(i as int), *filter), *query),
        decreases candidates.len() - i,
    {
        let c = &candidates[i];
        let ghost before = out@;
        let ghost part = single_chunks(candidates@.take(i as int), *filter);
        proof {
            assert(candidates@.take(i + 1).drop_last() =~= candidates@.take(i as int));
            assert(candidates@.take(i + 1).last() == *c);
            assert(c.wf());
        }
        if c.chunks.len() > 0 {
            match &c.chunks[0] {
                Some(chunk) => {
                    assert(c.chunks@[0] is Some);
                    if filter.admits(chunk) {
                        taken += 1;
                        proof {
                            assert(part.push((*chunk, c.score)).drop_last() =~= part);
                        }
                        match ranked_item(chunk, query, c.score) {
                            Some(item) => {
                                let ghost h = hit_of(item);
                                out.push(item);
                                proof {
                                    assert(hits_of(out@) =~= hits_of(before).push(h));
                                }
                            },
                            None => {},
                        }
                    }
                },
                None => {},
            }
        }
        i += 1;
    }
    proof {
        lemma_single_prefix(candidates@, *filter, i as int);
        if i == candidates.len() {
            assert(candidates@.take(i as int) =~= candidates@);
        }
        assert(types::at_most(all, limit as int) =~= single_chunks(candidates@.take(i as int), *filter));
    }
    out
}

// ---------------------------------------------------------------------------
// Confidence
// ---------------------------------------------------------------------------

/// The bits of 5.0, the score below which a match of the full-text search is
/// weak.
pub const LITERAL_LOW_CONFIDENCE_BM25: u32 = 0x40a0_0000;

/// The character is punctuation of code.
pub open spec fn is_code_char(c: char) -> bool {
    c == '{' || c == '}' || c == '[' || c == ']' || c == '<' || c == '>' || c == '=' || c == '|'
        || c == ';' || c == ':'
}

/// The text holds punctuation of code.
pub open spec fn has_code_chars(s: Seq<char>) -> bool {
    exists|i: int| 0 <= i < s.len() && is_code_char(#[trigger] s[i])
}

/// The query is prose: three words or more, without punctuation of code.
pub open spec fn is_prose(query: Seq<char>) -> bool {
    text::words_of(query).len() >= 3 && !has_code_chars(query)
}

/// The query is one word without punctuation of code.
pub open spec fn is_one_word(query: Seq<char>) -> bool {
    text::words_of(query).len() == 1 && !has_code_chars(query)
}

/// The tool that is suggested where the best match has this score: none where
/// the match is good, or weak but found by a single word.
pub open spec fn literal_hint(top: Option<Score>, query: Seq<char>) -> Option<Seq<char>> {
    match top {
        None => Some(
            if is_prose(query) {
                "search with mode='semantic'"@
            } else {
                "search with mode='literal' and regex=true"@
            },
        ),
        Some(s) => if !s.lt(Score { bits: LITERAL_LOW_CONFIDENCE_BM25 }) || is_one_word(query) {
            None
        } else {
            Some(
                if is_prose(query) {
                    "search with mode='semantic'"@
                } else {
                    "find with kind='definition' or kind='usages'"@
                },
            )
        },
    }
}

fn code_chars(s: &[char]) -> (r: bool)
    ensures
        r == has_code_chars(s@),
{
    let mut i: usize = 0;
    while i < s.len()
        invariant
            i <= s.len(),
            forall|j: int| 0 <= j < i ==> !is_code_char(#[trigger] s@[j]),
        decreases s.len() - i,
    {
        let c = s[i];
        if c == '{' || c == '}' || c == '[' || c == ']' || c == '<' || c == '>' || c == '=' || c
            == '|' || c == ';' || c == ':' {
            assert(is_code_char(s@[i as int]));
            return true;
        }
        i += 1;
    }
    false
}

/// Whether the results of a literal search deserve little trust, and what to
/// try in that case.
pub fn compute_literal_low_confidence(top_score: Option<Score>, query: &str) -> (r: (
    Option<bool>,
    Option<String>,
))
    ensures
        types::opt_text(r.1) == literal_hint(top_score, query@),
        r.0 == (if literal_hint(top_score, query@) is Some {
            Some(true)
        } else {
            None
        }),
{
    let q = chars_of(query);
    let ws = words(q.as_slice());
    let code = code_chars(q.as_slice());
    let prose = ws.len() >= 3 && !code;
    let one_word = ws.len() == 1 && !code;
    match top_score {
        Some(s) => {
            if !s.less(Score::from_bits(LITERAL_LOW_CONFIDENCE_BM25)) || one_word {
                (None, None)
            } else if prose {
                (Some(true), Some(owned("search with mode='semantic'")))
            } else {
                (Some(true), Some(owned("find with kind='definition' or kind='usages'")))
            }
        },
        None => {
            if prose {
                (Some(true), Some(owned("search with mode='semantic'")))
            } else {
                (Some(true), Some(owned("search with mode='literal' and regex=true")))
            }
        },
    }
}

// ---------------------------------------------------------------------------
// The response
// ---------------------------------------------------------------------------

/// The hit under the path that the request shows.
pub open spec fn shown_hit(h: LiteralHit, ctx: MultiStoreContext) -> LiteralHit {
    LiteralHit { path: ctx.shown_path(h.path), ..h }
}

/// The note on a promoted query.
pub open spec fn promoted_note(query: Seq<char>, effective: Seq<char>) -> Seq<char> {
    "Query auto-promoted to regex mode (original: '"@ + query + "', effective: '"@ + effective
        + "'). The query contained code-like punctuation that BM25 would tokenize incorrectly."@
}

/// The note on weak results.
pub open spec fn weak_note(tool: Seq<char>) -> Seq<char> {
    "Top result has weak BM25 score; consider using `"@ + tool + "` for better matches."@
}

/// The note of a response.
pub open spec fn response_note(
    auto_promoted: bool,
    query: Seq<char>,
    effective: Seq<char>,
    hint: Option<Seq<char>>,
) -> Option<Seq<char>> {
    if auto_promoted {
        Some(promoted_note(query, effective))
    } else {
        match hint {
            Some(tool) => Some(weak_note(tool)),
            None => None,
        }
    }
}

/// The score of the first hit.
pub open spec fn top_score(hits: Seq<LiteralHit>) -> Option<Score> {
    if hits.len() > 0 {
        Some(hits[0].score)
    } else {
        None
    }
}

/// The response of a literal search to the items that it has found.
pub fn literal_response(
    items: Vec<LiteralSearchResultItem>,
    ctx: &MultiStoreContext,
    query: &str,
    plan: &LiteralPlan,
) -> (r: LiteralSearchResponse)
    requires
        one_line_each(items@),
    ensures
        hits_of(r.results@) == Seq::new(
            items@.len(),
            |i: int| shown_hit(hit_of(items@[i]), *ctx),
        ),
        one_line_each(r.results@),
        r.auto_promoted_to_regex == (if plan.auto_promoted {
            Some(true)
        } else {
            None
        }),
        types::opt_text(r.suggested_tool) == literal_hint(top_score(hits_of(items@)), query@),
        r.low_confidence == (if literal_hint(top_score(hits_of(items@)), query@) is Some {
            Some(true)
        } else {
            None
        }),
        types::opt_text(r.note) == response_note(
            plan.auto_promoted,
            query@,
            plan.query.text@,
            literal_hint(top_score(hits_of(items@)), query@),
        ),
{
    let top = if items.len() > 0 {
        Some(items[0].score)
    } else {
        None
    };
    let mut out: Vec<LiteralSearchResultItem> = Vec::new();
    let mut i: usize = 0;
    while i < items.len()
        invariant
            i <= items.len(),
            one_line_each(items@),
            one_line_each(out@),
            out.len() == i,
            forall|j: int|
                0 <= j < i ==> hit_of(#[trigger] out@[j]) == shown_hit(hit_of(items@[j]), *ctx),
        decreases items.len() - i,
    {
        let item = &items[i];
        assert(items@[i as int].end_line == items@[i as int].start_line);
        out.push(
            LiteralSearchResultItem {
                path: ctx.prefix_result_path(item.path.as_str()),
                start_line: item.start_line,
                end_line: item.end_line,
                snippet: item.snippet.clone(),
                score: item.score,
                kind: types::copy_opt(&item.kind),
                signature: types::copy_opt(&item.signature),
            },
        );
        i += 1;
    }
    let (low_confidence, suggested_tool) = compute_literal_low_confidence(top, query);
    let note = if plan.auto_promoted {
        let a = concat("Query auto-promoted to regex mode (original: '", query);
        let b = concat(a.as_str(), "', effective: '");
        let c = concat(b.as_str(), plan.query.text.as_str());
        Some(
            concat(
                c.as_str(),
                "'). The query contained code-like punctuation that BM25 would tokenize incorrectly.",
            ),
        )
    } else {
        match &suggested_tool {
            Some(tool) => {
                let a = concat(
                    "Top result has weak BM25 score; consider using `",
                    tool.as_str(),
                );
                Some(concat(a.as_str(), "` for better matches."))
            },
            None => None,
        }
    };
    let auto = if plan.auto_promoted {
        Some(true)
    } else {
        None
    };
    proof {
        assert(hits_of(out@) =~= Seq::new(
            items@.len(),
            |i: int| shown_hit(hit_of(items@[i]), *ctx),
        ));
    }
    LiteralSearchResponse {
        results: out,
        auto_promoted_to_regex: auto,
        note,
        low_confidence,
        suggested_tool,
    }
}

/// A response in the format of `grep`: one line for each hit.
pub open spec fn grep_lines(hits: Seq<LiteralHit>) -> Seq<Seq<char>> {
    Seq::new(
        hits.len(),
        |i: int|
            hits[i].path.push(':') + numbers::decimal(hits[i].line as nat).push(':')
                + hits[i].snippet,
    )
}

/// The comments above the hits.
pub open spec fn grep_comments(auto: Option<bool>, low: Option<bool>, hint: Option<Seq<char>>) -> Seq<
    Seq<char>,
> {
    let first = if auto == Some(true) {
        seq!["# auto-promoted to regex mode (query contained code-like punctuation)"@]
    } else {
        Seq::empty()
    };
    if low == Some(true) && hint is Some {
        first.push("# low confidence — consider: "@ + hint->0)
    } else {
        first
    }
}

/// A response as `grep` would print it: comments, then path, line number and
/// snippet of each hit, a line each.
pub fn format_grep(response: &LiteralSearchResponse) -> (r: String)
    ensures
        r@ == text::join_char(
            grep_comments(
                response.auto_promoted_to_regex,
                response.low_confidence,
                types::opt_text(response.suggested_tool),
            ) + grep_lines(hits_of(response.results@)),
            '\n',
        ),
{
    let mut all: Vec<Vec<char>> = Vec::new();
    if let Some(true) = response.auto_promoted_to_regex {
        all.push(
            chars_of("# auto-promoted to regex mode (query contained code-like punctuation)"),
        );
    }
    let ghost first = text::views(all@);
    if let Some(true) = response.low_confidence {
        match &response.suggested_tool {
            Some(hint) => {
                all.push(chars_of(concat("# low confidence — consider: ", hint.as_str()).as_str()));
                proof {
                    assert(text::views(all@) =~= first.push(
                        "# low confidence — consider: "@ + hint@,
                    ));
                }
            },
            None => {},
        }
    }
    let ghost comments = grep_comments(
        response.auto_promoted_to_regex,
        response.low_confidence,
        types::opt_text(response.suggested_tool),
    );
    proof {
        assert(text::views(all@) =~= comments);
    }
    let ghost hits = hits_of(response.results@);
    let mut i: usize = 0;
    proof {
        assert(grep_lines(hits).take(0) =~= Seq::empty());
        assert(comments + Seq::empty() =~= comments);
    }
    while i < response.results.len()
        invariant
            i <= response.results.len(),
            hits == hits_of(response.results@),
            text::views(all@) == comments + grep_lines(hits).take(i as int),
        decreases response.results.len() - i,
    {
        let item = &response.results[i];
        let ghost before = text::views(all@);
        let mut line = chars_of(item.path.as_str());
        line.push(':');
        let mut number = to_decimal(item.start_line as u64);
        number.push(':');
        text::push_all(&mut line, number.as_slice());
        text::push_all(&mut line, chars_of(item.snippet.as_str()).as_slice());
        proof {
            assert(line@ =~= grep_lines(hits)[i as int]);
        }
        all.push(line);
        proof {
            assert(text::views(all@) =~= before.push(grep_lines(hits)[i as int]));
            assert(grep_lines(hits).take(i + 1) =~= grep_lines(hits).take(i as int).push(
                grep_lines(hits)[i as int],
            ));
            assert(text::views(all@) =~= comments + grep_lines(hits).take(i + 1));
        }
        i += 1;
    }
    proof {
        assert(grep_lines(hits).take(hits.len() as int) =~= grep_lines(hits));
    }
    string_of(text::join(&all, '\n').as_slice())
}

// ---------------------------------------------------------------------------
// The whole search
// ---------------------------------------------------------------------------

/// What the stores gave for a literal search.
#[derive(Debug)]
pub enum Fetched {
    /// All chunks, store by store, for a search that reads every chunk.
    Chunks(Vec<Vec<ChunkMeta>>),
    /// The hits of the full-text search.
    Candidates(Vec<Candidate>),
    /// The chunks could not be read, for this reason.
    ScanFailed(String),
    /// The full-text search failed, for this reason.
    SearchFailed(String),
    /// The chunks of the hits could not be read, for this reason.
    ResolveFailed(String),
}

/// What a literal search answers.
#[derive(Debug)]
pub enum LiteralReply {
    Response(LiteralSearchResponse),
    Grep(String),
    Message(String),
}

impl Fetched {
    /// Lines can be counted.
    pub open spec fn wf(&self) -> bool {
        match *self {
            Fetched::Chunks(stores) => forall|k: int|
                0 <= k < stores@.len() ==> chunks_wf(#[trigger] stores@[k]@),
            Fetched::Candidates(cs) => types::candidates_wf(cs@),
            _ => true,
        }
    }

    /// What is said where the stores failed.
    pub open spec fn failure(&self) -> Option<Seq<char>> {
        match *self {
            Fetched::ScanFailed(e) => Some("Error scanning chunks: "@ + e@),
            Fetched::SearchFailed(e) => Some("Error searching: "@ + e@),
            Fetched::ResolveFailed(e) => Some("Error resolving search results: "@ + e@),
            _ => None,
        }
    }
}

/// The hits of a literal search; `group` tells whether several stores were
/// asked.
pub open spec fn found_hits(
    fetched: Fetched,
    filter: LiteralFilter,
    plan: LiteralPlan,
    group: bool,
) -> Seq<LiteralHit> {
    match fetched {
        Fetched::Chunks(stores) => scanned(stores@, filter, plan.query, plan.limit as int),
        Fetched::Candidates(cs) => if group {
            types::at_most(candidate_hits(cs@, filter, plan.query), plan.limit as int)
        } else {
            ranked_hits(
                types::at_most(single_chunks(cs@, filter), plan.limit as int),
                plan.query,
            )
        },
        _ => Seq::empty(),
    }
}

/// The response belongs to the hits of a search.
pub open spec fn answers(
    response: LiteralSearchResponse,
    hits: Seq<LiteralHit>,
    ctx: MultiStoreContext,
    query: Seq<char>,
    plan: LiteralPlan,
) -> bool {
    let hint = literal_hint(top_score(hits), query);
    &&& hits_of(response.results@) == hits.map_values(|h: LiteralHit| shown_hit(h, ctx))
    &&& one_line_each(response.results@)
    &&& response.auto_promoted_to_regex == (if plan.auto_promoted {
        Some(true)
    } else {
        None
    })
    &&& types::opt_text(response.suggested_tool) == hint
    &&& response.low_confidence == (if hint is Some {
        Some(true)
    } else {
        None
    })
    &&& types::opt_text(response.note) == response_note(
        plan.auto_promoted,
        query,
        plan.query.text@,
        hint,
    )
}

/// The answer in the form of `grep`.
pub open spec fn grep_answer(
    hits: Seq<LiteralHit>,
    ctx: MultiStoreContext,
    query: Seq<char>,
    plan: LiteralPlan,
) -> Seq<char> {
    let hint = literal_hint(top_score(hits), query);
    text::join_char(
        grep_comments(
            if plan.auto_promoted {
                Some(true)
            } else {
                None
            },
            if hint is Some {
                Some(true)
            } else {
                None
            },
            hint,
        ) + grep_lines(hits.map_values(|h: LiteralHit| shown_hit(h, ctx))),
        '\n',
    )
}

/// The answer to a literal search, from what the stores gave; `group` tells
/// whether several stores were asked.
pub fn literal_search(
    query: &str,
    plan: &LiteralPlan,
    filter: &LiteralFilter,
    ctx: &MultiStoreContext,
    group: bool,
    fetched: &Fetched,
) -> (r: LiteralReply)
    requires
        fetched.wf(),
    ensures
        match fetched.failure() {
            Some(m) => r matches LiteralReply::Message(t) && t@ == m,
            None => {
                let hits = found_hits(*fetched, *filter, *plan, group);
                if plan.grep {
                    r matches LiteralReply::Grep(t) && t@ == grep_answer(hits, *ctx, query@, *plan)
                } else {
                    r matches LiteralReply::Response(x) && answers(x, hits, *ctx, query@, *plan)
                }
            },
        },
{
    let ghost hits = found_hits(*fetched, *filter, *plan, group);
    let items = match fetched {
        Fetched::Chunks(stores) => scan_stores(stores, filter, &plan.query, plan.limit),
        Fetched::Candidates(cs) => {
            if group {
                resolve_candidates_multi(cs, filter, &plan.query, plan.limit)
            } else {
                resolve_candidates_single(cs, filter, &plan.query, plan.limit)
            }
        },
        Fetched::ScanFailed(e) => {
            return LiteralReply::Message(concat("Error scanning chunks: ", e.as_str()));
        },
        Fetched::SearchFailed(e) => {
            return LiteralReply::Message(concat("Error searching: ", e.as_str()));
        },
        Fetched::ResolveFailed(e) => {
            return LiteralReply::Message(concat("Error resolving search results: ", e.as_str()));
        },
    };
    let ghost found = hits_of(items@);
    let response = literal_response(items, ctx, query, plan);
    proof {
        assert(found == hits);
        assert(hits_of(response.results@) =~= hits.map_values(
            |h: LiteralHit| shown_hit(h, *ctx),
        ));
        assert(answers(response, hits, *ctx, query@, *plan));
    }
    if plan.grep {
        LiteralReply::Grep(format_grep(&response))
    } else {
        LiteralReply::Response(response)
    }
}

/// The chunks that a request asks for.
pub fn filter_of(request: &LiteralSearchRequest, project_path: &str) -> (r: LiteralFilter)
    ensures
        types::opt_text(r.language) == types::opt_text(request.language),
        types::opt_text(r.file_glob) == types::opt_text(request.file_glob),
        r.project_root@ == paths::normal_root(project_path@),
{
    LiteralFilter {
        language: types::copy_opt(&request.language),
        file_glob: types::copy_opt(&request.file_glob),
        project_root: paths::normalize_root(project_path),
    }
}

proof fn lemma_ranked_len(chunks: Seq<(ChunkMeta, Score)>, query: LiteralQuery)
    ensures
        ranked_hits(chunks, query).len() <= chunks.len(),
    decreases chunks.len(),
{
    if chunks.len() > 0 {
        lemma_ranked_len(chunks.drop_last(), query);
    }
}

/// A literal search never brings more than its limit, whatever the stores gave;
/// with a limit of 0 it brings nothing.
pub proof fn law_literal_keeps_limit(
    fetched: Fetched,
    filter: LiteralFilter,
    plan: LiteralPlan,
    group: bool,
)
    ensures
        found_hits(fetched, filter, plan, group).len() <= plan.limit,
{
    match fetched {
        Fetched::Candidates(cs) => {
            lemma_ranked_len(
                types::at_most(single_chunks(cs@, filter), plan.limit as int),
                plan.query,
            );
        },
        _ => {},
    }
}

/// Every match that a scan brings is the match of a chunk that the filter
/// admits, in one of the stores.
pub proof fn law_scan_brings_matches(
    stores: Seq<Vec<ChunkMeta>>,
    filter: LiteralFilter,
    query: LiteralQuery,
    limit: int,
    i: int,
)
    requires
        0 <= limit,
        0 <= i < scanned(stores, filter, query, limit).len(),
    ensures
        exists|k: int, c: int|
            0 <= k < stores.len() && 0 <= c < stores[k]@.len() && scan_hit(
                #[trigger] stores[k]@[c],
                filter,
                query,
            ) == Some(scanned(stores, filter, query, limit)[i]),
{
    lemma_store_hit_source(stores, filter, query, i);
}

proof fn lemma_scan_hit_source(
    chunks: Seq<ChunkMeta>,
    filter: LiteralFilter,
    query: LiteralQuery,
    i: int,
)
    requires
        0 <= i < scan_hits(chunks, filter, query).len(),
    ensures
        exists|c: int|
            0 <= c < chunks.len() && scan_hit(#[trigger] chunks[c], filter, query) == Some(
                scan_hits(chunks, filter, query)[i],
            ),
    decreases chunks.len(),
{
    let front = chunks.drop_last();
    let before = scan_hits(front, filter, query);
    if i < before.len() {
        lemma_scan_hit_source(front, filter, query, i);
        let c = choose|c: int|
            0 <= c < front.len() && scan_hit(#[trigger] front[c], filter, query) == Some(before[i]);
        assert(chunks[c] == front[c]);
    } else {
        assert(scan_hit(chunks[chunks.len() - 1], filter, query) == Some(
            scan_hits(chunks, filter, query)[i],
        ));
    }
}

proof fn lemma_store_hit_source(
    stores: Seq<Vec<ChunkMeta>>,
    filter: LiteralFilter,
    query: LiteralQuery,
    i: int,
)
    requires
        0 <= i < store_hits(stores, filter, query).len(),
    ensures
        exists|k: int, c: int|
            0 <= k < stores.len() && 0 <= c < stores[k]@.len() && scan_hit(
                #[trigger] stores[k]@[c],
                filter,
                query,
            ) == Some(store_hits(stores, filter, query)[i]),
    decreases stores.len(),
{
    let front = stores.drop_last();
    let before = store_hits(front, filter, query);
    let all = store_hits(stores, filter, query);
    if i < before.len() {
        lemma_store_hit_source(front, filter, query, i);
        let (k, c) = choose|k: int, c: int|
            0 <= k < front.len() && 0 <= c < front[k]@.len() && scan_hit(
                #[trigger] front[k]@[c],
                filter,
                query,
            ) == Some(before[i]);
        assert(stores[k] == front[k]);
        assert(scan_hit(stores[k]@[c], filter, query) == Some(all[i]));
    } else {
        let last = stores.last()@;
        lemma_scan_hit_source(last, filter, query, i - before.len());
        let c = choose|c: int|
            0 <= c < last.len() && scan_hit(#[trigger] last[c], filter, query) == Some(
                scan_hits(last, filter, query)[i - before.len()],
            );
        let k = stores.len() - 1;
        assert(scan_hit(stores[k]@[c], filter, query) == Some(all[i]));
    }
}

/// A scan that stays below its limit brings the match of every chunk that has
/// one.
pub proof fn law_scan_is_complete(
    stores: Seq<Vec<ChunkMeta>>,
    filter: LiteralFilter,
    query: LiteralQuery,
    limit: int,
    k: int,
    c: int,
)
    requires
        0 < limit,
        scanned(stores, filter, query, limit).len() < limit,
        0 <= k < stores.len(),
        0 <= c < stores[k]@.len(),
        scan_hit(stores[k]@[c], filter, query) is Some,
    ensures
        scanned(stores, filter, query, limit).contains(
            scan_hit(stores[k]@[c], filter, query)->0,
        ),
{
    lemma_store_hit_kept(stores, filter, query, k, c);
}

proof fn lemma_scan_hit_kept(
    chunks: Seq<ChunkMeta>,
    filter: LiteralFilter,
    query: LiteralQuery,
    c: int,
)
    requires
        0 <= c < chunks.len(),
        scan_hit(chunks[c], filter, query) is Some,
    ensures
        scan_hits(chunks, filter, query).contains(scan_hit(chunks[c], filter, query)->0),
    decreases chunks.len(),
{
    let front = chunks.drop_last();
    let before = scan_hits(front, filter, query);
    let all = scan_hits(chunks, filter, query);
    let hit = scan_hit(chunks[c], filter, query)->0;
    if c < front.len() {
        assert(front[c] == chunks[c]);
        lemma_scan_hit_kept(front, filter, query, c);
        let i = choose|i: int| 0 <= i < before.len() && before[i] == hit;
        assert(all[i] == hit);
    } else {
        assert(all[before.len() as int] == hit);
    }
}

proof fn lemma_store_hit_kept(
    stores: Seq<Vec<ChunkMeta>>,
    filter: LiteralFilter,
    query: LiteralQuery,
    k: int,
    c: int,
)
    requires
        0 <= k < stores.len(),
        0 <= c < stores[k]@.len(),
        scan_hit(stores[k]@[c], filter, query) is Some,
    ensures
        store_hits(stores, filter, query).contains(scan_hit(stores[k]@[c], filter, query)->0),
    decreases stores.len(),
{
    let front = stores.drop_last();
    let before = store_hits(front, filter, query);
    let all = store_hits(stores, filter, query);
    let hit = scan_hit(stores[k]@[c], filter, query)->0;
    if k < front.len() {
        assert(front[k] == stores[k]);
        lemma_store_hit_kept(front, filter, query, k, c);
        let i = choose|i: int| 0 <= i < before.len() && before[i] == hit;
        assert(all[i] == hit);
    } else {
        let last = scan_hits(stores.last()@, filter, query);
        lemma_scan_hit_kept(stores.last()@, filter, query, c);
        let i = choose|i: int| 0 <= i < last.len() && last[i] == hit;
        assert(all[before.len() + i] == hit);
    }
}

/// A search considers a chunk where the file has the language that is asked for,
/// if one is, and where the path behind the root matches the glob, if there is
/// one; and no other chunk.
pub proof fn law_considered_chunks(filter: LiteralFilter, chunk: ChunkMeta, rel: Seq<char>)
    requires
        chunk.path@ == filter.project_root@.push('/') + rel,
        rel.len() > 0 ==> rel[0] != '/',
    ensures
        filter.passes(chunk) <==> {
            &&& filter.language is Some ==> chunk.language@ == filter.language->0@
            &&& filter.file_glob is Some ==> glob::glob_matches(filter.file_glob->0@, rel)
        },
{
    let root = filter.project_root@;
    assert(chunk.path@.subrange(0, root.len() as int) =~= root);
    assert(chunk.path@.skip(root.len() as int) =~= seq!['/'] + rel);
    assert(seq!['/'] =~= Seq::new(1, |i: int| '/'));
    text::law_strip(1, '/', rel);
}

/// A chunk whose file has another language than the one that is asked for is
/// never considered; with neither a language nor a glob every chunk is.
pub proof fn law_language_is_kept(filter: LiteralFilter, chunk: ChunkMeta)
    ensures
        filter.passes(chunk) && filter.language is Some ==> chunk.language@ == filter.language->0@,
        filter.language is None && filter.file_glob is None ==> filter.passes(chunk),
        filter.file_glob is None && filter.language is Some && chunk.language@
            == filter.language->0@ ==> filter.passes(chunk),
{
}

/// A window of a line has the place in its middle, as far as the ends allow; a
/// line that is short enough stays whole.
pub proof fn law_snippet_is_centred(line: Seq<char>, at: int)
    requires
        0 <= at <= line.len(),
    ensures
        line.len() <= 200 ==> windowed(line, at, SNIPPET_CHARS as int) == line,
        line.len() > 200 && at <= 100 ==> windowed(line, at, SNIPPET_CHARS as int) == line.take(200),
        line.len() > 200 && 100 < at && at + 100 <= line.len() ==> windowed(
            line,
            at,
            SNIPPET_CHARS as int,
        ) == line.subrange(at - 100, at + 100),
        line.len() > 200 && at + 100 > line.len() ==> windowed(line, at, SNIPPET_CHARS as int)
            == line.skip(line.len() - 200),
{
    if line.len() > 200 {
        assert(line.take(200) =~= line.subrange(0, 200));
        assert(line.skip(line.len() - 200) =~= line.subrange(line.len() - 200, line.len() as int));
    }
}

proof fn lemma_first_match(all: Seq<Seq<char>>, query: Seq<char>, re: Option<regex::Regex>, i: int)
    requires
        0 <= i <= all.len(),
    ensures
        match first_match_from(all, query, re, i) {
            Some((k, at)) => i <= k < all.len() && line_match(all[k], query, re) == Some(at)
                && forall|j: int| i <= j < k ==> line_match(#[trigger] all[j], query, re) is None,
            None => forall|j: int|
                i <= j < all.len() ==> line_match(#[trigger] all[j], query, re) is None,
        },
    decreases all.len() - i,
{
    if i < all.len() && line_match(all[i], query, re) is None {
        lemma_first_match(all, query, re, i + 1);
    }
}

/// A text is found in a content where some line holds it, at the first line that
/// does; an empty text is found nowhere. A line of up to 200 characters is shown
/// whole.
pub proof fn law_match_is_first_line(content: Seq<char>, query: Seq<char>, j: int)
    ensures
        query.len() == 0 ==> content_match(content, query, None) is None,
        query.len() > 0 ==> match content_match(content, query, None) {
            Some((i, snippet)) => {
                let lines = text::text_lines(content);
                &&& 0 <= i < lines.len()
                &&& text::has_text(lines[i], query)
                &&& 0 <= j < i ==> !text::has_text(lines[j], query)
                &&& lines[i].len() <= 200 ==> snippet == lines[i]
                &&& lines[i].len() > 200 ==> snippet.len() == 200 && text::has_text(
                    lines[i],
                    snippet,
                )
            },
            None => 0 <= j < text::text_lines(content).len() ==> !text::has_text(
                text::text_lines(content)[j],
                query,
            ),
        },
{
    let lines = text::text_lines(content);
    lemma_first_match(lines, query, None, 0);
    if query.len() > 0 {
        match first_match_from(lines, query, None, 0) {
            Some((i, at)) => {
                if 0 <= j < i {
                    assert(line_match(lines[j], query, None) is None);
                }
                text::law_found_text_is_there(lines[i], query);
                if lines[i].len() > 200 {
                    let s = window_start(lines[i].len() as int, at, 200);
                    assert(0 <= s <= lines[i].len() - 200);
                    let snippet = windowed(lines[i], at, 200);
                    assert(text::occurs_at(lines[i], snippet, s));
                }
            },
            None => {
                if 0 <= j < lines.len() {
                    assert(line_match(lines[j], query, None) is None);
                }
            },
        }
    }
}

/// A regular expression is found in a content where it matches some line, at the
/// first line that it matches.
pub proof fn law_pattern_match_is_first_line(
    content: Seq<char>,
    query: Seq<char>,
    re: regex::Regex,
    j: int,
)
    requires
        query.len() > 0,
    ensures
        match content_match(content, query, Some(re)) {
            Some((i, snippet)) => {
                let lines = text::text_lines(content);
                &&& 0 <= i < lines.len()
                &&& regexes::regex_match_start(re, lines[i]) is Some
                &&& 0 <= j < i ==> regexes::regex_match_start(re, lines[j]) is None
                &&& lines[i].len() <= 200 ==> snippet == lines[i]
            },
            None => 0 <= j < text::text_lines(content).len() ==> regexes::regex_match_start(
                re,
                text::text_lines(content)[j],
            ) is None,
        },
{
    let lines = text::text_lines(content);
    lemma_first_match(lines, query, Some(re), 0);
    match first_match_from(lines, query, Some(re), 0) {
        Some((i, at)) => {
            if 0 <= j < i {
                assert(line_match(lines[j], query, Some(re)) is None);
            }
        },
        None => {
            if 0 <= j < lines.len() {
                assert(line_match(lines[j], query, Some(re)) is None);
            }
        },
    }
}

/// Where nothing matches in a chunk of the full-text search, a plain search
/// still shows its first line; a search by a regular expression leaves it out.
pub proof fn law_unmatched_candidate(chunk: ChunkMeta, query: LiteralQuery, score: Score)
    requires
        content_match(chunk.content@, query.text@, query.regex) is None,
    ensures
        query.regex_enabled ==> ranked_hit(chunk, query, score) is None,
        !query.regex_enabled ==> {
            &&& ranked_hit(chunk, query, score) matches Some(h)
            &&& h.path == chunk.path@
            &&& h.line == chunk.start_line
            &&& h.score == score
            &&& text::text_lines(chunk.content@).len() > 0 ==> h.snippet == text::text_lines(
                chunk.content@,
            )[0]
            &&& text::text_lines(chunk.content@).len() == 0 ==> h.snippet.len() == 0
        },
{
}

/// A match stands in the file of its chunk, as many lines below the first line
/// of the chunk as its line has in it, with the score of its hit and the kind
/// and the signature of the chunk.
pub proof fn law_match_of_a_chunk(chunk: ChunkMeta, query: LiteralQuery, score: Score)
    requires
        content_match(chunk.content@, query.text@, query.regex) is Some,
    ensures
        ranked_hit(chunk, query, score) matches Some(h) && {
            let (offset, snippet) = content_match(chunk.content@, query.text@, query.regex)->0;
            &&& h.path == chunk.path@
            &&& h.line == chunk.start_line + offset
            &&& h.snippet == snippet
            &&& h.score == score
            &&& chunk.kind@.len() > 0 ==> h.kind == Some(chunk.kind@)
            &&& chunk.kind@.len() == 0 ==> h.kind is None
            &&& chunk.signature is None ==> h.signature is None
            &&& chunk.signature is Some && chunk.signature->0@.len() > 0 ==> h.signature == Some(
                chunk.signature->0@,
            )
        },
{
}

/// A scan reports, in their order and each once, the chunks that have the
/// language, match the glob and hold a match, each at its match.
pub proof fn law_scan_selects(chunks: Seq<ChunkMeta>, filter: LiteralFilter, query: LiteralQuery) -> (places:
    Seq<int>)
    ensures
        sorting::selects(
            places,
            chunks.len() as int,
            |i: int|
                {
                    &&& filter.language is Some ==> chunks[i].language@ == filter.language->0@
                    &&& filter.file_glob is Some ==> glob::glob_matches(
                        filter.file_glob->0@,
                        paths::relative_to(chunks[i].path@, filter.project_root@),
                    )
                    &&& content_match(chunks[i].content@, query.text@, query.regex) is Some
                },
        ),
        scan_hits(chunks, filter, query).len() == places.len(),
        forall|k: int|
            0 <= k < places.len() ==> {
                let h = #[trigger] scan_hits(chunks, filter, query)[k];
                let c = chunks[places[k]];
                let (offset, snippet) = content_match(c.content@, query.text@, query.regex)->0;
                h.path == c.path@ && h.line == c.start_line + offset && h.snippet == snippet
                    && h.score.bits == 0
            },
    decreases chunks.len(),
{
    if chunks.len() == 0 {
        Seq::empty()
    } else {
        let front = chunks.drop_last();
        let n = chunks.len() - 1;
        let before = law_scan_selects(front, filter, query);
        let first = scan_hits(front, filter, query);
        let all = scan_hits(chunks, filter, query);
        let places = sorting::lemma_selects_step(
            before,
            n,
            |i: int|
                {
                    &&& filter.language is Some ==> front[i].language@ == filter.language->0@
                    &&& filter.file_glob is Some ==> glob::glob_matches(
                        filter.file_glob->0@,
                        paths::relative_to(front[i].path@, filter.project_root@),
                    )
                    &&& content_match(front[i].content@, query.text@, query.regex) is Some
                },
            |i: int|
                {
                    &&& filter.language is Some ==> chunks[i].language@ == filter.language->0@
                    &&& filter.file_glob is Some ==> glob::glob_matches(
                        filter.file_glob->0@,
                        paths::relative_to(chunks[i].path@, filter.project_root@),
                    )
                    &&& content_match(chunks[i].content@, query.text@, query.regex) is Some
                },
        );
        assert forall|k: int| 0 <= k < places.len() implies ({
            let h = #[trigger] all[k];
            let c = chunks[places[k]];
            let (offset, snippet) = content_match(c.content@, query.text@, query.regex)->0;
            h.path == c.path@ && h.line == c.start_line + offset && h.snippet == snippet
                && h.score.bits == 0
        }) by {
            if k < before.len() {
                assert(all[k] == first[k]);
                assert(front[before[k]] == chunks[places[k]]);
            }
        }
        places
    }
}

/// The matches of several stores stand one store behind the other.
pub proof fn law_scan_of_every_store(
    stores: Seq<Vec<ChunkMeta>>,
    more: Seq<Vec<ChunkMeta>>,
    store: Vec<ChunkMeta>,
    filter: LiteralFilter,
    query: LiteralQuery,
)
    ensures
        store_hits(seq![store], filter, query) == scan_hits(store@, filter, query),
        store_hits(stores + more, filter, query) == store_hits(stores, filter, query) + store_hits(
            more,
            filter,
            query,
        ),
    decreases more.len(),
{
    let one = seq![store];
    assert(one.drop_last() =~= Seq::empty());
    assert(store_hits(one.drop_last(), filter, query) =~= Seq::empty());
    assert(one.last() == store);
    assert(store_hits(one, filter, query) =~= scan_hits(store@, filter, query));
    if more.len() == 0 {
        assert(stores + more =~= stores);
        assert(store_hits(stores, filter, query) + store_hits(more, filter, query) =~= store_hits(
            stores,
            filter,
            query,
        ));
    } else {
        law_scan_of_every_store(stores, more.drop_last(), store, filter, query);
        assert((stores + more).drop_last() =~= stores + more.drop_last());
        assert(store_hits(stores + more, filter, query) =~= store_hits(stores, filter, query)
            + store_hits(more, filter, query));
    }
}

/// A search that reads every chunk brings the first of their matches, up to its
/// limit.
pub proof fn law_scan_stops_at_the_limit(
    stores: Vec<Vec<ChunkMeta>>,
    filter: LiteralFilter,
    plan: LiteralPlan,
    group: bool,
    i: int,
)
    ensures
        ({
            let all = store_hits(stores@, filter, plan.query);
            let found = found_hits(Fetched::Chunks(stores), filter, plan, group);
            &&& found.len() == (if all.len() < plan.limit {
                all.len() as int
            } else {
                plan.limit as int
            })
            &&& 0 <= i < found.len() ==> found[i] == all[i]
        }),
{
}

proof fn lemma_candidate_hit(c: Candidate, filter: LiteralFilter, query: LiteralQuery, k: int) -> (s:
    int)
    requires
        0 <= k <= c.chunks@.len(),
    ensures
        match candidate_hit_from(c, filter, query, k) {
            Some(h) => k <= s < c.chunks@.len() && c.chunks@[s] is Some && filter.passes(
                c.chunks@[s]->0,
            ) && ranked_hit(c.chunks@[s]->0, query, c.score) == Some(h),
            None => forall|j: int|
                k <= j < c.chunks@.len() && (#[trigger] c.chunks@[j]) is Some && filter.passes(
                    c.chunks@[j]->0,
                ) ==> ranked_hit(c.chunks@[j]->0, query, c.score) is None,
        },
    decreases c.chunks@.len() - k,
{
    if k < c.chunks@.len() && !(c.chunks@[k] is Some && filter.passes(c.chunks@[k]->0)
        && ranked_hit(c.chunks@[k]->0, query, c.score) is Some) {
        lemma_candidate_hit(c, filter, query, k + 1)
    } else {
        k
    }
}

/// In a search of several repositories a hit of the full-text search is reported
/// from one of its chunks with the language and the glob that are asked for, and
/// with its score. It is left out only where no such chunk has a match, or is
/// shown without one.
pub proof fn law_group_candidate(c: Candidate, filter: LiteralFilter, query: LiteralQuery, j: int) -> (s:
    int)
    ensures
        match candidate_hit_from(c, filter, query, 0) {
            Some(h) => {
                &&& 0 <= s < c.chunks@.len()
                &&& c.chunks@[s] is Some
                &&& filter.language is Some ==> c.chunks@[s]->0.language@ == filter.language->0@
                &&& filter.file_glob is Some ==> glob::glob_matches(
                    filter.file_glob->0@,
                    paths::relative_to(c.chunks@[s]->0.path@, filter.project_root@),
                )
                &&& h.path == c.chunks@[s]->0.path@
                &&& h.score == c.score
                &&& h.line >= c.chunks@[s]->0.start_line
                &&& query.regex_enabled ==> content_match(
                    c.chunks@[s]->0.content@,
                    query.text@,
                    query.regex,
                ) is Some
            },
            None => 0 <= j < c.chunks@.len() && c.chunks@[j] is Some && (filter.language is Some
                ==> c.chunks@[j]->0.language@ == filter.language->0@) && (filter.file_glob is Some
                ==> glob::glob_matches(
                filter.file_glob->0@,
                paths::relative_to(c.chunks@[j]->0.path@, filter.project_root@),
            )) ==> query.regex_enabled && content_match(
                c.chunks@[j]->0.content@,
                query.text@,
                query.regex,
            ) is None,
        },
{
    let s = lemma_candidate_hit(c, filter, query, 0);
    match candidate_hit_from(c, filter, query, 0) {
        Some(h) => {
            let chunk = c.chunks@[s]->0;
            lemma_match_line(chunk.content@, query.text@, query.regex);
        },
        None => {},
    }
    s
}

proof fn lemma_match_line(content: Seq<char>, query: Seq<char>, re: Option<regex::Regex>)
    ensures
        content_match(content, query, re) matches Some((i, s)) ==> 0 <= i < text::text_lines(
            content,
        ).len(),
{
    lemma_first_match(text::text_lines(content), query, re, 0);
}

/// A search of several repositories reports its candidates in their order, each
/// at most once, and the first of them up to its limit.
pub proof fn law_group_search(
    candidates: Vec<Candidate>,
    filter: LiteralFilter,
    plan: LiteralPlan,
) -> (places: Seq<int>)
    ensures
        sorting::selects(
            places,
            candidates@.len() as int,
            |i: int| candidate_hit_from(candidates@[i], filter, plan.query, 0) is Some,
        ),
        ({
            let found = found_hits(Fetched::Candidates(candidates), filter, plan, true);
            &&& found.len() == (if places.len() < plan.limit {
                places.len() as int
            } else {
                plan.limit as int
            })
            &&& forall|k: int|
                0 <= k < found.len() ==> Some(#[trigger] found[k]) == candidate_hit_from(
                    candidates@[places[k]],
                    filter,
                    plan.query,
                    0,
                )
        }),
{
    lemma_candidate_places(candidates@, filter, plan.query)
}

proof fn lemma_candidate_places(
    candidates: Seq<Candidate>,
    filter: LiteralFilter,
    query: LiteralQuery,
) -> (places: Seq<int>)
    ensures
        sorting::selects(
            places,
            candidates.len() as int,
            |i: int| candidate_hit_from(candidates[i], filter, query, 0) is Some,
        ),
        candidate_hits(candidates, filter, query).len() == places.len(),
        forall|k: int|
            0 <= k < places.len() ==> Some(#[trigger] candidate_hits(candidates, filter, query)[k])
                == candidate_hit_from(candidates[places[k]], filter, query, 0),
    decreases candidates.len(),
{
    if candidates.len() == 0 {
        Seq::empty()
    } else {
        let front = candidates.drop_last();
        let n = candidates.len() - 1;
        let before = lemma_candidate_places(front, filter, query);
        let first = candidate_hits(front, filter, query);
        let all = candidate_hits(candidates, filter, query);
        let places = sorting::lemma_selects_step(
            before,
            n,
            |i: int| candidate_hit_from(front[i], filter, query, 0) is Some,
            |i: int| candidate_hit_from(candidates[i], filter, query, 0) is Some,
        );
        assert forall|k: int| 0 <= k < places.len() implies Some(#[trigger] all[k])
            == candidate_hit_from(candidates[places[k]], filter, query, 0) by {
            if k < before.len() {
                assert(all[k] == first[k]);
                assert(front[before[k]] == candidates[places[k]]);
            }
        }
        places
    }
}

proof fn lemma_single_places(candidates: Seq<Candidate>, filter: LiteralFilter) -> (places: Seq<int>)
    ensures
        sorting::selects(
            places,
            candidates.len() as int,
            |i: int|
                {
                    &&& candidates[i].chunks@.len() > 0
                    &&& candidates[i].chunks@[0] is Some
                    &&& filter.language is Some ==> candidates[i].chunks@[0]->0.language@
                        == filter.language->0@
                    &&& filter.file_glob is Some ==> glob::glob_matches(
                        filter.file_glob->0@,
                        paths::relative_to(
                            candidates[i].chunks@[0]->0.path@,
                            filter.project_root@,
                        ),
                    )
                },
        ),
        single_chunks(candidates, filter).len() == places.len(),
        forall|k: int|
            0 <= k < places.len() ==> #[trigger] single_chunks(candidates, filter)[k] == (
                candidates[places[k]].chunks@[0]->0,
                candidates[places[k]].score,
            ),
    decreases candidates.len(),
{
    if candidates.len() == 0 {
        Seq::empty()
    } else {
        let front = candidates.drop_last();
        let n = candidates.len() - 1;
        let before = lemma_single_places(front, filter);
        let first = single_chunks(front, filter);
        let all = single_chunks(candidates, filter);
        let places = sorting::lemma_selects_step(
            before,
            n,
            |i: int|
                {
                    &&& front[i].chunks@.len() > 0
                    &&& front[i].chunks@[0] is Some
                    &&& filter.language is Some ==> front[i].chunks@[0]->0.language@
                        == filter.language->0@
                    &&& filter.file_glob is Some ==> glob::glob_matches(
                        filter.file_glob->0@,
                        paths::relative_to(front[i].chunks@[0]->0.path@, filter.project_root@),
                    )
                },
            |i: int|
                {
                    &&& candidates[i].chunks@.len() > 0
                    &&& candidates[i].chunks@[0] is Some
                    &&& filter.language is Some ==> candidates[i].chunks@[0]->0.language@
                        == filter.language->0@
                    &&& filter.file_glob is Some ==> glob::glob_matches(
                        filter.file_glob->0@,
                        paths::relative_to(
                            candidates[i].chunks@[0]->0.path@,
                            filter.project_root@,
                        ),
                    )
                },
        );
        assert forall|k: int| 0 <= k < places.len() implies #[trigger] all[k] == (
            candidates[places[k]].chunks@[0]->0,
            candidates[places[k]].score,
        ) by {
            if k < before.len() {
                assert(all[k] == first[k]);
                assert(front[before[k]] == candidates[places[k]]);
            }
        }
        places
    }
}

/// A search of one repository takes the first candidates up to its limit whose
/// chunk has the language and matches the glob, in their order.
pub proof fn law_single_search(candidates: Seq<Candidate>, filter: LiteralFilter, limit: nat) -> (places:
    Seq<int>)
    ensures
        sorting::selects(
            places,
            candidates.len() as int,
            |i: int|
                {
                    &&& candidates[i].chunks@.len() > 0
                    &&& candidates[i].chunks@[0] is Some
                    &&& filter.language is Some ==> candidates[i].chunks@[0]->0.language@
                        == filter.language->0@
                    &&& filter.file_glob is Some ==> glob::glob_matches(
                        filter.file_glob->0@,
                        paths::relative_to(
                            candidates[i].chunks@[0]->0.path@,
                            filter.project_root@,
                        ),
                    )
                },
        ),
        ({
            let taken = types::at_most(single_chunks(candidates, filter), limit as int);
            &&& taken.len() == (if places.len() < limit {
                places.len() as int
            } else {
                limit as int
            })
            &&& forall|k: int|
                0 <= k < taken.len() ==> #[trigger] taken[k] == (
                    candidates[places[k]].chunks@[0]->0,
                    candidates[places[k]].score,
                )
        }),
{
    lemma_single_places(candidates, filter)
}

/// Of the chunks that a search of one repository takes it reports each, in their
/// order, but for those without a match of its regular expression.
pub proof fn law_taken_chunks_are_reported(chunks: Seq<(ChunkMeta, Score)>, query: LiteralQuery) -> (places:
    Seq<int>)
    ensures
        sorting::selects(
            places,
            chunks.len() as int,
            |i: int|
                !query.regex_enabled || content_match(
                    chunks[i].0.content@,
                    query.text@,
                    query.regex,
                ) is Some,
        ),
        ranked_hits(chunks, query).len() == places.len(),
        forall|k: int|
            0 <= k < places.len() ==> {
                let h = #[trigger] ranked_hits(chunks, query)[k];
                h.path == chunks[places[k]].0.path@ && h.score == chunks[places[k]].1 && Some(h)
                    == ranked_hit(chunks[places[k]].0, query, chunks[places[k]].1)
            },
    decreases chunks.len(),
{
    if chunks.len() == 0 {
        Seq::empty()
    } else {
        let front = chunks.drop_last();
        let n = chunks.len() - 1;
        let before = law_taken_chunks_are_reported(front, query);
        let first = ranked_hits(front, query);
        let all = ranked_hits(chunks, query);
        let places = sorting::lemma_selects_step(
            before,
            n,
            |i: int|
                !query.regex_enabled || content_match(
                    front[i].0.content@,
                    query.text@,
                    query.regex,
                ) is Some,
            |i: int|
                !query.regex_enabled || content_match(
                    chunks[i].0.content@,
                    query.text@,
                    query.regex,
                ) is Some,
        );
        assert forall|k: int| 0 <= k < places.len() implies ({
            let h = #[trigger] all[k];
            h.path == chunks[places[k]].0.path@ && h.score == chunks[places[k]].1 && Some(h)
                == ranked_hit(chunks[places[k]].0, query, chunks[places[k]].1)
        }) by {
            if k < before.len() {
                assert(all[k] == first[k]);
                assert(front[before[k]] == chunks[places[k]]);
            }
        }
        places
    }
}

/// Every hit of a literal search that names a language comes from a chunk of
/// that language, however the chunks were fetched.
pub proof fn law_hits_have_the_language(
    fetched: Fetched,
    filter: LiteralFilter,
    plan: LiteralPlan,
    group: bool,
    i: int,
) -> (chunk: ChunkMeta)
    requires
        filter.language is Some,
        0 <= i < found_hits(fetched, filter, plan, group).len(),
    ensures
        chunk.language@ == filter.language->0@,
        chunk.path@ == found_hits(fetched, filter, plan, group)[i].path,
        match fetched {
            Fetched::Chunks(stores) => exists|k: int|
                0 <= k < stores@.len() && (#[trigger] stores@[k])@.contains(chunk),
            Fetched::Candidates(cs) => exists|k: int|
                0 <= k < cs@.len() && (#[trigger] cs@[k]).chunks@.contains(Some(chunk)),
            _ => false,
        },
{
    let found = found_hits(fetched, filter, plan, group);
    match fetched {
        Fetched::Chunks(stores) => {
            law_scan_brings_matches(stores@, filter, plan.query, plan.limit as int, i);
            let (k, c) = choose|k: int, c: int|
                0 <= k < stores@.len() && 0 <= c < stores@[k]@.len() && scan_hit(
                    #[trigger] stores@[k]@[c],
                    filter,
                    plan.query,
                ) == Some(found[i]);
            assert(stores@[k]@.contains(stores@[k]@[c]));
            stores@[k]@[c]
        },
        Fetched::Candidates(cs) => {
            if group {
                let places = law_group_search(cs, filter, plan);
                let c = cs@[places[i]];
                let s = law_group_candidate(c, filter, plan.query, 0);
                assert(Some(found[i]) == candidate_hit_from(c, filter, plan.query, 0));
                assert(c.chunks@.contains(c.chunks@[s]));
                assert(c.chunks@[s] == Some(c.chunks@[s]->0));
                c.chunks@[s]->0
            } else {
                let places = law_single_search(cs@, filter, plan.limit as nat);
                let taken = types::at_most(single_chunks(cs@, filter), plan.limit as int);
                let shown = law_taken_chunks_are_reported(taken, plan.query);
                let c = cs@[places[shown[i]]];
                assert(found[i] == ranked_hits(taken, plan.query)[i]);
                assert(0 <= shown[i] < taken.len());
                assert(taken[shown[i]] == (c.chunks@[0]->0, c.score));
                let wanted = |i: int|
                    {
                        &&& cs@[i].chunks@.len() > 0
                        &&& cs@[i].chunks@[0] is Some
                        &&& filter.language is Some ==> cs@[i].chunks@[0]->0.language@
                            == filter.language->0@
                        &&& filter.file_glob is Some ==> glob::glob_matches(
                            filter.file_glob->0@,
                            paths::relative_to(cs@[i].chunks@[0]->0.path@, filter.project_root@),
                        )
                    };
                assert(wanted(places[shown[i]]));
                assert(c.chunks@.contains(c.chunks@[0]));
                assert(c.chunks@[0] == Some(c.chunks@[0]->0));
                c.chunks@[0]->0
            }
        },
        _ => arbitrary(),
    }
}

/// A plan brings twenty results where the request names no number. It runs the
/// query as it stands, as a regular expression only where the request asks for
/// that, or where the query looks like code and the request asks for neither a
/// regular expression nor a phrase; then its text is escaped.
pub proof fn law_literal_plan(plan: LiteralPlan, request: LiteralSearchRequest)
    requires
        plan.is_for(request),
    ensures
        request.limit is None ==> plan.limit == 20,
        request.limit is Some ==> Some(plan.limit) == request.limit,
        plan.phrase <==> request.phrase == Some(true),
        request.regex == Some(true) ==> plan.query.regex_enabled && !plan.auto_promoted
            && plan.query.text@ == request.query@,
        request.phrase == Some(true) ==> !plan.auto_promoted && plan.query.text@ == request.query@,
        request.regex != Some(true) && request.phrase != Some(true) ==> (plan.auto_promoted
            <==> pattern::is_code_pattern(request.query@)),
        plan.auto_promoted ==> plan.query.regex_enabled,
        !plan.auto_promoted ==> plan.query.text@ == request.query@,
        plan.query.regex_enabled ==> plan.auto_promoted || request.regex == Some(true),
        !plan.query.regex_enabled ==> plan.query.regex is None && !plan.scan,
        plan.query.regex_enabled ==> plan.query.regex == regexes::regex_compiled(plan.query.text@),
        plan.scan ==> plan.query.regex is Some,
        plan.query.regex is Some && pattern::has_bar(plan.query.text@) ==> plan.scan,
        plan.query.regex is Some && !pattern::has_token(plan.query.text@) ==> plan.scan,
        plan.scan ==> pattern::has_bar(plan.query.text@) || !pattern::has_token(plan.query.text@),
        request.format is None ==> !plan.grep,
        request.format is Some ==> (plan.grep <==> request.format->0@ == "grep"@),
{
}

/// A query that becomes a regular expression is escaped character by character,
/// and each of its spaces takes any white space.
pub proof fn law_promotion(query: Seq<char>, c: char)
    ensures
        promoted(Seq::empty()) == Seq::<char>::empty(),
        promoted(query.push(' ')) == promoted(query) + seq!['\\', 's', '+'],
        c != ' ' && regexes::is_meta(c) ==> promoted(query.push(c)) == promoted(query) + seq![
            '\\',
            c,
        ],
        c != ' ' && !regexes::is_meta(c) ==> promoted(query.push(c)) == promoted(query) + seq![c],
{
    let e = regexes::escaped(query);
    assert(query.push(' ').drop_last() =~= query);
    assert(query.push(c).drop_last() =~= query);
    assert(e.push(' ').drop_last() =~= e);
    assert(e.push(c).drop_last() =~= e);
    assert(e.push('\\').push(c).drop_last() =~= e.push('\\'));
    assert(e.push('\\').drop_last() =~= e);
    if c != ' ' && regexes::is_meta(c) {
        assert(query.push(c).last() == c);
        assert(regexes::escaped(query.push(c)) == e.push('\\').push(c));
        assert(e.push('\\').last() == '\\');
        assert(relaxed(e.push('\\')) == relaxed(e).push('\\'));
        assert(e.push('\\').push(c).last() == c);
        assert(relaxed(e.push('\\').push(c)) == relaxed(e.push('\\')).push(c));
    }
    assert(relaxed(e).push('\\').push(c) =~= relaxed(e) + seq!['\\', c]);
    assert(relaxed(e).push(c) =~= relaxed(e) + seq![c]);
}

/// Where nothing is found, prose is sent to the semantic search and everything
/// else to a regular expression. A match with a score of 5.0 or more needs no
/// hint, nor does one of a single word; below that prose is sent to the semantic
/// search and code to the symbols.
pub proof fn law_literal_hint(top: Option<Score>, query: Seq<char>)
    ensures
        ({
            let words = text::words_of(query).len();
            let code = exists|i: int| 0 <= i < query.len() && is_code_char(#[trigger] query[i]);
            &&& top is None && words >= 3 && !code ==> literal_hint(top, query) == Some(
                "search with mode='semantic'"@,
            )
            &&& top is None && (words < 3 || code) ==> literal_hint(top, query) == Some(
                "search with mode='literal' and regex=true"@,
            )
            &&& top is Some && 0x40a0_0000 <= top->0.bits <= 0x7f80_0000 ==> literal_hint(top, query)
                is None
            &&& top is Some && words == 1 && !code ==> literal_hint(top, query) is None
            &&& top is Some && top->0.bits < 0x40a0_0000 && words >= 3 && !code ==> literal_hint(
                top,
                query,
            ) == Some("search with mode='semantic'"@)
            &&& top is Some && top->0.bits < 0x40a0_0000 && (words == 2 || code) ==> literal_hint(
                top,
                query,
            ) == Some("find with kind='definition' or kind='usages'"@)
        }),
{
}

/// A response says of each hit, in their order, its line, its snippet and its
/// score, under the path that the request shows; it tells where the query was
/// made a regular expression, and where the results deserve little trust.
pub proof fn law_literal_response(
    response: LiteralSearchResponse,
    hits: Seq<LiteralHit>,
    ctx: MultiStoreContext,
    query: Seq<char>,
    plan: LiteralPlan,
    i: int,
)
    requires
        answers(response, hits, ctx, query, plan),
    ensures
        response.results@.len() == hits.len(),
        0 <= i < hits.len() ==> {
            let item = response.results@[i];
            &&& item.path@ == ctx.shown_path(hits[i].path)
            &&& item.start_line == hits[i].line
            &&& item.end_line == hits[i].line
            &&& item.snippet@ == hits[i].snippet
            &&& item.score == hits[i].score
        },
        response.auto_promoted_to_regex == Some(true) <==> plan.auto_promoted,
        response.auto_promoted_to_regex is None <==> !plan.auto_promoted,
        response.low_confidence == Some(true) <==> response.suggested_tool is Some,
        response.low_confidence is None <==> response.suggested_tool is None,
        hits.len() == 0 ==> types::opt_text(response.suggested_tool) == literal_hint(None, query),
        hits.len() > 0 ==> types::opt_text(response.suggested_tool) == literal_hint(
            Some(hits[0].score),
            query,
        ),
        response.note is Some <==> plan.auto_promoted || response.suggested_tool is Some,
{
    let shown = hits.map_values(|h: LiteralHit| shown_hit(h, ctx));
    assert(hits_of(response.results@).len() == shown.len());
    if 0 <= i < hits.len() {
        assert(hits_of(response.results@)[i] == shown[i]);
        assert(hit_of(response.results@[i]) == shown_hit(hits[i], ctx));
        assert(response.results@[i].end_line == response.results@[i].start_line);
    }
}

/// Printed as `grep` does, a hit is its path, its line and its snippet, with
/// colons between them.
pub proof fn law_grep_line(hits: Seq<LiteralHit>, i: int)
    requires
        0 <= i < hits.len(),
        0 <= hits[i].line,
    ensures
        grep_lines(hits).len() == hits.len(),
        grep_lines(hits)[i] == hits[i].path + seq![':'] + numbers::decimal(hits[i].line as nat) + seq![
            ':',
        ] + hits[i].snippet,
{
    let h = hits[i];
    assert(grep_lines(hits)[i] =~= h.path + seq![':'] + numbers::decimal(h.line as nat) + seq![':']
        + h.snippet);
}

/// The first line of a text ends at its first line feed; a text without one is
/// its own first line.
pub proof fn law_first_line(line: Seq<char>, rest: Seq<char>)
    requires
        !line.contains('\n'),
        line.len() == 0 || line.last() != '\r',
    ensures
        first_line(line.push('\n') + rest) == line,
        line.len() > 0 ==> first_line(line) == line,
{
    text::law_lines(line, rest);
}

/// The operation itself: where a request names a language, every item of the
/// response comes from a chunk in that language, and is shown under its path.
pub proof fn law_search_keeps_to_the_language(
    request: &LiteralSearchRequest,
    project_path: &str,
    query: &str,
    plan: &LiteralPlan,
    filter: &LiteralFilter,
    ctx: &MultiStoreContext,
    group: bool,
    fetched: &Fetched,
    r: LiteralReply,
    i: int,
) -> (chunk: ChunkMeta)
    requires
        call_ensures(filter_of, (request, project_path), *filter),
        fetched.wf(),
        call_ensures(literal_search, (query, plan, filter, ctx, group, fetched), r),
        request.language is Some,
        r is Response,
        0 <= i < r->Response_0.results@.len(),
    ensures
        chunk.language@ == request.language->0@,
        r->Response_0.results@[i].path@ == ctx.shown_path(chunk.path@),
        match *fetched {
            Fetched::Chunks(stores) => exists|k: int|
                0 <= k < stores@.len() && (#[trigger] stores@[k])@.contains(chunk),
            Fetched::Candidates(cs) => exists|k: int|
                0 <= k < cs@.len() && (#[trigger] cs@[k]).chunks@.contains(Some(chunk)),
            _ => false,
        },
{
    let hits = found_hits(*fetched, *filter, *plan, group);
    let results = r->Response_0.results@;
    assert(hits_of(results) == hits.map_values(|h: LiteralHit| shown_hit(h, *ctx)));
    assert(hits_of(results).len() == results.len());
    assert(hits_of(results)[i] == shown_hit(hits[i], *ctx));
    assert(hit_of(results[i]).path == results[i].path@);
    law_hits_have_the_language(*fetched, *filter, *plan, group, i)
}

/// The operation itself: of the chunks that are scanned, below the limit every one
/// that matches the query and has the language and the path that the request asks
/// for is reported, at the line of its first match.
pub proof fn law_search_reports_every_match(
    request: &LiteralSearchRequest,
    project_path: &str,
    query: &str,
    plan: &LiteralPlan,
    filter: &LiteralFilter,
    ctx: &MultiStoreContext,
    group: bool,
    stores: Vec<Vec<ChunkMeta>>,
    r: LiteralReply,
    s: int,
    c: int,
) -> (k: int)
    requires
        call_ensures(filter_of, (request, project_path), *filter),
        (Fetched::Chunks(stores)).wf(),
        call_ensures(
            literal_search,
            (query, plan, filter, ctx, group, &Fetched::Chunks(stores)),
            r,
        ),
        r is Response,
        r->Response_0.results@.len() < plan.limit,
        0 <= s < stores@.len(),
        0 <= c < stores@[s]@.len(),
        request.language is Some ==> stores@[s]@[c].language@ == request.language->0@,
        request.file_glob is Some ==> glob::glob_matches(
            request.file_glob->0@,
            paths::relative_to(stores@[s]@[c].path@, paths::normal_root(project_path@)),
        ),
        content_match(stores@[s]@[c].content@, plan.query.text@, plan.query.regex) is Some,
    ensures
        0 <= k < r->Response_0.results@.len(),
        r->Response_0.results@[k].path@ == ctx.shown_path(stores@[s]@[c].path@),
        ({
            let (offset, snippet) = content_match(
                stores@[s]@[c].content@,
                plan.query.text@,
                plan.query.regex,
            )->0;
            r->Response_0.results@[k].start_line == stores@[s]@[c].start_line + offset
                && r->Response_0.results@[k].snippet@ == snippet
        }),
{
    let store = stores@[s];
    let before = stores@.take(s);
    let behind = stores@.skip(s + 1);
    let results = r->Response_0.results@;
    assert(stores@ =~= before + (seq![store] + behind));
    law_scan_of_every_store(before, seq![store] + behind, store, *filter, plan.query);
    law_scan_of_every_store(seq![store], behind, store, *filter, plan.query);
    let first = store_hits(before, *filter, plan.query);
    let own = scan_hits(store@, *filter, plan.query);
    let rest = store_hits(behind, *filter, plan.query);
    let all = store_hits(stores@, *filter, plan.query);
    assert(all == first + (own + rest));
    let places = law_scan_selects(store@, *filter, plan.query);
    let wanted = |i: int|
        {
            &&& filter.language is Some ==> store@[i].language@ == filter.language->0@
            &&& filter.file_glob is Some ==> glob::glob_matches(
                filter.file_glob->0@,
                paths::relative_to(store@[i].path@, filter.project_root@),
            )
            &&& content_match(store@[i].content@, plan.query.text@, plan.query.regex) is Some
        };
    assert(types::opt_text(filter.language) == types::opt_text(request.language));
    assert(types::opt_text(filter.file_glob) == types::opt_text(request.file_glob));
    assert(wanted(c));
    assert(places.contains(c));
    let m = choose|m: int| 0 <= m < places.len() && places[m] == c;
    let k = first.len() as int + m;
    assert(all[k] == own[m]);
    let hits = found_hits(Fetched::Chunks(stores), *filter, *plan, group);
    assert(hits_of(results) == hits.map_values(|h: LiteralHit| shown_hit(h, *ctx)));
    assert(hits_of(results).len() == results.len());
    assert(hits.map_values(|h: LiteralHit| shown_hit(h, *ctx)).len() == hits.len());
    assert(hits == all);
    assert(hits_of(results)[k] == shown_hit(hits[k], *ctx));
    assert(hit_of(results[k]) == shown_hit(own[m], *ctx));
    k
}

/// A search that failed says so, and one in the form of `grep` answers with a
/// text.
pub proof fn law_form_of_the_answer(
    query: &str,
    plan: &LiteralPlan,
    filter: &LiteralFilter,
    ctx: &MultiStoreContext,
    group: bool,
    fetched: &Fetched,
    r: LiteralReply,
)
    requires
        fetched.wf(),
        call_ensures(literal_search, (query, plan, filter, ctx, group, fetched), r),
    ensures
        r is Message <==> fetched is ScanFailed || fetched is SearchFailed || fetched is ResolveFailed,
        *fetched matches Fetched::ScanFailed(e) ==> r->Message_0@ == "Error scanning chunks: "@ + e@,
        *fetched matches Fetched::SearchFailed(e) ==> r->Message_0@ == "Error searching: "@ + e@,
        *fetched matches Fetched::ResolveFailed(e) ==> r->Message_0@
            == "Error resolving search results: "@ + e@,
        r is Grep ==> plan.grep,
        r is Response ==> !plan.grep,
{
}

/// The punctuation of code, and no other character.
pub proof fn law_code_characters(c: char)
    ensures
        is_code_char(c) <==> seq!['{', '}', '[', ']', '<', '>', '=', '|', ';', ':'].contains(c),
{
    let s = seq!['{', '}', '[', ']', '<', '>', '=', '|', ';', ':'];
    assert(s[0] == '{' && s[1] == '}' && s[2] == '[' && s[3] == ']' && s[4] == '<' && s[5] == '>'
        && s[6] == '=' && s[7] == '|' && s[8] == ';' && s[9] == ':');
}

/// A note names the query as it was and as it is searched for, or the tool that is
/// suggested; the comments of a `grep` say the same, the promotion first.
pub proof fn law_notes(query: Seq<char>, effective: Seq<char>, hint: Seq<char>)
    ensures
        response_note(true, query, effective, Some(hint)) == Some(promoted_note(query, effective)),
        response_note(false, query, effective, Some(hint)) == Some(weak_note(hint)),
        response_note(false, query, effective, None) is None,
        text::has_text(promoted_note(query, effective), query),
        text::has_text(promoted_note(query, effective), effective),
        text::has_text(weak_note(hint), hint),
        grep_comments(None, None, None).len() == 0,
        grep_comments(Some(true), None, None).len() == 1,
        grep_comments(None, Some(true), Some(hint)).len() == 1,
        text::finishes_with(grep_comments(None, Some(true), Some(hint))[0], hint),
        grep_comments(Some(true), Some(true), Some(hint)) == grep_comments(Some(true), None, None)
            + grep_comments(None, Some(true), Some(hint)),
{
    let a = "Query auto-promoted to regex mode (original: '"@;
    let b = "', effective: '"@;
    let c =
        "'). The query contained code-like punctuation that BM25 would tokenize incorrectly."@;
    let note = promoted_note(query, effective);
    assert(note =~= a + query + (b + effective + c));
    text::law_text_is_found(a, query, b + effective + c);
    text::law_text_is_found(a + query + b, effective, c);
    text::law_text_is_found(
        "Top result has weak BM25 score; consider using `"@,
        hint,
        "` for better matches."@,
    );
    let line = grep_comments(None, Some(true), Some(hint))[0];
    text::law_ends_of_text(line, hint);
    assert(line.skip(line.len() - hint.len()) =~= hint);
}

/// A snippet is the part of the line around the first place of the match: that of
/// the text, or the character at which the expression matches.
pub proof fn law_snippet_shows_the_match(content: Seq<char>, query: Seq<char>, re: regex::Regex)
    requires
        query.len() > 0,
    ensures
        content_match(content, query, None) matches Some((i, snippet)) ==> snippet == windowed(
            text::text_lines(content)[i],
            text::find_text(text::text_lines(content)[i], query)->0,
            200,
        ),
        content_match(content, query, Some(re)) matches Some((i, snippet)) ==> snippet == windowed(
            text::text_lines(content)[i],
            text::chars_before(
                text::text_lines(content)[i],
                regexes::regex_match_start(re, text::text_lines(content)[i])->0 as int,
            ) as int,
            200,
        ),
{
    let lines = text::text_lines(content);
    lemma_first_match(lines, query, None, 0);
    lemma_first_match(lines, query, Some(re), 0);
}

} // verus!
