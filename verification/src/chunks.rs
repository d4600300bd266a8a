//! Single chunks: finding the store that holds one, the lines around it, and
//! the chunks that resemble it.
use vstd::prelude::*;

use crate::numbers;
use crate::numbers::to_decimal;
use crate::routing::MultiStoreContext;
use crate::score;
use crate::score::{rank, Score};
use crate::sorting;
use crate::text;
use crate::text::{chars_of, concat, copy_of, join, lines, owned, string_of};
use crate::types;
use crate::types::{copy_opt, report, ChunkMeta, SearchResult, SearchResultItem};

verus! {

/// The most lines that are shown before and behind a chunk.
pub const MAX_CONTEXT_LINES: usize = 20;

/// The number of lines around a chunk, and whether more were asked for.
pub fn clamp_context(requested: Option<usize>) -> (r: (usize, bool))
    ensures
        r.1 == (requested is Some && requested->0 > MAX_CONTEXT_LINES),
        r.0 == (if r.1 {
            MAX_CONTEXT_LINES
        } else if requested is Some {
            requested->0
        } else {
            0
        }),
{
    match requested {
        Some(n) => if n > MAX_CONTEXT_LINES {
            (MAX_CONTEXT_LINES, true)
        } else {
            (n, false)
        },
        None => (0, false),
    }
}

// ---------------------------------------------------------------------------
// Finding the store
// ---------------------------------------------------------------------------

/// Which of several stores holds a chunk id. The ids are local to a store.
#[derive(Debug)]
pub enum ChunkChoice {
    /// None does.
    Missing,
    /// The store at this place does, and no other.
    Only(usize),
    /// The stores of these repositories do.
    Ambiguous(Vec<String>),
}

/// The places at which the chunk was found.
pub open spec fn holders(found: Seq<bool>, n: int) -> Seq<int>
    decreases n,
{
    if n <= 0 {
        Seq::empty()
    } else if found[n - 1] {
        holders(found, n - 1).push(n - 1)
    } else {
        holders(found, n - 1)
    }
}

/// Chooses the store for a chunk id that no project qualifies: the only one
/// that holds the id. `found` says of each repository whether its store does.
pub fn choose_chunk_store(found: &Vec<bool>, aliases: &Vec<String>) -> (r: ChunkChoice)
    requires
        found@.len() == aliases@.len(),
    ensures
        ({
            let at = holders(found@, found@.len() as int);
            match r {
                ChunkChoice::Missing => at.len() == 0,
                ChunkChoice::Only(i) => at == seq![i as int],
                ChunkChoice::Ambiguous(names) => at.len() > 1 && names@ == at.map_values(
                    |i: int| aliases@[i],
                ),
            }
        }),
{
    let mut names: Vec<String> = Vec::new();
    let mut first: usize = 0;
    let mut i: usize = 0;
    let ghost all = aliases@;
    while i < found.len()
        invariant
            i <= found.len(),
            found@.len() == aliases@.len(),
            all == aliases@,
            names@ == holders(found@, i as int).map_values(|k: int| all[k]),
            names.len() > 0 ==> holders(found@, i as int)[0] == first,
        decreases found.len() - i,
    {
        let ghost before = holders(found@, i as int);
        if found[i] {
            if names.len() == 0 {
                first = i;
            }
            names.push(aliases[i].clone());
            proof {
                let after = before.push(i as int);
                assert(holders(found@, i + 1) == after);
                assert(names@ =~= after.map_values(|k: int| all[k]));
            }
        }
        i += 1;
    }
    let ghost at = holders(found@, found@.len() as int);
    if names.len() == 0 {
        ChunkChoice::Missing
    } else if names.len() == 1 {
        proof {
            assert(at.len() == 1);
            assert(at =~= seq![first as int]);
        }
        ChunkChoice::Only(first)
    } else {
        proof {
            assert(at.len() == names@.len());
            assert(names@ =~= at.map_values(|i: int| aliases@[i]));
        }
        ChunkChoice::Ambiguous(names)
    }
}

/// What a store answered when it was asked for a chunk.
#[derive(Clone, Copy, PartialEq, Eq, Structural, Debug)]
pub enum Lookup {
    Found,
    Absent,
    Failed,
}

/// The first store, from the `i`th on, that holds the chunk; a store that fails
/// ends the search.
pub open spec fn first_holder(answers: Seq<Lookup>, i: int) -> Option<int>
    decreases answers.len() - i,
{
    if i < 0 || i >= answers.len() {
        None
    } else {
        match answers[i] {
            Lookup::Found => Some(i),
            Lookup::Absent => first_holder(answers, i + 1),
            Lookup::Failed => None,
        }
    }
}

/// The first store that holds the chunk; a store that fails ends the search.
pub fn find_chunk_store(answers: &Vec<Lookup>) -> (r: Option<usize>)
    ensures
        match r {
            Some(i) => first_holder(answers@, 0) == Some(i as int),
            None => first_holder(answers@, 0) is None,
        },
{
    let mut i: usize = 0;
    while i < answers.len()
        invariant
            i <= answers.len(),
            first_holder(answers@, 0) == first_holder(answers@, i as int),
        decreases answers.len() - i,
    {
        match answers[i] {
            Lookup::Found => {
                return Some(i);
            },
            Lookup::Absent => {},
            Lookup::Failed => {
                return None;
            },
        }
        i += 1;
    }
    None
}

/// What a request for a chunk is told that no repository holds.
pub fn missing_everywhere_message(chunk_id: u32) -> (r: String)
    ensures
        r@ == "Chunk "@ + numbers::decimal(chunk_id as nat)
            + " not found in any repository. Verify the chunk_id and index state."@,
{
    let n = string_of(to_decimal(chunk_id as u64).as_slice());
    concat(
        concat("Chunk ", n.as_str()).as_str(),
        " not found in any repository. Verify the chunk_id and index state.",
    )
}

/// What a request for a chunk is told that its store does not hold.
pub fn missing_message(chunk_id: u32) -> (r: String)
    ensures
        r@ == "Chunk "@ + numbers::decimal(chunk_id as nat)
            + " not found. Verify the chunk_id and index state."@,
{
    let n = string_of(to_decimal(chunk_id as u64).as_slice());
    concat(
        concat("Chunk ", n.as_str()).as_str(),
        " not found. Verify the chunk_id and index state.",
    )
}

/// What a request for a chunk is told that several repositories hold.
pub fn ambiguous_message(chunk_id: u32) -> (r: String)
    ensures
        r@ == "chunk_id "@ + numbers::decimal(chunk_id as nat)
            + " exists in multiple repositories. Specify which one."@,
{
    let n = string_of(to_decimal(chunk_id as u64).as_slice());
    concat(
        concat("chunk_id ", n.as_str()).as_str(),
        " exists in multiple repositories. Specify which one.",
    )
}

/// What a request is told whose chunk id needs a project.
#[derive(Debug)]
pub struct AmbiguousChunk {
    pub error_code: String,
    pub message: String,
    pub candidate_projects: Vec<String>,
    pub hint_for_agent: String,
}

/// What a request for a chunk is told that these repositories hold.
pub fn ambiguous_chunk(chunk_id: u32, candidates: Vec<String>) -> (r: AmbiguousChunk)
    ensures
        r.error_code@ == "ambiguous_chunk_id"@,
        r.message@ == "chunk_id "@ + numbers::decimal(chunk_id as nat)
            + " exists in multiple repositories. Specify which one."@,
        r.candidate_projects@ == candidates@,
        r.hint_for_agent@
            == "The chunk_id collision is a known limitation of multi-repo mode. Re-run get_chunk with one of the candidate_projects, or use search to identify the correct repository first."@,
{
    AmbiguousChunk {
        error_code: owned("ambiguous_chunk_id"),
        message: ambiguous_message(chunk_id),
        candidate_projects: candidates,
        hint_for_agent: owned(
            "The chunk_id collision is a known limitation of multi-repo mode. Re-run get_chunk with one of the candidate_projects, or use search to identify the correct repository first.",
        ),
    }
}

// ---------------------------------------------------------------------------
// The lines around a chunk
// ---------------------------------------------------------------------------

/// The smaller of two numbers.
pub open spec fn smaller(a: int, b: int) -> int {
    if a < b {
        a
    } else {
        b
    }
}

/// The lines from `from` up to `to`, put together; nothing where there are none.
pub open spec fn line_range(all: Seq<Seq<char>>, from: int, to: int) -> Option<Seq<char>> {
    if from < to {
        Some(text::join_char(all.subrange(from, to), '\n'))
    } else {
        None
    }
}

/// Up to `n` lines before a chunk that begins behind line `start`.
pub open spec fn lines_before(src: Seq<char>, start: int, n: int) -> Option<Seq<char>> {
    let all = text::text_lines(src);
    line_range(
        all,
        if start > n {
            start - n
        } else {
            0
        },
        smaller(start, all.len() as int),
    )
}

/// Up to `n` lines behind a chunk that ends with line `end`.
pub open spec fn lines_behind(src: Seq<char>, end: int, n: int) -> Option<Seq<char>> {
    let all = text::text_lines(src);
    line_range(all, smaller(end, all.len() as int), smaller(end + n, all.len() as int))
}

fn join_range(all: &Vec<Vec<char>>, from: usize, to: usize) -> (r: Option<String>)
    requires
        to <= all.len(),
    ensures
        types::opt_text(r) == line_range(text::views(all@), from as int, to as int),
{
    if from >= to {
        return None;
    }
    let ghost vs = text::views(all@);
    let mut part: Vec<Vec<char>> = Vec::new();
    let mut i: usize = from;
    while i < to
        invariant
            from <= i <= to <= all.len(),
            vs == text::views(all@),
            text::views(part@) == vs.subrange(from as int, i as int),
        decreases to - i,
    {
        let ghost before = text::views(part@);
        part.push(copy_of(all[i].as_slice()));
        proof {
            assert(text::views(part@) =~= before.push(vs[i as int]));
            assert(vs.subrange(from as int, i + 1) =~= vs.subrange(from as int, i as int).push(
                vs[i as int],
            ));
        }
        i += 1;
    }
    Some(string_of(join(&part, '\n').as_slice()))
}

/// The lines of the source before and behind a chunk, up to `context_lines`
/// each.
pub fn surrounding_lines(
    src: &str,
    start_line: usize,
    end_line: usize,
    context_lines: usize,
) -> (r: (Option<String>, Option<String>))
    ensures
        types::opt_text(r.0) == lines_before(src@, start_line as int, context_lines as int),
        types::opt_text(r.1) == lines_behind(src@, end_line as int, context_lines as int),
{
    let all = lines(chars_of(src).as_slice());
    let n: usize = all.len();
    assert(text::views(all@).len() == n);
    let before_start: usize = if start_line > context_lines {
        start_line - context_lines
    } else {
        0
    };
    let before_end: usize = if start_line < n {
        start_line
    } else {
        n
    };
    let after_start: usize = if end_line < n {
        end_line
    } else {
        n
    };
    let after_end: usize = if end_line >= n || n - end_line <= context_lines {
        n
    } else {
        end_line + context_lines
    };
    (join_range(&all, before_start, before_end), join_range(&all, after_start, after_end))
}

/// A chunk with the lines around it.
#[derive(Debug)]
pub struct GetChunkResponse {
    pub chunk_id: u32,
    pub path: String,
    pub start_line: usize,
    pub end_line: usize,
    pub kind: String,
    pub signature: Option<String>,
    pub content: String,
    pub context_before: Option<String>,
    pub context_after: Option<String>,
    pub context_lines_clamped: Option<bool>,
    pub note: Option<String>,
}

/// The source of a chunk.
#[derive(Debug)]
pub enum Source {
    /// No lines around the chunk were asked for.
    NotNeeded,
    /// The text of the file.
    Read(String),
    /// The file cannot be read.
    Unreadable,
}

/// The response to a request for a chunk that was found.
pub fn chunk_response(
    chunk_id: u32,
    chunk: &ChunkMeta,
    requested: Option<usize>,
    source: &Source,
    ctx: &MultiStoreContext,
) -> (r: GetChunkResponse)
    ensures
        r.chunk_id == chunk_id,
        r.path@ == ctx.shown_path(chunk.path@),
        r.start_line == chunk.start_line,
        r.end_line == chunk.end_line,
        r.kind@ == chunk.kind@,
        types::opt_text(r.signature) == types::opt_text(chunk.signature),
        r.content@ == chunk.content@,
        r.context_lines_clamped == (if requested is Some && requested->0 > MAX_CONTEXT_LINES {
            Some(true)
        } else {
            None
        }),
        ({
            let n = if requested is Some {
                smaller(requested->0 as int, MAX_CONTEXT_LINES as int)
            } else {
                0
            };
            &&& types::opt_text(r.context_before) == (match *source {
                Source::Read(src) => if n > 0 {
                    lines_before(src@, chunk.start_line as int, n)
                } else {
                    None
                },
                _ => None,
            })
            &&& types::opt_text(r.context_after) == (match *source {
                Source::Read(src) => if n > 0 {
                    lines_behind(src@, chunk.end_line as int, n)
                } else {
                    None
                },
                _ => None,
            })
            &&& types::opt_text(r.note) == (if source is Unreadable && n > 0 {
                Some("source file not readable, returning indexed content only"@)
            } else {
                None
            })
        }),
{
    let (n, clamped) = clamp_context(requested);
    let mut before: Option<String> = None;
    let mut after: Option<String> = None;
    let mut note: Option<String> = None;
    if n > 0 {
        match source {
            Source::Read(src) => {
                let around = surrounding_lines(src.as_str(), chunk.start_line, chunk.end_line, n);
                before = around.0;
                after = around.1;
            },
            Source::Unreadable => {
                note = Some(owned("source file not readable, returning indexed content only"));
            },
            Source::NotNeeded => {},
        }
    }
    GetChunkResponse {
        chunk_id,
        path: ctx.prefix_result_path(chunk.path.as_str()),
        start_line: chunk.start_line,
        end_line: chunk.end_line,
        kind: chunk.kind.clone(),
        signature: copy_opt(&chunk.signature),
        content: chunk.content.clone(),
        context_before: before,
        context_after: after,
        context_lines_clamped: if clamped {
            Some(true)
        } else {
            None
        },
        note,
    }
}

// ---------------------------------------------------------------------------
// Chunks that resemble a chunk
// ---------------------------------------------------------------------------

/// How many similar chunks are reported.
pub fn similar_limit(limit: Option<usize>) -> (r: usize)
    ensures
        r == (match limit {
            Some(l) => smaller(l as int, 20),
            None => 5,
        }),
{
    match limit {
        Some(l) => if l < 20 {
            l
        } else {
            20
        },
        None => 5,
    }
}

/// The neighbours without the chunk itself.
pub open spec fn others(neighbors: Seq<SearchResult>, chunk_id: u32) -> Seq<SearchResult>
    decreases neighbors.len(),
{
    if neighbors.len() == 0 {
        Seq::empty()
    } else {
        let before = others(neighbors.drop_last(), chunk_id);
        if neighbors.last().id == chunk_id {
            before
        } else {
            before.push(neighbors.last())
        }
    }
}

/// The results, of each chunk id the first.
pub open spec fn first_by_id(results: Seq<SearchResult>) -> Seq<SearchResult>
    decreases results.len(),
{
    if results.len() == 0 {
        Seq::empty()
    } else {
        let before = first_by_id(results.drop_last());
        if has_result(before, results.last().id) {
            before
        } else {
            before.push(results.last())
        }
    }
}

/// A result with this chunk id stands among the results.
pub open spec fn has_result(results: Seq<SearchResult>, id: u32) -> bool {
    exists|i: int| 0 <= i < results.len() && (#[trigger] results[i]).id == id
}

/// The scores of results.
pub open spec fn result_scores(results: Seq<SearchResult>) -> Seq<Score> {
    results.map_values(|r: SearchResult| r.score)
}

/// The results that are reported as similar, of one store or of several: with
/// several they are ranked anew, of each id the first.
pub open spec fn similar_of(
    neighbors: Seq<SearchResult>,
    chunk_id: u32,
    limit: int,
    is_multi: bool,
) -> Seq<SearchResult> {
    let rest = others(neighbors, chunk_id);
    if is_multi {
        let firsts = first_by_id(rest);
        types::at_most(sorting::sorted_by(result_scores(firsts), firsts), limit)
    } else {
        types::at_most(rest, limit)
    }
}

/// What is reported of results: without code, under the path that is shown.
pub open spec fn compact_views(results: Seq<SearchResult>, ctx: MultiStoreContext) -> Seq<
    types::ResultView,
> {
    Seq::new(
        results.len(),
        |i: int| types::reported(results[i], ctx.shown_path(results[i].path@), true),
    )
}

/// All scores are numbers.
pub open spec fn results_ok(results: Seq<SearchResult>) -> bool {
    forall|i: int| 0 <= i < results.len() ==> !(#[trigger] results[i]).score.is_nan()
}

fn keep_others(neighbors: &Vec<SearchResult>, chunk_id: u32) -> (r: Vec<SearchResult>)
    ensures
        r@ == others(neighbors@, chunk_id),
        results_ok(neighbors@) ==> results_ok(r@),
{
    let mut out: Vec<SearchResult> = Vec::new();
    let mut i: usize = 0;
    while i < neighbors.len()
        invariant
            i <= neighbors.len(),
            out@ == others(neighbors@.take(i as int), chunk_id),
            results_ok(neighbors@) ==> results_ok(out@),
        decreases neighbors.len() - i,
    {
        proof {
            assert(neighbors@.take(i + 1).drop_last() =~= neighbors@.take(i as int));
            assert(neighbors@.take(i + 1).last() == neighbors@[i as int]);
        }
        if neighbors[i].id != chunk_id {
            let copy = neighbors[i].copy_scored(neighbors[i].score);
            assert(copy == neighbors@[i as int]);
            out.push(copy);
        }
        i += 1;
    }
    proof {
        assert(neighbors@.take(neighbors@.len() as int) =~= neighbors@);
    }
    out
}

fn contains_id(results: &Vec<SearchResult>, id: u32) -> (r: bool)
    ensures
        r == has_result(results@, id),
{
    let mut i: usize = 0;
    while i < results.len()
        invariant
            i <= results.len(),
            forall|j: int| 0 <= j < i ==> (#[trigger] results@[j]).id != id,
        decreases results.len() - i,
    {
        if results[i].id == id {
            return true;
        }
        i += 1;
    }
    false
}

fn keep_first_by_id(results: &Vec<SearchResult>) -> (r: Vec<SearchResult>)
    ensures
        r@ == first_by_id(results@),
        results_ok(results@) ==> results_ok(r@),
{
    let mut out: Vec<SearchResult> = Vec::new();
    let mut i: usize = 0;
    while i < results.len()
        invariant
            i <= results.len(),
            out@ == first_by_id(results@.take(i as int)),
            results_ok(results@) ==> results_ok(out@),
        decreases results.len() - i,
    {
        proof {
            assert(results@.take(i + 1).drop_last() =~= results@.take(i as int));
            assert(results@.take(i + 1).last() == results@[i as int]);
        }
        if !contains_id(&out, results[i].id) {
            let copy = results[i].copy_scored(results[i].score);
            assert(copy == results@[i as int]);
            out.push(copy);
        }
        i += 1;
    }
    proof {
        assert(results@.take(results@.len() as int) =~= results@);
    }
    out
}

/// The results from the highest score down.
pub fn rank_results(results: &Vec<SearchResult>) -> (r: Vec<SearchResult>)
    requires
        results_ok(results@),
    ensures
        r@ == sorting::sorted_by(result_scores(results@), results@),
        r@.len() == results@.len(),
{
    let mut scores: Vec<Score> = Vec::new();
    let mut i: usize = 0;
    while i < results.len()
        invariant
            i <= results.len(),
            results_ok(results@),
            scores@ == result_scores(results@).take(i as int),
            score::all_numbers(scores@),
        decreases results.len() - i,
    {
        assert(!results@[i as int].score.is_nan());
        scores.push(results[i].score);
        i += 1;
    }
    proof {
        assert(scores@ =~= result_scores(results@));
    }
    let order = rank(&scores);
    let ghost all = sorting::sorted_by(result_scores(results@), results@);
    let mut out: Vec<SearchResult> = Vec::new();
    let mut j: usize = 0;
    while j < order.len()
        invariant
            j <= order.len(),
            scores@ == result_scores(results@),
            sorting::is_sorting(scores@, order@),
            order@ == sorting::sorting(scores@),
            all == sorting::sorted_by(result_scores(results@), results@),
            out@ == all.take(j as int),
        decreases order.len() - j,
    {
        assert(order@[j as int] < scores@.len());
        let r = &results[order[j]];
        let copy = r.copy_scored(r.score);
        assert(copy == *r);
        out.push(copy);
        j += 1;
    }
    proof {
        assert(all.take(all.len() as int) =~= all);
    }
    out
}

/// The chunks that resemble a chunk, from the neighbours that the stores found,
/// one store behind the other.
pub fn similar_chunks(
    neighbors: &Vec<SearchResult>,
    chunk_id: u32,
    limit: usize,
    ctx: &MultiStoreContext,
) -> (r: Vec<SearchResultItem>)
    requires
        ctx.is_multi ==> results_ok(neighbors@),
    ensures
        types::result_views(r@) == compact_views(
            similar_of(neighbors@, chunk_id, limit as int, ctx.is_multi),
            *ctx,
        ),
{
    let rest = keep_others(neighbors, chunk_id);
    let ranked = if ctx.is_multi {
        let firsts = keep_first_by_id(&rest);
        rank_results(&firsts)
    } else {
        rest
    };
    let n: usize = if ranked.len() < limit {
        ranked.len()
    } else {
        limit
    };
    let ghost chosen = similar_of(neighbors@, chunk_id, limit as int, ctx.is_multi);
    proof {
        assert(chosen =~= ranked@.take(n as int));
    }
    let mut out: Vec<SearchResultItem> = Vec::new();
    let mut i: usize = 0;
    while i < n
        invariant
            i <= n <= ranked.len(),
            chosen == ranked@.take(n as int),
            types::result_views(out@) == compact_views(chosen, *ctx).take(i as int),
        decreases n - i,
    {
        let ghost before = types::result_views(out@);
        let path = ctx.prefix_result_path(ranked[i].path.as_str());
        out.push(report(&ranked[i], path, true));
        proof {
            let new = compact_views(chosen, *ctx)[i as int];
            assert(types::result_views(out@) =~= before.push(new));
            assert(compact_views(chosen, *ctx).take(i + 1) =~= compact_views(chosen, *ctx).take(
                i as int,
            ).push(new));
        }
        i += 1;
    }
    proof {
        assert(compact_views(chosen, *ctx).take(n as int) =~= compact_views(chosen, *ctx));
    }
    out
}

/// The chunk itself is never reported as similar to itself.
pub proof fn law_not_similar_to_itself(neighbors: Seq<SearchResult>, chunk_id: u32)
    ensures
        !has_result(others(neighbors, chunk_id), chunk_id),
    decreases neighbors.len(),
{
    if neighbors.len() > 0 {
        law_not_similar_to_itself(neighbors.drop_last(), chunk_id);
        let before = others(neighbors.drop_last(), chunk_id);
        let all = others(neighbors, chunk_id);
        assert forall|i: int| 0 <= i < all.len() implies (#[trigger] all[i]).id != chunk_id by {
            if i < before.len() {
                assert(before[i].id != chunk_id);
            }
        }
    }
}

/// A store is among the holders exactly where the chunk was found in it.
pub proof fn law_holders_are_exact(found: Seq<bool>, n: int, k: int)
    requires
        0 <= n <= found.len(),
    ensures
        holders(found, n).contains(k) <==> 0 <= k < n && found[k],
    decreases n,
{
    if n > 0 {
        law_holders_are_exact(found, n - 1, k);
        let before = holders(found, n - 1);
        if found[n - 1] {
            let after = before.push(n - 1);
            assert(after[before.len() as int] == n - 1);
            if before.contains(k) {
                let i = choose|i: int| 0 <= i < before.len() && before[i] == k;
                assert(after[i] == k);
            }
            if after.contains(k) && k != n - 1 {
                let i = choose|i: int| 0 <= i < after.len() && after[i] == k;
                assert(before[i] == k);
            }
        }
    }
}

/// A chunk id that only one store holds is found there, without a project.
pub proof fn law_unique_chunk_is_routed(found: Seq<bool>, n: int, k: int)
    requires
        0 <= k < n <= found.len(),
        found[k],
        forall|j: int| 0 <= j < n && j != k ==> !#[trigger] found[j],
    ensures
        holders(found, n) == seq![k],
    decreases n,
{
    if n - 1 == k {
        lemma_no_holders(found, n - 1);
        assert(holders(found, n) =~= seq![k]);
    } else {
        assert(!found[n - 1]);
        law_unique_chunk_is_routed(found, n - 1, k);
    }
}

proof fn lemma_no_holders(found: Seq<bool>, n: int)
    requires
        0 <= n <= found.len(),
        forall|j: int| 0 <= j < n ==> !#[trigger] found[j],
    ensures
        holders(found, n) == Seq::<int>::empty(),
    decreases n,
{
    if n > 0 {
        assert(!found[n - 1]);
        lemma_no_holders(found, n - 1);
    }
}

/// The holders of a chunk are the stores in which it was found, each once and in
/// their order.
pub proof fn law_holders_rise(found: Seq<bool>, n: int)
    requires
        0 <= n <= found.len(),
    ensures
        sorting::selects(holders(found, n), n, |k: int| found[k]),
    decreases n,
{
    if n > 0 {
        law_holders_rise(found, n - 1);
        let all = sorting::lemma_selects_step(
            holders(found, n - 1),
            n - 1,
            |k: int| found[k],
            |k: int| found[k],
        );
    }
}

/// A chunk is taken from the first store that holds it, where every store before
/// that one answered; a store that fails before ends the search.
pub proof fn law_first_holder(answers: Seq<Lookup>, k: int)
    requires
        0 <= k <= answers.len(),
        forall|j: int| 0 <= j < k ==> #[trigger] answers[j] == Lookup::Absent,
    ensures
        k < answers.len() && answers[k] == Lookup::Found ==> first_holder(answers, 0) == Some(k),
        k < answers.len() && answers[k] == Lookup::Failed ==> first_holder(answers, 0) is None,
        k == answers.len() ==> first_holder(answers, 0) is None,
{
    lemma_first_holder(answers, 0, k);
}

proof fn lemma_first_holder(answers: Seq<Lookup>, i: int, k: int)
    requires
        0 <= i <= k <= answers.len(),
        forall|j: int| 0 <= j < k ==> #[trigger] answers[j] == Lookup::Absent,
    ensures
        first_holder(answers, i) == first_holder(answers, k),
    decreases k - i,
{
    if i < k {
        assert(answers[i] == Lookup::Absent);
        lemma_first_holder(answers, i + 1, k);
    }
}

/// Up to `n` lines are shown before a chunk and behind it: those that stand next
/// to it, as far as the file goes. No more than twenty can be asked for.
pub proof fn law_lines_around(src: Seq<char>, at: int, n: int)
    requires
        0 <= at <= text::text_lines(src).len(),
        0 < n,
    ensures
        MAX_CONTEXT_LINES == 20,
        ({
            let all = text::text_lines(src);
            &&& at == 0 ==> lines_before(src, at, n) is None
            &&& 0 < at <= n ==> lines_before(src, at, n) == Some(
                text::join_char(all.take(at), '\n'),
            )
            &&& at > n ==> lines_before(src, at, n) == Some(
                text::join_char(all.subrange(at - n, at), '\n'),
            )
            &&& at == all.len() ==> lines_behind(src, at, n) is None
            &&& at < all.len() && at + n >= all.len() ==> lines_behind(src, at, n) == Some(
                text::join_char(all.skip(at), '\n'),
            )
            &&& at + n < all.len() ==> lines_behind(src, at, n) == Some(
                text::join_char(all.subrange(at, at + n), '\n'),
            )
        }),
{
    let all = text::text_lines(src);
    assert(all.take(at) =~= all.subrange(0, at));
    assert(all.skip(at) =~= all.subrange(at, all.len() as int));
}

/// The smaller of two numbers is one of them and no greater than either.
pub proof fn law_smaller(a: int, b: int)
    ensures
        smaller(a, b) <= a,
        smaller(a, b) <= b,
        smaller(a, b) == a || smaller(a, b) == b,
{
}

/// Everything but the chunk itself stays among the neighbours, in its order.
pub proof fn law_others_stay(neighbors: Seq<SearchResult>, chunk_id: u32) -> (places: Seq<int>)
    ensures
        sorting::selects(places, neighbors.len() as int, |i: int| neighbors[i].id != chunk_id),
        others(neighbors, chunk_id).len() == places.len(),
        forall|k: int|
            0 <= k < places.len() ==> #[trigger] others(neighbors, chunk_id)[k]
                == neighbors[places[k]],
    decreases neighbors.len(),
{
    if neighbors.len() == 0 {
        Seq::empty()
    } else {
        let front = neighbors.drop_last();
        let before = law_others_stay(front, chunk_id);
        let first = others(front, chunk_id);
        let all = others(neighbors, chunk_id);
        let places = sorting::lemma_selects_step(
            before,
            neighbors.len() - 1,
            |i: int| front[i].id != chunk_id,
            |i: int| neighbors[i].id != chunk_id,
        );
        assert forall|k: int| 0 <= k < places.len() implies #[trigger] all[k]
            == neighbors[places[k]] by {
            if k < before.len() {
                assert(all[k] == first[k]);
            }
        }
        places
    }
}

/// Of each chunk id the first result is kept: no id stands twice, none is lost,
/// and what is kept was there before.
pub proof fn law_first_by_id(results: Seq<SearchResult>, id: u32)
    ensures
        has_result(first_by_id(results), id) <==> has_result(results, id),
        forall|i: int, j: int|
            0 <= i < j < first_by_id(results).len() ==> (#[trigger] first_by_id(results)[i]).id != (
            #[trigger] first_by_id(results)[j]).id,
        forall|i: int|
            0 <= i < first_by_id(results).len() ==> results.contains(
                #[trigger] first_by_id(results)[i],
            ),
        first_by_id(results).len() <= results.len(),
    decreases results.len(),
{
    if results.len() > 0 {
        let front = results.drop_last();
        let last = results.last();
        law_first_by_id(front, id);
        law_first_by_id(front, last.id);
        let before = first_by_id(front);
        let all = first_by_id(results);
        assert forall|i: int| 0 <= i < all.len() implies results.contains(#[trigger] all[i]) by {
            if i < before.len() {
                assert(front.contains(before[i]));
                let k = choose|k: int| 0 <= k < front.len() && front[k] == before[i];
                assert(results[k] == all[i]);
            } else {
                assert(results[results.len() - 1] == all[i]);
            }
        }
        if has_result(front, id) {
            let k = choose|k: int| 0 <= k < front.len() && (#[trigger] front[k]).id == id;
            assert(results[k].id == id);
        }
        if has_result(results, id) && last.id != id {
            let k = choose|k: int| 0 <= k < results.len() && (#[trigger] results[k]).id == id;
            assert(front[k].id == id);
        }
        if has_result(before, id) {
            let k = choose|k: int| 0 <= k < before.len() && (#[trigger] before[k]).id == id;
            assert(all[k].id == id);
        }
        if last.id == id {
            assert(results[results.len() - 1].id == id);
            if !has_result(before, id) {
                assert(all[before.len() as int].id == id);
            }
        }
        if has_result(all, id) {
            let k = choose|k: int| 0 <= k < all.len() && (#[trigger] all[k]).id == id;
            if k < before.len() {
                assert(before[k].id == id);
            }
        }
    }
}

/// In one repository the similar chunks are the first neighbours but for the
/// chunk itself. In several they have every id once, the higher scores first, and
/// below the limit none of the neighbours is missing.
pub proof fn law_similar_chunks(
    neighbors: Seq<SearchResult>,
    chunk_id: u32,
    limit: nat,
    id: u32,
    i: int,
)
    requires
        neighbors.len() <= usize::MAX,
    ensures
        ({
            let rest = others(neighbors, chunk_id);
            let one = similar_of(neighbors, chunk_id, limit as int, false);
            &&& one.len() == (if rest.len() < limit {
                rest.len() as int
            } else {
                limit as int
            })
            &&& 0 <= i < one.len() ==> one[i] == rest[i]
        }),
        ({
            let rest = others(neighbors, chunk_id);
            let several = similar_of(neighbors, chunk_id, limit as int, true);
            &&& several.len() <= limit
            &&& several.len() < limit && has_result(rest, id) ==> has_result(several, id)
            &&& has_result(several, id) ==> has_result(rest, id)
            &&& forall|a: int, b: int|
                0 <= a < b < several.len() ==> (#[trigger] several[a]).id != (
                #[trigger] several[b]).id && several[b].score.key() <= several[a].score.key()
        }),
{
    let rest = others(neighbors, chunk_id);
    let places = law_others_stay(neighbors, chunk_id);
    lemma_others_len(neighbors, chunk_id);
    let firsts = first_by_id(rest);
    law_first_by_id(rest, id);
    let keys = result_scores(firsts);
    let order = sorting::law_sorted_items(keys, firsts);
    let all = sorting::sorted_by(keys, firsts);
    let several = similar_of(neighbors, chunk_id, limit as int, true);
    assert forall|a: int, b: int| 0 <= a < b < several.len() implies (#[trigger] several[a]).id != (
    #[trigger] several[b]).id && several[b].score.key() <= several[a].score.key() by {
        let x = order[a] as int;
        let y = order[b] as int;
        assert(0 <= x < firsts.len() && 0 <= y < firsts.len());
        assert(sorting::SortKey::upto(keys[x], keys[y]));
        assert(order[a] != order[b]);
        if x < y {
            assert(firsts[x].id != firsts[y].id);
        } else {
            assert(firsts[y].id != firsts[x].id);
        }
    }
    if has_result(several, id) {
        let a = choose|a: int| 0 <= a < several.len() && (#[trigger] several[a]).id == id;
        assert(0 <= order[a] < firsts.len());
        assert(firsts[order[a] as int].id == id);
    }
    if several.len() < limit && has_result(rest, id) {
        let k = choose|k: int| 0 <= k < firsts.len() && (#[trigger] firsts[k]).id == id;
        assert(order.contains(k as usize));
        let a = choose|a: int| 0 <= a < order.len() && order[a] == k as usize;
        assert(all[a].id == id);
        assert(several[a].id == id);
    }
}

proof fn lemma_others_len(neighbors: Seq<SearchResult>, chunk_id: u32)
    ensures
        others(neighbors, chunk_id).len() <= neighbors.len(),
    decreases neighbors.len(),
{
    if neighbors.len() > 0 {
        lemma_others_len(neighbors.drop_last(), chunk_id);
    }
}

/// Similar chunks are reported without their code, under the path that is shown.
pub proof fn law_similar_without_code(results: Seq<SearchResult>, ctx: MultiStoreContext, i: int)
    requires
        0 <= i < results.len(),
    ensures
        compact_views(results, ctx).len() == results.len(),
        compact_views(results, ctx)[i].chunk_id == results[i].id,
        compact_views(results, ctx)[i].path == ctx.shown_path(results[i].path@),
        compact_views(results, ctx)[i].score == results[i].score,
        compact_views(results, ctx)[i].start_line == results[i].start_line,
        compact_views(results, ctx)[i].content is None,
{
}

/// Context is up to 20 lines, and a wish for more is marked. Similar chunks are up
/// to 20, and 5 without a wish.
pub proof fn law_limits_of_chunks(
    requested: Option<usize>,
    r: (usize, bool),
    limit: Option<usize>,
    n: usize,
)
    requires
        call_ensures(clamp_context, (requested,), r),
        call_ensures(similar_limit, (limit,), n),
    ensures
        requested is None ==> r == (0usize, false),
        requested is Some && requested->0 <= 20 ==> r == (requested->0, false),
        requested is Some && requested->0 > 20 ==> r == (20usize, true),
        limit is None ==> n == 5,
        limit is Some && limit->0 <= 20 ==> n == limit->0,
        limit is Some && limit->0 > 20 ==> n == 20,
{
}

/// A chunk that no store has is missing, one that a single store has is of that
/// store, and one that several have is ambiguous, with the aliases of all.
pub proof fn law_store_of_a_chunk(
    found: &Vec<bool>,
    aliases: &Vec<String>,
    r: ChunkChoice,
    i: int,
    j: int,
)
    requires
        found@.len() == aliases@.len(),
        call_ensures(choose_chunk_store, (found, aliases), r),
    ensures
        0 <= i < found@.len() && found@[i] ==> !(r is Missing),
        r matches ChunkChoice::Only(k) ==> 0 <= k < found@.len() && found@[k as int],
        0 <= i < j < found@.len() && found@[i] && found@[j] ==> r is Ambiguous,
        r is Ambiguous && 0 <= i < found@.len() && found@[i] ==> r->Ambiguous_0@.contains(
            aliases@[i],
        ),
{
    let n = found@.len() as int;
    let at = holders(found@, n);
    law_holders_rise(found@, n);
    if 0 <= i < n && found@[i] {
        lemma_holder(found@, n, i);
        let k = choose|k: int| 0 <= k < at.len() && at[k] == i;
        if r is Ambiguous {
            assert(r->Ambiguous_0@[k] == aliases@[i]);
        }
        if i < j < n && found@[j] {
            lemma_holder(found@, n, j);
            let m = choose|m: int| 0 <= m < at.len() && at[m] == j;
            assert(k != m);
        }
    }
    if r is Only {
        assert(at[0] == r->Only_0 as int);
    }
}

proof fn lemma_holder(found: Seq<bool>, n: int, i: int)
    requires
        0 <= i < n <= found.len(),
        found[i],
    ensures
        holders(found, n).contains(i),
    decreases n,
{
    let all = holders(found, n);
    let before = holders(found, n - 1);
    if i < n - 1 {
        lemma_holder(found, n - 1, i);
        let k = choose|k: int| 0 <= k < before.len() && before[k] == i;
        assert(all[k] == i);
    } else {
        assert(all[before.len() as int] == i);
    }
}

/// The response of a chunk has its own id, lines, kind and content, under the path
/// that is shown, and no context where none is asked for.
pub proof fn law_chunk_response(
    chunk_id: u32,
    chunk: &ChunkMeta,
    requested: Option<usize>,
    source: &Source,
    ctx: &MultiStoreContext,
    r: GetChunkResponse,
)
    requires
        call_ensures(chunk_response, (chunk_id, chunk, requested, source, ctx), r),
    ensures
        r.chunk_id == chunk_id,
        r.path@ == ctx.shown_path(chunk.path@),
        r.start_line == chunk.start_line && r.end_line == chunk.end_line,
        r.kind@ == chunk.kind@,
        r.content@ == chunk.content@,
        requested is None || requested == Some(0usize) ==> r.context_before is None
            && r.context_after is None && r.note is None,
        requested is Some && requested->0 > 20 ==> r.context_lines_clamped == Some(true),
        requested is Some && requested->0 <= 20 ==> r.context_lines_clamped is None,
        source is Unreadable && requested is Some && requested->0 > 0 ==> r.note is Some,
{
}

} // verus!
