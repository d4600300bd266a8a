//! The search of the command line: how much is fetched, how results are chosen,
//! and how they are shown.
use vstd::prelude::*;
use vstd::slice::slice_subrange;

use crate::chunks;
use crate::fusion;
use crate::fusion::{merge_store_hits, FusedResult, StoreHit};
use crate::numbers;
use crate::paths;
use crate::paths::{begins_with_filter, normalize_filter_path};
use crate::query;
use crate::query::detect_identifiers;
use crate::score;
use crate::score::{rank, Score};
use crate::semantic;
use crate::sorting;
use crate::status::number;
use crate::text;
use crate::text::{
    chars_before_byte, chars_of, concat, copy_of, has_bytes, join, lines, push_all, same, str_eq,
    string_of,
};
use crate::types;
use crate::types::{ChunkMeta, SearchResult};

verus! {

// ---------------------------------------------------------------------------
// Options
// ---------------------------------------------------------------------------

/// Configuration options for search operations
#[derive(Debug)]
pub struct SearchOptions {
    /// Maximum number of results to return
    pub max_results: usize,
    /// Maximum number of results per file
    pub per_file: Option<usize>,
    /// Number of content lines to show
    pub content_lines: usize,
    /// Whether to show scores
    pub show_scores: bool,
    /// Compact output mode
    pub compact: bool,
    /// Sync database before search
    pub sync: bool,
    /// JSON output mode
    pub json: bool,
    /// Optional path filter
    pub filter_path: Option<String>,
    /// Optional model override
    pub model_override: Option<String>,
    /// Vector-only mode (skip FTS)
    pub vector_only: bool,
    /// RRF fusion constant
    pub rrf_k: Option<usize>,
    /// Enable neural reranking
    pub rerank: bool,
    /// Number of results to rerank
    pub rerank_top: Option<usize>,
}

impl Default for SearchOptions {
    fn default() -> (r: SearchOptions)
        ensures
            r.max_results == 10,
            r.per_file is None,
            r.content_lines == 3,
            !r.show_scores,
            !r.compact,
            !r.sync,
            !r.json,
            r.filter_path is None,
            r.model_override is None,
            !r.vector_only,
            r.rrf_k is None,
            !r.rerank,
            r.rerank_top is None,
    {
        SearchOptions {
            max_results: 10,
            per_file: None,
            content_lines: 3,
            show_scores: false,
            compact: false,
            sync: false,
            json: false,
            filter_path: None,
            model_override: None,
            vector_only: false,
            rrf_k: None,
            rerank: false,
            rerank_top: None,
        }
    }
}

/// The larger of two numbers.
pub open spec fn larger(a: int, b: int) -> int {
    if a < b {
        b
    } else {
        a
    }
}

/// How many results each variant of a query fetches.
pub open spec fn fetch_count(vector_only: bool, has_identifiers: bool, max_results: int) -> int {
    if vector_only {
        max_results
    } else if has_identifiers {
        larger(max_results * 3, 100)
    } else {
        larger(max_results * 5, 200)
    }
}

/// The number of results to fetch can be counted.
pub open spec fn fetch_fits(query: Seq<char>, options: SearchOptions) -> bool {
    !options.vector_only ==> options.max_results * (if names_in(query).len() > 0 {
        3int
    } else {
        5int
    }) <= usize::MAX
}

/// How many results each variant of a query fetches, or `None` where that
/// number is too large to be counted.
pub fn counted_limit(query: &str, options: &SearchOptions) -> (r: Option<usize>)
    ensures
        match r {
            Some(n) => fetch_fits(query@, *options) && n == fetch_count(
                options.vector_only,
                names_in(query@).len() > 0,
                options.max_results as int,
            ),
            None => !fetch_fits(query@, *options),
        },
{
    if !options.vector_only {
        let ids = detect_identifiers(query);
        assert(text::views(ids@).len() == ids@.len());
        let fits = if ids.len() > 0 {
            options.max_results <= usize::MAX / 3
        } else {
            options.max_results <= usize::MAX / 5
        };
        if !fits {
            return None;
        }
    }
    Some(retrieval_limit(query, options))
}

/// How many results each variant of a query fetches: fewer for a query with
/// names, whose exact hits count more.
pub fn retrieval_limit(query: &str, options: &SearchOptions) -> (r: usize)
    requires
        fetch_fits(query@, *options),
    ensures
        r == fetch_count(
            options.vector_only,
            names_in(query@).len() > 0,
            options.max_results as int,
        ),
{
    if options.vector_only {
        return options.max_results;
    }
    let ids = detect_identifiers(query);
    assert(text::views(ids@).len() == ids@.len());
    if ids.len() > 0 {
        let n: usize = options.max_results * 3;
        if n < 100 {
            100
        } else {
            n
        }
    } else {
        let n: usize = options.max_results * 5;
        if n < 200 {
            200
        } else {
            n
        }
    }
}

/// The constant of the fusion that the user names, or else the usual one.
pub open spec fn user_constant(rrf_k: Option<usize>) -> int {
    match rrf_k {
        Some(x) => x as int,
        None => fusion::DEFAULT_RRF_K as int,
    }
}

/// The names in a query.
pub open spec fn names_in(query: Seq<char>) -> Seq<Seq<char>> {
    query::identifiers_of(text::words_of(query))
}

/// The constants of a fusion with exact hits: the user's where it is smaller
/// than the one that suits the query.
pub open spec fn suited_constants(query: Seq<char>, rrf_k: Option<usize>) -> (int, int) {
    let suited = query::rrf_constants(names_in(query).len() > 0, query::intent_of(query) is Some);
    (
        chunks::smaller(suited.0 as int, user_constant(rrf_k)),
        chunks::smaller(suited.1 as int, user_constant(rrf_k)),
    )
}

/// The constants of the fusion: the user's where it is smaller than the one
/// that suits the query.
pub fn fusion_constants(query: &str, rrf_k: Option<usize>) -> (r: (usize, usize))
    ensures
        (r.0 as int, r.1 as int) == suited_constants(query@, rrf_k),
{
    let k: usize = match rrf_k {
        Some(x) => x,
        None => fusion::DEFAULT_RRF_K as usize,
    };
    let (v, f) = query::adapt_rrf_k(query);
    let v: usize = v as usize;
    let f: usize = f as usize;
    let a: usize = if v < k {
        v
    } else {
        k
    };
    let b: usize = if f < k {
        f
    } else {
        k
    };
    (a, b)
}

/// How the hits of a search come together.
#[derive(Debug)]
pub enum SearchWay {
    /// By the vector search alone; whether only for want of a full-text index.
    VectorOnly { index_missing: bool },
    /// By both searches, fused with one constant.
    Hybrid { k: usize },
    /// By both searches, and an exact one for each name in the query.
    WithExact { identifiers: Vec<String>, vector_k: usize, fts_k: usize },
}

/// How the hits of a search come together. `has_index` says whether there is a
/// full-text index.
pub fn search_way(
    query: &str,
    vector: &Vec<SearchResult>,
    options: &SearchOptions,
    has_index: bool,
) -> (r: SearchWay)
    ensures
        ({
            let skip = options.vector_only || all_certain(vector@);
            match r {
                SearchWay::VectorOnly { index_missing } => (skip || !has_index) && index_missing
                    == !skip,
                SearchWay::Hybrid { k } => !skip && has_index && names_in(query@).len() == 0 && k
                    == user_constant(options.rrf_k),
                SearchWay::WithExact { identifiers, vector_k, fts_k } => !skip && has_index
                    && names_in(query@).len() > 0 && text::views(identifiers@) == names_in(query@)
                    && (vector_k as int, fts_k as int) == suited_constants(query@, options.rrf_k),
            }
        }),
{
    if skip_full_text(vector, options.vector_only) {
        return SearchWay::VectorOnly { index_missing: false };
    }
    if !has_index {
        return SearchWay::VectorOnly { index_missing: true };
    }
    let identifiers = detect_identifiers(query);
    assert(text::views(identifiers@).len() == identifiers@.len());
    if identifiers.len() == 0 {
        let k: usize = match options.rrf_k {
            Some(x) => x,
            None => fusion::DEFAULT_RRF_K as usize,
        };
        SearchWay::Hybrid { k }
    } else {
        let (vector_k, fts_k) = fusion_constants(query, options.rrf_k);
        SearchWay::WithExact { identifiers, vector_k, fts_k }
    }
}

// ---------------------------------------------------------------------------
// Choosing results
// ---------------------------------------------------------------------------

/// The results as hits of one store.
pub open spec fn as_hits(results: Seq<SearchResult>, hits: Seq<StoreHit>) -> bool {
    hits.len() == results.len() && forall|i: int|
        0 <= i < hits.len() ==> (#[trigger] hits[i]).alias@.len() == 0 && hits[i].chunk_id
            == results[i].id && hits[i].score == results[i].score
}

/// The best result of each chunk among the results of all variants of a query,
/// from the highest score down, up to the limit.
pub fn best_results(results: &Vec<SearchResult>, limit: usize) -> (r: Vec<SearchResult>)
    requires
        chunks::results_ok(results@),
    ensures
        exists|hits: Seq<StoreHit>| #[trigger]
            as_hits(results@, hits) && r@ == types::at_most(
                fusion::merge_order(hits).map_values(|k: usize| results@[k as int]),
                limit as int,
            ),
{
    let mut hits: Vec<StoreHit> = Vec::new();
    let mut i: usize = 0;
    while i < results.len()
        invariant
            i <= results.len(),
            chunks::results_ok(results@),
            hits.len() == i,
            fusion::hits_ok(hits@),
            forall|j: int|
                0 <= j < i ==> (#[trigger] hits@[j]).alias@.len() == 0 && hits@[j].chunk_id
                    == results@[j].id && hits@[j].score == results@[j].score,
        decreases results.len() - i,
    {
        assert(!results@[i as int].score.is_nan());
        hits.push(
            StoreHit { alias: String::new(), chunk_id: results[i].id, score: results[i].score },
        );
        i += 1;
    }
    let order = merge_store_hits(&hits);
    let n: usize = if order.len() < limit {
        order.len()
    } else {
        limit
    };
    let ghost all = order@.map_values(|k: usize| results@[k as int]);
    let mut out: Vec<SearchResult> = Vec::new();
    let mut j: usize = 0;
    while j < n
        invariant
            j <= n <= order.len(),
            hits@.len() == results@.len(),
            forall|a: int| 0 <= a < order@.len() ==> (#[trigger] order@[a]) < hits@.len(),
            all == order@.map_values(|k: usize| results@[k as int]),
            out@ == all.take(j as int),
        decreases n - j,
    {
        assert(order@[j as int] < hits@.len());
        let r = &results[order[j]];
        let copy = r.copy_scored(r.score);
        assert(copy == *r);
        out.push(copy);
        j += 1;
    }
    proof {
        assert(as_hits(results@, hits@));
        assert(all =~= fusion::merge_order(hits@).map_values(|k: usize| results@[k as int]));
        if n == order.len() {
            assert(all.take(n as int) =~= all);
        }
        assert(out@ =~= types::at_most(all, limit as int));
    }
    out
}

/// The bits of 0.15, the distance below which a result is almost certain.
pub const HIGH_CONFIDENCE_DISTANCE: u32 = 0x3e19_999a;

/// How many results have to be almost certain for the full-text search to be
/// skipped.
pub const EARLY_TERMINATION_TOP_N: usize = 5;

/// The best results are all almost certain.
pub open spec fn all_certain(results: Seq<SearchResult>) -> bool {
    results.len() > 0 && forall|i: int|
        0 <= i < results.len() && i < EARLY_TERMINATION_TOP_N ==> (
        #[trigger] results[i]).distance.lt(Score { bits: HIGH_CONFIDENCE_DISTANCE })
}

/// Whether the full-text search is skipped: because the options say so, or
/// because the best results are all almost certain.
pub fn skip_full_text(results: &Vec<SearchResult>, vector_only: bool) -> (r: bool)
    ensures
        r == (vector_only || all_certain(results@)),
{
    if vector_only {
        return true;
    }
    let mut i: usize = 0;
    while i < results.len() && i < EARLY_TERMINATION_TOP_N
        invariant
            i <= results.len(),
            i <= EARLY_TERMINATION_TOP_N,
            !vector_only,
            forall|j: int|
                0 <= j < i ==> (#[trigger] results@[j]).distance.lt(
                    Score { bits: HIGH_CONFIDENCE_DISTANCE },
                ),
        decreases results.len() - i,
    {
        if !results[i].distance.less(Score::from_bits(HIGH_CONFIDENCE_DISTANCE)) {
            assert(!results@[i as int].distance.lt(Score { bits: HIGH_CONFIDENCE_DISTANCE }));
            return false;
        }
        i += 1;
    }
    results.len() > 0
}

/// How many of the fused hits become results: more with a path filter, some of
/// whose results will be dropped.
pub open spec fn taken(options: SearchOptions, fused: int) -> int {
    if options.rerank {
        chunks::smaller(
            match options.rerank_top {
                Some(n) => n as int,
                None => options.max_results as int,
            },
            fused,
        )
    } else if options.filter_path is Some {
        options.max_results * 3
    } else {
        options.max_results as int
    }
}

/// How many of the fused hits become results.
pub fn take_count(options: &SearchOptions, fused: usize) -> (r: usize)
    requires
        !options.rerank && options.filter_path is Some ==> options.max_results * 3 <= usize::MAX,
    ensures
        r == taken(*options, fused as int),
{
    if options.rerank {
        let n: usize = match options.rerank_top {
            Some(n) => n,
            None => options.max_results,
        };
        if n < fused {
            n
        } else {
            fused
        }
    } else if options.filter_path.is_some() {
        options.max_results * 3
    } else {
        options.max_results
    }
}

/// The result is under the path that the options ask for.
pub open spec fn under_filter(r: SearchResult, filter: Option<Seq<char>>) -> bool {
    filter is Some ==> text::begins_with(
        paths::without_dots(paths::normal(r.path@)),
        paths::normal_filter(filter->0),
    )
}

/// Those of the results that are under the path.
pub open spec fn filtered(results: Seq<SearchResult>, filter: Option<Seq<char>>) -> Seq<SearchResult>
    decreases results.len(),
{
    if results.len() == 0 {
        Seq::empty()
    } else {
        let before = filtered(results.drop_last(), filter);
        if under_filter(results.last(), filter) {
            before.push(results.last())
        } else {
            before
        }
    }
}

/// Those of the results that are under the path that the options ask for.
pub fn filter_by_path(results: &Vec<SearchResult>, filter_path: &Option<String>) -> (r: Vec<
    SearchResult,
>)
    ensures
        r@ == filtered(results@, types::opt_text(*filter_path)),
{
    let ghost f = types::opt_text(*filter_path);
    let filter = match filter_path {
        Some(p) => Some(normalize_filter_path(p.as_str())),
        None => None,
    };
    let mut out: Vec<SearchResult> = Vec::new();
    let mut i: usize = 0;
    while i < results.len()
        invariant
            i <= results.len(),
            filter is Some == f is Some,
            filter is Some ==> filter->0@ == paths::normal_filter(f->0),
            out@ == filtered(results@.take(i as int), f),
        decreases results.len() - i,
    {
        let r = &results[i];
        proof {
            assert(results@.take(i + 1).drop_last() =~= results@.take(i as int));
            assert(results@.take(i + 1).last() == *r);
        }
        let keep = match &filter {
            Some(p) => begins_with_filter(r.path.as_str(), p.as_str()),
            None => true,
        };
        if keep {
            let copy = r.copy_scored(r.score);
            assert(copy == *r);
            out.push(copy);
        }
        i += 1;
    }
    proof {
        assert(results@.take(results@.len() as int) =~= results@);
    }
    out
}

/// The results of the fused hits that the options want, under the path that
/// they ask for. `looked_up` holds, place by place, the stored chunks of hits
/// without a vector result.
pub fn select_results(
    fused: &Vec<FusedResult>,
    vector: &Vec<SearchResult>,
    looked_up: &Vec<Option<ChunkMeta>>,
    options: &SearchOptions,
) -> (r: Vec<SearchResult>)
    requires
        !options.rerank && options.filter_path is Some ==> options.max_results * 3 <= usize::MAX,
    ensures
        r@ == filtered(
            semantic::fused_results(
                fused@,
                vector@,
                looked_up@,
                chunks::smaller(fused@.len() as int, taken(*options, fused@.len() as int)),
            ),
            types::opt_text(options.filter_path),
        ),
{
    let n = take_count(options, fused.len());
    let all = semantic::map_fused(fused, vector, looked_up, n);
    filter_by_path(&all, &options.filter_path)
}

/// Which of the files are in the main language of the project, by its exact name.
pub fn language_places(languages: &Vec<String>, primary: &str) -> (r: Vec<bool>)
    ensures
        r@ == Seq::new(languages@.len(), |i: int| languages@[i]@ == primary@),
{
    let mut out: Vec<bool> = Vec::new();
    let mut i: usize = 0;
    while i < languages.len()
        invariant
            i <= languages.len(),
            out.len() == i,
            forall|j: int| 0 <= j < i ==> out@[j] == ((#[trigger] languages@[j])@ == primary@),
        decreases languages.len() - i,
    {
        out.push(str_eq(languages[i].as_str(), primary));
        i += 1;
    }
    out
}

/// The results in the order, and with the scores, that a reranker gave: pairs
/// of a place and a score.
pub fn apply_reranking(results: &Vec<SearchResult>, reranked: &Vec<(usize, Score)>) -> (r: Vec<
    SearchResult,
>)
    requires
        forall|i: int| 0 <= i < reranked@.len() ==> (#[trigger] reranked@[i]).0 < results@.len(),
    ensures
        r@ == reranked@.map_values(|p: (usize, Score)| results@[p.0 as int].scored(p.1)),
{
    let ghost all = reranked@.map_values(|p: (usize, Score)| results@[p.0 as int].scored(p.1));
    let mut out: Vec<SearchResult> = Vec::new();
    let mut i: usize = 0;
    while i < reranked.len()
        invariant
            i <= reranked.len(),
            forall|j: int| 0 <= j < reranked@.len() ==> (#[trigger] reranked@[j]).0 < results@.len(),
            all == reranked@.map_values(|p: (usize, Score)| results@[p.0 as int].scored(p.1)),
            out@ == all.take(i as int),
        decreases reranked.len() - i,
    {
        assert(reranked@[i as int].0 < results@.len());
        let (k, s) = reranked[i];
        out.push(results[k].copy_scored(s));
        i += 1;
    }
    proof {
        assert(all.take(all.len() as int) =~= all);
    }
    out
}

/// The results that are shown: under the path that the options ask for, and no
/// more than they ask for.
pub fn final_results(results: &Vec<SearchResult>, options: &SearchOptions) -> (r: Vec<SearchResult>)
    ensures
        r@ == types::at_most(
            filtered(results@, types::opt_text(options.filter_path)),
            options.max_results as int,
        ),
{
    let kept = filter_by_path(results, &options.filter_path);
    semantic::first_results(&kept, options.max_results)
}

// ---------------------------------------------------------------------------
// Showing results
// ---------------------------------------------------------------------------

/// The forms in which results are shown.
#[derive(Clone, Copy, PartialEq, Eq, Structural, Debug)]
pub enum OutputForm {
    /// One JSON document, with all results, or only the first few of each file.
    Json { per_file: Option<usize> },
    /// The paths of the files, each once.
    Compact,
    /// A text, result by result, or only the best few of each file.
    Text { per_file: Option<usize> },
}

/// How many results of a file are shown: fewer than are shown in all, or
/// without a limit of their own.
pub open spec fn file_limit(options: SearchOptions) -> Option<usize> {
    match options.per_file {
        Some(n) => if 0 < n < options.max_results {
            Some(n)
        } else {
            None
        },
        None => None,
    }
}

/// The form in which the options want the results. The results of a file are
/// limited only where that leaves fewer than are shown in all.
pub fn output_form(options: &SearchOptions) -> (r: OutputForm)
    ensures
        r == (if options.json {
            OutputForm::Json { per_file: file_limit(*options) }
        } else if options.compact {
            OutputForm::Compact
        } else {
            OutputForm::Text { per_file: file_limit(*options) }
        }),
{
    let per_file: Option<usize> = match options.per_file {
        Some(n) => if 0 < n && n < options.max_results {
            Some(n)
        } else {
            None
        },
        None => None,
    };
    if options.json {
        OutputForm::Json { per_file }
    } else if options.compact {
        OutputForm::Compact
    } else {
        OutputForm::Text { per_file }
    }
}

/// The results, of each file no more than the first `n`.
pub open spec fn capped(results: Seq<SearchResult>, n: int) -> Seq<SearchResult>
    decreases results.len(),
{
    if results.len() == 0 {
        Seq::empty()
    } else {
        let before = capped(results.drop_last(), n);
        if results_in(before, results.last().path@).len() < n {
            before.push(results.last())
        } else {
            before
        }
    }
}

/// The results of a JSON document.
pub open spec fn listed(results: Seq<SearchResult>, per_file: Option<usize>) -> Seq<SearchResult> {
    match per_file {
        Some(n) => capped(results, n as int),
        None => results,
    }
}

fn count_file(results: &Vec<SearchResult>, file: &str) -> (r: usize)
    ensures
        r == results_in(results@, file@).len(),
{
    let mut n: usize = 0;
    let mut i: usize = 0;
    while i < results.len()
        invariant
            i <= results.len(),
            n <= i,
            n == results_in(results@.take(i as int), file@).len(),
        decreases results.len() - i,
    {
        proof {
            assert(results@.take(i + 1).drop_last() =~= results@.take(i as int));
            assert(results@.take(i + 1).last() == results@[i as int]);
        }
        if str_eq(results[i].path.as_str(), file) {
            n += 1;
        }
        i += 1;
    }
    proof {
        assert(results@.take(results@.len() as int) =~= results@);
    }
    n
}

/// The results of a JSON document, in their order: all of them, or of each file
/// no more than the first few.
pub fn json_results(results: &Vec<SearchResult>, per_file: Option<usize>) -> (r: Vec<SearchResult>)
    ensures
        r@ == listed(results@, per_file),
{
    let n: usize = match per_file {
        Some(n) => n,
        None => {
            return semantic::first_results(results, results.len());
        },
    };
    let mut out: Vec<SearchResult> = Vec::new();
    let mut i: usize = 0;
    while i < results.len()
        invariant
            i <= results.len(),
            out@ == capped(results@.take(i as int), n as int),
        decreases results.len() - i,
    {
        let r = &results[i];
        proof {
            assert(results@.take(i + 1).drop_last() =~= results@.take(i as int));
            assert(results@.take(i + 1).last() == *r);
        }
        if count_file(&out, r.path.as_str()) < n {
            let copy = r.copy_scored(r.score);
            assert(copy == *r);
            out.push(copy);
        }
        i += 1;
    }
    proof {
        assert(results@.take(results@.len() as int) =~= results@);
    }
    out
}

/// The texts one behind the other, with commas between them.
pub open spec fn comma_list(parts: Seq<Seq<char>>) -> Seq<char>
    decreases parts.len(),
{
    if parts.len() == 0 {
        Seq::empty()
    } else if parts.len() == 1 {
        parts[0]
    } else {
        comma_list(parts.drop_last()) + ", "@ + parts.last()
    }
}

fn join_commas(parts: &Vec<String>) -> (r: String)
    ensures
        r@ == comma_list(text::views(parts@)),
{
    let ghost all = text::views(parts@);
    let mut out = String::new();
    let mut i: usize = 0;
    while i < parts.len()
        invariant
            i <= parts.len(),
            all == text::views(parts@),
            out@ == comma_list(all.take(i as int)),
        decreases parts.len() - i,
    {
        proof {
            assert(all.take(i + 1).drop_last() =~= all.take(i as int));
            assert(all.take(i + 1).last() == parts@[i as int]@);
        }
        if i > 0 {
            out = concat(out.as_str(), ", ");
        }
        out = concat(out.as_str(), parts[i].as_str());
        i += 1;
    }
    proof {
        assert(all.take(all.len() as int) =~= all);
    }
    out
}

/// What is said where a query holds names and nothing was found.
pub fn no_match_warning(query: &str, found: usize) -> (r: Option<String>)
    ensures
        r is Some == (found == 0 && names_in(query@).len() > 0),
        r matches Some(m) ==> m@ == "❓ No exact matches found for identifiers: "@ + comma_list(
            names_in(query@),
        ),
{
    if found > 0 {
        return None;
    }
    let identifiers = detect_identifiers(query);
    assert(text::views(identifiers@).len() == identifiers@.len());
    if identifiers.len() == 0 {
        None
    } else {
        Some(
            concat(
                "❓ No exact matches found for identifiers: ",
                join_commas(&identifiers).as_str(),
            ),
        )
    }
}

/// What is said of a path filter: how many hits it saw, and how many it left.
pub fn filter_report(filter: &str, seen: usize, left: usize) -> (r: String)
    ensures
        r@ == "🔍 Path filter '"@ + paths::normal_filter(filter@) + "': "@ + numbers::decimal(
            seen as nat,
        ) + " candidates → "@ + numbers::decimal(left as nat) + " results ("@
            + numbers::decimal(
            if left < seen {
                (seen - left) as nat
            } else {
                0
            },
        ) + " filtered out)"@,
{
    let dropped: usize = if left < seen {
        seen - left
    } else {
        0
    };
    let a = concat("🔍 Path filter '", normalize_filter_path(filter).as_str());
    let b = concat(concat(a.as_str(), "': ").as_str(), number(seen).as_str());
    let c = concat(concat(b.as_str(), " candidates → ").as_str(), number(left).as_str());
    let d = concat(concat(c.as_str(), " results (").as_str(), number(dropped).as_str());
    concat(d.as_str(), " filtered out)")
}

/// The path stands among the paths.
pub open spec fn has_path(paths_seen: Seq<Seq<char>>, path: Seq<char>) -> bool {
    exists|i: int| 0 <= i < paths_seen.len() && #[trigger] paths_seen[i] == path
}

/// The files of the results, each once, in the order of their first result.
pub open spec fn files_of(results: Seq<SearchResult>) -> Seq<Seq<char>>
    decreases results.len(),
{
    if results.len() == 0 {
        Seq::empty()
    } else {
        let before = files_of(results.drop_last());
        if has_path(before, results.last().path@) {
            before
        } else {
            before.push(results.last().path@)
        }
    }
}

fn knows_path(files: &Vec<String>, path: &[char]) -> (r: bool)
    ensures
        r == has_path(text::views(files@), path@),
{
    let ghost all = text::views(files@);
    let mut k: usize = 0;
    while k < files.len()
        invariant
            k <= files.len(),
            all == text::views(files@),
            forall|j: int| 0 <= j < k ==> #[trigger] all[j] != path@,
        decreases files.len() - k,
    {
        assert(all[k as int] == files@[k as int]@);
        if same(chars_of(files[k].as_str()).as_slice(), path) {
            return true;
        }
        k += 1;
    }
    false
}

/// The files of the results, each once, in the order of their first result.
pub fn result_files(results: &Vec<SearchResult>) -> (r: Vec<String>)
    ensures
        text::views(r@) == files_of(results@),
{
    let mut out: Vec<String> = Vec::new();
    let mut i: usize = 0;
    proof {
        assert(text::views(out@) =~= files_of(results@.take(0)));
    }
    while i < results.len()
        invariant
            i <= results.len(),
            text::views(out@) == files_of(results@.take(i as int)),
        decreases results.len() - i,
    {
        let ghost before = text::views(out@);
        proof {
            assert(results@.take(i + 1).drop_last() =~= results@.take(i as int));
            assert(results@.take(i + 1).last() == results@[i as int]);
        }
        let p = chars_of(results[i].path.as_str());
        let known = knows_path(&out, p.as_slice());
        if !known {
            out.push(string_of(p.as_slice()));
            proof {
                assert(text::views(out@) =~= before.push(p@));
            }
        }
        i += 1;
    }
    proof {
        assert(results@.take(results@.len() as int) =~= results@);
    }
    out
}

/// The results of one file.
pub open spec fn results_in(results: Seq<SearchResult>, file: Seq<char>) -> Seq<SearchResult>
    decreases results.len(),
{
    if results.len() == 0 {
        Seq::empty()
    } else {
        let before = results_in(results.drop_last(), file);
        if results.last().path@ == file {
            before.push(results.last())
        } else {
            before
        }
    }
}

/// The highest score of results, and at least 0.
pub open spec fn best_score(results: Seq<SearchResult>) -> Score
    decreases results.len(),
{
    if results.len() == 0 {
        Score { bits: 0 }
    } else {
        best_score(results.drop_last()).spec_max(results.last().score)
    }
}

/// The best results of one file, from the highest score down.
pub open spec fn best_in(results: Seq<SearchResult>, file: Seq<char>, per_file: int) -> Seq<
    SearchResult,
> {
    let r = results_in(results, file);
    types::at_most(sorting::sorted_by(chunks::result_scores(r), r), per_file)
}

/// The highest scores of the files.
pub open spec fn file_scores(results: Seq<SearchResult>, files: Seq<Seq<char>>) -> Seq<Score> {
    Seq::new(files.len(), |i: int| best_score(results_in(results, files[i])))
}

/// The results file by file: the files by their best result, and of each the
/// best few.
pub open spec fn grouped(results: Seq<SearchResult>, per_file: int) -> Seq<Seq<SearchResult>> {
    let files = files_of(results);
    sorting::sorted_by(
        file_scores(results, files),
        Seq::new(files.len(), |i: int| best_in(results, files[i], per_file)),
    )
}

/// The lists inside a vector.
pub open spec fn lists_of(v: Seq<Vec<SearchResult>>) -> Seq<Seq<SearchResult>> {
    Seq::new(v.len(), |i: int| v[i]@)
}

fn collect_file(results: &Vec<SearchResult>, file: &str) -> (r: Vec<SearchResult>)
    requires
        chunks::results_ok(results@),
    ensures
        r@ == results_in(results@, file@),
        chunks::results_ok(r@),
{
    let mut out: Vec<SearchResult> = Vec::new();
    let mut i: usize = 0;
    while i < results.len()
        invariant
            i <= results.len(),
            chunks::results_ok(results@),
            chunks::results_ok(out@),
            out@ == results_in(results@.take(i as int), file@),
        decreases results.len() - i,
    {
        let r = &results[i];
        proof {
            assert(results@.take(i + 1).drop_last() =~= results@.take(i as int));
            assert(results@.take(i + 1).last() == *r);
            assert(!results@[i as int].score.is_nan());
        }
        if str_eq(r.path.as_str(), file) {
            let copy = r.copy_scored(r.score);
            assert(copy == *r);
            out.push(copy);
        }
        i += 1;
    }
    proof {
        assert(results@.take(results@.len() as int) =~= results@);
    }
    out
}

fn highest(results: &Vec<SearchResult>) -> (r: Score)
    requires
        chunks::results_ok(results@),
    ensures
        r == best_score(results@),
        !r.is_nan(),
{
    let mut best = Score::zero();
    let mut i: usize = 0;
    while i < results.len()
        invariant
            i <= results.len(),
            chunks::results_ok(results@),
            best == best_score(results@.take(i as int)),
            !best.is_nan(),
        decreases results.len() - i,
    {
        proof {
            assert(results@.take(i + 1).drop_last() =~= results@.take(i as int));
            assert(results@.take(i + 1).last() == results@[i as int]);
            assert(!results@[i as int].score.is_nan());
        }
        best = best.max(results[i].score);
        i += 1;
    }
    proof {
        assert(results@.take(results@.len() as int) =~= results@);
    }
    best
}

/// The results file by file: the files by their best result, and of each the
/// best few.
pub fn group_by_file(results: &Vec<SearchResult>, per_file: usize) -> (r: Vec<Vec<SearchResult>>)
    requires
        chunks::results_ok(results@),
    ensures
        lists_of(r@) == grouped(results@, per_file as int),
{
    let files = result_files(results);
    let ghost fs = files_of(results@);
    let ghost bests = Seq::new(fs.len(), |i: int| best_in(results@, fs[i], per_file as int));
    let mut scores: Vec<Score> = Vec::new();
    let mut groups: Vec<Vec<SearchResult>> = Vec::new();
    let mut i: usize = 0;
    while i < files.len()
        invariant
            i <= files.len(),
            chunks::results_ok(results@),
            text::views(files@) == fs,
            bests == Seq::new(fs.len(), |k: int| best_in(results@, fs[k], per_file as int)),
            score::all_numbers(scores@),
            scores@ == file_scores(results@, fs).take(i as int),
            lists_of(groups@) == bests.take(i as int),
        decreases files.len() - i,
    {
        assert(files@[i as int]@ == fs[i as int]);
        let ghost before = lists_of(groups@);
        let own = collect_file(results, files[i].as_str());
        scores.push(highest(&own));
        let ranked = chunks::rank_results(&own);
        let best = semantic::first_results(&ranked, per_file);
        groups.push(best);
        proof {
            assert(lists_of(groups@) =~= before.push(bests[i as int]));
            assert(bests.take(i + 1) =~= bests.take(i as int).push(bests[i as int]));
            assert(file_scores(results@, fs).take(i + 1) =~= file_scores(results@, fs).take(
                i as int,
            ).push(file_scores(results@, fs)[i as int]));
        }
        i += 1;
    }
    proof {
        assert(scores@ =~= file_scores(results@, fs));
        assert(lists_of(groups@) =~= bests);
    }
    let order = rank(&scores);
    let ghost all = grouped(results@, per_file as int);
    let mut out: Vec<Vec<SearchResult>> = Vec::new();
    let mut j: usize = 0;
    while j < order.len()
        invariant
            j <= order.len(),
            scores@.len() == groups@.len(),
            sorting::is_sorting(scores@, order@),
            order@ == sorting::sorting(scores@),
            scores@ == file_scores(results@, fs),
            fs == files_of(results@),
            lists_of(groups@) == bests,
            bests == Seq::new(fs.len(), |k: int| best_in(results@, fs[k], per_file as int)),
            all == grouped(results@, per_file as int),
            lists_of(out@) == all.take(j as int),
        decreases order.len() - j,
    {
        assert(order@[j as int] < scores@.len());
        let ghost before = lists_of(out@);
        let g = &groups[order[j]];
        let copy = semantic::first_results(g, g.len());
        proof {
            assert(copy@ == g@);
            assert(lists_of(groups@)[order@[j as int] as int] == g@);
        }
        out.push(copy);
        proof {
            assert(lists_of(out@) =~= before.push(all[j as int]));
            assert(all.take(j + 1) =~= all.take(j as int).push(all[j as int]));
        }
        j += 1;
    }
    proof {
        assert(all.take(all.len() as int) =~= all);
    }
    out
}

/// The colours in which a score is printed.
#[derive(Clone, Copy, PartialEq, Eq, Structural, Debug)]
pub enum ScoreColor {
    Green,
    Yellow,
    Red,
}

/// The bits of 0.8 and 0.6, the scores above which a result is good or fair.
pub const GOOD_SCORE: u32 = 0x3f4c_cccd;

/// See `GOOD_SCORE`.
pub const FAIR_SCORE: u32 = 0x3f19_999a;

/// The colour in which a score is printed.
pub fn score_color(s: Score) -> (r: ScoreColor)
    ensures
        r == (if (Score { bits: GOOD_SCORE }).lt(s) {
            ScoreColor::Green
        } else if (Score { bits: FAIR_SCORE }).lt(s) {
            ScoreColor::Yellow
        } else {
            ScoreColor::Red
        }),
{
    if Score::from_bits(GOOD_SCORE).less(s) {
        ScoreColor::Green
    } else if Score::from_bits(FAIR_SCORE).less(s) {
        ScoreColor::Yellow
    } else {
        ScoreColor::Red
    }
}

/// The first `n` lines of a content.
pub open spec fn head_lines(content: Seq<char>, n: int) -> Seq<Seq<char>> {
    types::at_most(text::text_lines(content), n)
}

/// The first lines of a content, and whether there are more.
pub fn content_preview(content: &str, n: usize) -> (r: (Vec<String>, bool))
    ensures
        text::views(r.0@) == head_lines(content@, n as int),
        r.1 == (text::text_lines(content@).len() > n),
{
    let all = lines(chars_of(content).as_slice());
    let ghost ls = text::text_lines(content@);
    assert(text::views(all@).len() == all@.len());
    let k: usize = if all.len() < n {
        all.len()
    } else {
        n
    };
    let mut out: Vec<String> = Vec::new();
    let mut i: usize = 0;
    proof {
        assert(text::views(out@) =~= ls.take(0));
    }
    while i < k
        invariant
            i <= k <= all.len(),
            text::views(all@) == ls,
            text::views(out@) == ls.take(i as int),
        decreases k - i,
    {
        let ghost before = text::views(out@);
        assert(all@[i as int]@ == ls[i as int]);
        out.push(string_of(all[i].as_slice()));
        proof {
            assert(text::views(out@) =~= before.push(ls[i as int]));
            assert(ls.take(i + 1) =~= ls.take(i as int).push(ls[i as int]));
        }
        i += 1;
    }
    proof {
        if k == all.len() {
            assert(ls.take(k as int) =~= ls);
        }
    }
    (out, all.len() > n)
}

/// The first three lines of a content in one.
pub open spec fn snippet_line(content: Seq<char>) -> Seq<char> {
    text::join_char(head_lines(content, 3), ' ')
}

/// A snippet of a content: its first three lines in one, cut behind 100 bytes.
pub fn content_snippet(content: &str) -> (r: String)
    requires
        text::utf8_len(snippet_line(content@)) > 100 ==> text::at_boundary(
            snippet_line(content@),
            100,
        ),
    ensures
        r@ == (if text::utf8_len(snippet_line(content@)) > 100 {
            snippet_line(content@).take(
                text::chars_before(snippet_line(content@), 100) as int,
            ) + "..."@
        } else {
            snippet_line(content@)
        }),
{
    let (head, more) = content_preview(content, 3);
    let mut parts: Vec<Vec<char>> = Vec::new();
    let mut i: usize = 0;
    let ghost hs = text::views(head@);
    proof {
        assert(text::views(parts@) =~= hs.take(0));
    }
    while i < head.len()
        invariant
            i <= head.len(),
            hs == text::views(head@),
            text::views(parts@) == hs.take(i as int),
        decreases head.len() - i,
    {
        let ghost before = text::views(parts@);
        parts.push(chars_of(head[i].as_str()));
        proof {
            assert(text::views(parts@) =~= before.push(hs[i as int]));
            assert(hs.take(i + 1) =~= hs.take(i as int).push(hs[i as int]));
        }
        i += 1;
    }
    proof {
        assert(hs.take(hs.len() as int) =~= hs);
    }
    let line = join(&parts, ' ');
    if has_bytes(line.as_slice(), 101) {
        let k = chars_before_byte(line.as_slice(), 100);
        let mut out = copy_of(slice_subrange(line.as_slice(), 0, k));
        push_all(&mut out, chars_of("...").as_slice());
        proof {
            assert(line@.subrange(0, k as int) =~= line@.take(k as int));
        }
        string_of(out.as_slice())
    } else {
        string_of(line.as_slice())
    }
}

/// A filter never brings a result in that was not there, and keeps every result
/// under the path.
pub proof fn law_filter_is_exact(results: Seq<SearchResult>, filter: Option<Seq<char>>, r: SearchResult)
    ensures
        filtered(results, filter).contains(r) == (results.contains(r) && under_filter(r, filter)),
    decreases results.len(),
{
    if results.len() > 0 {
        let front = results.drop_last();
        law_filter_is_exact(front, filter, r);
        let before = filtered(front, filter);
        assert(results =~= front.push(results.last()));
        if results.contains(r) {
            let i = choose|i: int| 0 <= i < results.len() && results[i] == r;
            if i < front.len() {
                assert(front[i] == r);
            }
        }
        if front.contains(r) {
            let i = choose|i: int| 0 <= i < front.len() && front[i] == r;
            assert(results[i] == r);
        }
        assert(results[results.len() - 1] == results.last());
        if under_filter(results.last(), filter) {
            let after = before.push(results.last());
            assert(after[before.len() as int] == results.last());
            if before.contains(r) {
                let i = choose|i: int| 0 <= i < before.len() && before[i] == r;
                assert(after[i] == r);
            }
            if after.contains(r) {
                let i = choose|i: int| 0 <= i < after.len() && after[i] == r;
                if i < before.len() {
                    assert(before[i] == r);
                }
            }
        }
    }
}

/// Capping keeps of each file the first results, up to the number.
proof fn lemma_capped_file(results: Seq<SearchResult>, n: int, file: Seq<char>)
    requires
        0 <= n,
    ensures
        results_in(capped(results, n), file) == types::at_most(results_in(results, file), n),
        capped(results, n).len() <= results.len(),
    decreases results.len(),
{
    if results.len() > 0 {
        let front = results.drop_last();
        let last = results.last();
        let before = capped(front, n);
        lemma_capped_file(front, n, file);
        lemma_capped_file(front, n, last.path@);
        assert(before.push(last).drop_last() =~= before);
        let own = results_in(front, file);
        if last.path@ == file {
            if own.len() < n {
                assert(types::at_most(own, n) =~= own);
                assert(types::at_most(own.push(last), n) =~= own.push(last));
            } else {
                assert(types::at_most(own.push(last), n) =~= types::at_most(own, n));
            }
        }
    }
}

/// A file has no more results than there are.
proof fn lemma_file_len(results: Seq<SearchResult>, file: Seq<char>)
    ensures
        results_in(results, file).len() <= results.len(),
    decreases results.len(),
{
    if results.len() > 0 {
        lemma_file_len(results.drop_last(), file);
    }
}

/// A limit for each file holds in a JSON document too: no file has more results
/// in it, the first ones of each file stay, and there are no more in all than
/// are asked for.
pub proof fn law_json_keeps_file_limit(
    results: Seq<SearchResult>,
    options: SearchOptions,
    file: Seq<char>,
)
    requires
        results.len() <= options.max_results,
        options.per_file is Some,
        options.per_file->Some_0 > 0,
    ensures
        results_in(listed(results, file_limit(options)), file) == types::at_most(
            results_in(results, file),
            options.per_file->Some_0 as int,
        ),
        results_in(listed(results, file_limit(options)), file).len()
            <= options.per_file->Some_0,
        listed(results, file_limit(options)).len() <= options.max_results,
{
    let n = options.per_file->Some_0 as int;
    lemma_capped_file(results, n, file);
    lemma_file_len(results, file);
    if n >= options.max_results {
        assert(types::at_most(results_in(results, file), n) =~= results_in(results, file));
    }
}

/// The files of results are all different.
proof fn lemma_files_distinct(results: Seq<SearchResult>)
    ensures
        files_of(results).no_duplicates(),
        files_of(results).len() <= results.len(),
    decreases results.len(),
{
    if results.len() > 0 {
        let before = files_of(results.drop_last());
        lemma_files_distinct(results.drop_last());
        if !has_path(before, results.last().path@) {
            let all = before.push(results.last().path@);
            assert forall|i: int, j: int|
                0 <= i < all.len() && 0 <= j < all.len() && i != j implies all[i] != all[j] by {
                if i < before.len() && j == before.len() {
                    assert(before[i] != results.last().path@);
                }
                if j < before.len() && i == before.len() {
                    assert(before[j] != results.last().path@);
                }
            }
        }
    }
}

/// The results of a file have its path.
proof fn lemma_file_path(results: Seq<SearchResult>, file: Seq<char>, k: int)
    requires
        0 <= k < results_in(results, file).len(),
    ensures
        results_in(results, file)[k].path@ == file,
    decreases results.len(),
{
    let before = results_in(results.drop_last(), file);
    if k < before.len() {
        lemma_file_path(results.drop_last(), file, k);
    }
}

/// The best results of a file have its path.
proof fn lemma_best_path(results: Seq<SearchResult>, file: Seq<char>, per_file: int, k: int)
    requires
        results.len() <= usize::MAX,
        0 <= per_file,
        0 <= k < best_in(results, file, per_file).len(),
    ensures
        best_in(results, file, per_file)[k].path@ == file,
{
    let own = results_in(results, file);
    let keys = chunks::result_scores(own);
    lemma_file_len(results, file);
    sorting::lemma_sorting_exists(keys);
    let order = sorting::sorting(keys);
    assert(0 <= order[k] < own.len());
    lemma_file_path(results, file, order[k] as int);
    assert(sorting::sorted_by(keys, own)[k] == own[order[k] as int]);
}

/// A limit for each file holds in a text: no group of results is longer, and two
/// results are of one file exactly if they stand in one group.
pub proof fn law_text_keeps_file_limit(
    results: Seq<SearchResult>,
    per_file: int,
    i: int,
    j: int,
    a: int,
    b: int,
)
    requires
        results.len() <= usize::MAX,
        0 < per_file,
        0 <= i < grouped(results, per_file).len(),
        0 <= j < grouped(results, per_file).len(),
        0 <= a < grouped(results, per_file)[i].len(),
        0 <= b < grouped(results, per_file)[j].len(),
    ensures
        grouped(results, per_file)[i].len() <= per_file,
        grouped(results, per_file)[i][a].path@ == grouped(results, per_file)[j][b].path@ <==> i
            == j,
{
    let files = files_of(results);
    let bests = Seq::new(files.len(), |k: int| best_in(results, files[k], per_file));
    let keys = file_scores(results, files);
    lemma_files_distinct(results);
    sorting::lemma_sorting_exists(keys);
    let order = sorting::sorting(keys);
    sorting::lemma_sorting_covers(keys, order);
    let m = order[i] as int;
    let n = order[j] as int;
    assert(grouped(results, per_file)[i] == bests[m]);
    assert(grouped(results, per_file)[j] == bests[n]);
    lemma_best_path(results, files[m], per_file, a);
    lemma_best_path(results, files[n], per_file, b);
    assert(m == n <==> i == j);
}

/// Lists one behind the other.
pub open spec fn chained(lists: Seq<Seq<SearchResult>>) -> Seq<SearchResult>
    decreases lists.len(),
{
    if lists.len() == 0 {
        Seq::empty()
    } else {
        chained(lists.drop_last()) + lists.last()
    }
}

/// The results in the order in which a text shows them.
pub open spec fn printed(results: Seq<SearchResult>, per_file: Option<usize>) -> Seq<SearchResult> {
    match per_file {
        Some(n) => chained(grouped(results, n as int)),
        None => results,
    }
}

/// The results of a file in two lists are those in one and then those in the
/// other.
proof fn lemma_file_in_both(a: Seq<SearchResult>, b: Seq<SearchResult>, file: Seq<char>)
    ensures
        results_in(a + b, file) == results_in(a, file) + results_in(b, file),
    decreases b.len(),
{
    if b.len() == 0 {
        assert(a + b =~= a);
        assert(results_in(a, file) + results_in(b, file) =~= results_in(a, file));
    } else {
        assert((a + b).drop_last() =~= a + b.drop_last());
        assert((a + b).last() == b.last());
        lemma_file_in_both(a, b.drop_last(), file);
        assert(results_in(a + b, file) =~= results_in(a, file) + results_in(b, file));
    }
}

/// A file without results in any list has none in the chained lists.
proof fn lemma_chained_none(lists: Seq<Seq<SearchResult>>, file: Seq<char>)
    requires
        forall|i: int| 0 <= i < lists.len() ==> results_in(#[trigger] lists[i], file).len() == 0,
    ensures
        results_in(chained(lists), file).len() == 0,
    decreases lists.len(),
{
    if lists.len() > 0 {
        let front = lists.drop_last();
        assert forall|i: int| 0 <= i < front.len() implies results_in(
            #[trigger] front[i],
            file,
        ).len() == 0 by {
            assert(front[i] == lists[i]);
        }
        lemma_chained_none(front, file);
        lemma_file_in_both(chained(front), lists.last(), file);
        assert(results_in(lists[lists.len() - 1], file).len() == 0);
    }
}

/// Where only one list has results of a file, the chained lists have no more of
/// them than that list.
proof fn lemma_chained_file(lists: Seq<Seq<SearchResult>>, n: int, file: Seq<char>)
    requires
        0 <= n,
        forall|i: int| 0 <= i < lists.len() ==> (#[trigger] lists[i]).len() <= n,
        forall|i: int, j: int|
            0 <= i < j < lists.len() ==> results_in(#[trigger] lists[i], file).len() == 0
                || results_in(#[trigger] lists[j], file).len() == 0,
    ensures
        results_in(chained(lists), file).len() <= n,
    decreases lists.len(),
{
    if lists.len() > 0 {
        let front = lists.drop_last();
        let last = lists[lists.len() - 1];
        lemma_file_in_both(chained(front), last, file);
        lemma_file_len(last, file);
        if results_in(last, file).len() == 0 {
            assert forall|i: int| 0 <= i < front.len() implies (#[trigger] front[i]).len() <= n by {
                assert(front[i] == lists[i]);
            }
            assert forall|i: int, j: int| 0 <= i < j < front.len() implies results_in(
                #[trigger] front[i],
                file,
            ).len() == 0 || results_in(#[trigger] front[j], file).len() == 0 by {
                assert(front[i] == lists[i] && front[j] == lists[j]);
            }
            lemma_chained_file(front, n, file);
        } else {
            assert forall|i: int| 0 <= i < front.len() implies results_in(
                #[trigger] front[i],
                file,
            ).len() == 0 by {
                assert(front[i] == lists[i]);
            }
            lemma_chained_none(front, file);
        }
    }
}

/// A list with results of a file has one at some place.
proof fn lemma_file_place(results: Seq<SearchResult>, file: Seq<char>) -> (k: int)
    requires
        results_in(results, file).len() > 0,
    ensures
        0 <= k < results.len(),
        results[k].path@ == file,
    decreases results.len(),
{
    if results.last().path@ == file {
        results.len() - 1
    } else {
        lemma_file_place(results.drop_last(), file)
    }
}

/// The sum of numbers.
spec fn total(counts: Seq<nat>) -> nat
    decreases counts.len(),
{
    if counts.len() == 0 {
        0
    } else {
        total(counts.drop_last()) + counts.last()
    }
}

/// Setting a number to 0 takes it out of the sum.
proof fn lemma_total_without(counts: Seq<nat>, k: int)
    requires
        0 <= k < counts.len(),
    ensures
        total(counts) == total(counts.update(k, 0)) + counts[k],
    decreases counts.len(),
{
    let less = counts.update(k, 0);
    if k < counts.len() - 1 {
        lemma_total_without(counts.drop_last(), k);
        assert(less.drop_last() =~= counts.drop_last().update(k, 0));
    } else {
        assert(less.drop_last() =~= counts.drop_last());
    }
}

/// Numbers at different places sum up to no more than all of them.
proof fn lemma_total_of_some(counts: Seq<nat>, order: Seq<usize>)
    requires
        order.no_duplicates(),
        forall|a: int| 0 <= a < order.len() ==> 0 <= #[trigger] order[a] < counts.len(),
    ensures
        total(order.map_values(|k: usize| counts[k as int])) <= total(counts),
    decreases order.len(),
{
    let picked = order.map_values(|k: usize| counts[k as int]);
    if order.len() > 0 {
        let front = order.drop_last();
        let last = order.last() as int;
        assert(0 <= order[order.len() - 1] < counts.len());
        let less = counts.update(last, 0);
        lemma_total_without(counts, last);
        assert forall|a: int| 0 <= a < front.len() implies 0 <= #[trigger] front[a]
            < less.len() by {
            assert(front[a] == order[a]);
        }
        lemma_total_of_some(less, front);
        assert(picked.drop_last() =~= front.map_values(|k: usize| less[k as int])) by {
            assert forall|a: int| 0 <= a < front.len() implies counts[front[a] as int]
                == less[front[a] as int] by {
                assert(front[a] == order[a]);
                assert(order[a] != order[order.len() - 1]);
            }
        }
    }
}

/// How many results each file has.
spec fn file_counts(results: Seq<SearchResult>, files: Seq<Seq<char>>) -> Seq<nat> {
    Seq::new(files.len(), |i: int| results_in(results, files[i]).len())
}

/// One more result adds at most one to the counts of different files.
proof fn lemma_one_more(results: Seq<SearchResult>, files: Seq<Seq<char>>)
    requires
        results.len() > 0,
        files.no_duplicates(),
    ensures
        total(file_counts(results, files)) <= total(file_counts(results.drop_last(), files)) + 1,
        !files.contains(results.last().path@) ==> total(file_counts(results, files)) == total(
            file_counts(results.drop_last(), files),
        ),
    decreases files.len(),
{
    if files.len() > 0 {
        let front = files.drop_last();
        assert(file_counts(results, files).drop_last() =~= file_counts(results, front));
        assert(file_counts(results.drop_last(), files).drop_last() =~= file_counts(
            results.drop_last(),
            front,
        ));
        lemma_one_more(results, front);
        let path = results.last().path@;
        if front.contains(path) {
            let i = choose|i: int| 0 <= i < front.len() && front[i] == path;
            assert(files[i] == path);
            assert(files[files.len() - 1] != path);
        }
        if files.last() == path {
            assert(files[files.len() - 1] == path);
        }
    }
}

/// Different files have together no more results than there are.
proof fn lemma_counts(results: Seq<SearchResult>, files: Seq<Seq<char>>)
    requires
        files.no_duplicates(),
    ensures
        total(file_counts(results, files)) <= results.len(),
    decreases results.len(),
{
    if results.len() > 0 {
        lemma_counts(results.drop_last(), files);
        lemma_one_more(results, files);
    } else {
        assert(results =~= Seq::empty());
        lemma_no_counts(files);
    }
}

/// Without results all counts are 0.
proof fn lemma_no_counts(files: Seq<Seq<char>>)
    ensures
        total(file_counts(Seq::empty(), files)) == 0,
    decreases files.len(),
{
    if files.len() > 0 {
        assert(file_counts(Seq::empty(), files).drop_last() =~= file_counts(
            Seq::empty(),
            files.drop_last(),
        ));
        lemma_no_counts(files.drop_last());
    }
}

/// Chained lists are as long as the lists together.
proof fn lemma_chained_len(lists: Seq<Seq<SearchResult>>)
    ensures
        chained(lists).len() == total(lists.map_values(|l: Seq<SearchResult>| l.len())),
    decreases lists.len(),
{
    let lens = lists.map_values(|l: Seq<SearchResult>| l.len());
    if lists.len() > 0 {
        lemma_chained_len(lists.drop_last());
        assert(lens.drop_last() =~= lists.drop_last().map_values(|l: Seq<SearchResult>| l.len()));
    }
}

/// Numbers that are no larger, place by place, have no larger sum.
proof fn lemma_total_grows(a: Seq<nat>, b: Seq<nat>)
    requires
        a.len() == b.len(),
        forall|i: int| 0 <= i < a.len() ==> #[trigger] a[i] <= b[i],
    ensures
        total(a) <= total(b),
    decreases a.len(),
{
    if a.len() > 0 {
        assert forall|i: int| 0 <= i < a.drop_last().len() implies #[trigger] a.drop_last()[i]
            <= b.drop_last()[i] by {
            assert(a[i] <= b[i]);
        }
        lemma_total_grows(a.drop_last(), b.drop_last());
        assert(a[a.len() - 1] <= b[b.len() - 1]);
    }
}

/// Grouping brings no more results than there are.
proof fn lemma_grouped_len(results: Seq<SearchResult>, per_file: int)
    requires
        results.len() <= usize::MAX,
        0 <= per_file,
    ensures
        chained(grouped(results, per_file)).len() <= results.len(),
{
    let files = files_of(results);
    let keys = file_scores(results, files);
    let counts = file_counts(results, files);
    let lists = grouped(results, per_file);
    lemma_files_distinct(results);
    sorting::lemma_sorting_exists(keys);
    let order = sorting::sorting(keys);
    sorting::lemma_sorting_covers(keys, order);
    lemma_chained_len(lists);
    let lens = lists.map_values(|l: Seq<SearchResult>| l.len());
    let picked = order.map_values(|k: usize| counts[k as int]);
    assert forall|i: int| 0 <= i < lens.len() implies #[trigger] lens[i] <= picked[i] by {
        let k = order[i] as int;
        assert(0 <= order[i] < keys.len());
        let own = results_in(results, files[k]);
        lemma_file_len(results, files[k]);
        sorting::lemma_sorting_exists(chunks::result_scores(own));
        assert(lists[i] == best_in(results, files[k], per_file));
    }
    lemma_total_grows(lens, picked);
    lemma_total_of_some(counts, order);
    lemma_counts(results, files);
}

/// A limit for each file holds in a text and in a JSON document alike: neither
/// shows more results of one file, nor more in all than are asked for.
pub proof fn law_file_limit_in_every_form(
    results: Seq<SearchResult>,
    options: SearchOptions,
    file: Seq<char>,
)
    requires
        results.len() <= options.max_results,
        options.per_file is Some,
        options.per_file->Some_0 > 0,
    ensures
        results_in(listed(results, file_limit(options)), file).len() <= options.per_file->Some_0,
        results_in(printed(results, file_limit(options)), file).len() <= options.per_file->Some_0,
        listed(results, file_limit(options)).len() <= options.max_results,
        printed(results, file_limit(options)).len() <= options.max_results,
{
    law_json_keeps_file_limit(results, options, file);
    lemma_file_len(results, file);
    if file_limit(options) is Some {
        let n = options.per_file->Some_0 as int;
        let lists = grouped(results, n);
        lemma_grouped_len(results, n);
        assert forall|i: int| 0 <= i < lists.len() implies (#[trigger] lists[i]).len() <= n by {
            lemma_group_len(results, n, i);
        }
        assert forall|i: int, j: int| 0 <= i < j < lists.len() implies results_in(
            #[trigger] lists[i],
            file,
        ).len() == 0 || results_in(#[trigger] lists[j], file).len() == 0 by {
            if results_in(lists[i], file).len() > 0 && results_in(lists[j], file).len() > 0 {
                let a = lemma_file_place(lists[i], file);
                let b = lemma_file_place(lists[j], file);
                law_text_keeps_file_limit(results, n, i, j, a, b);
            }
        }
        lemma_chained_file(lists, n, file);
    }
}

/// No group is longer than the limit.
proof fn lemma_group_len(results: Seq<SearchResult>, per_file: int, i: int)
    requires
        results.len() <= usize::MAX,
        0 <= per_file,
        0 <= i < grouped(results, per_file).len(),
    ensures
        grouped(results, per_file)[i].len() <= per_file,
{
    let files = files_of(results);
    let keys = file_scores(results, files);
    lemma_files_distinct(results);
    sorting::lemma_sorting_exists(keys);
    let order = sorting::sorting(keys);
    assert(0 <= order[i] < keys.len());
    let k = order[i] as int;
    assert(grouped(results, per_file)[i] == best_in(results, files[k], per_file));
}

/// A search by vectors alone fetches as many results as are asked for. Any other
/// fetches three times as many and no fewer than a hundred where the query names
/// something, and five times as many and no fewer than two hundred where not.
pub proof fn law_more_is_fetched(n: int)
    ensures
        fetch_count(true, true, n) == n,
        fetch_count(true, false, n) == n,
        fetch_count(false, true, n) >= 3 * n,
        fetch_count(false, true, n) >= 100,
        fetch_count(false, true, n) == 3 * n || fetch_count(false, true, n) == 100,
        fetch_count(false, false, n) >= 5 * n,
        fetch_count(false, false, n) >= 200,
        fetch_count(false, false, n) == 5 * n || fetch_count(false, false, n) == 200,
{
}

/// The constants of the fusion are those that suit the query, and none is above
/// the one that is asked for, 20 without a wish.
pub proof fn law_constants_of_the_search(query: Seq<char>, k: usize)
    ensures
        fusion::DEFAULT_RRF_K == 20,
        fusion::EXACT_MATCH_RRF_K == 5,
        suited_constants(query, None) == suited_constants(query, Some(20)),
        suited_constants(query, Some(k)).0 <= k && suited_constants(query, Some(k)).1 <= k,
        names_in(query).len() > 0 && k >= 28 ==> suited_constants(query, Some(k)) == (12int, 28int),
        names_in(query).len() > 0 && 12 <= k < 28 ==> suited_constants(query, Some(k)) == (
            12int,
            k as int,
        ),
        names_in(query).len() == 0 && query::intent_of(query) is Some && k >= 25
            ==> suited_constants(query, Some(k)) == (15int, 25int),
        names_in(query).len() == 0 && query::intent_of(query) is None && k >= 20
            ==> suited_constants(query, Some(k)) == (20int, 20int),
        k < 12 ==> suited_constants(query, Some(k)) == (k as int, k as int),
{
}

/// A text search is left out only where there are results and each of the first
/// five is nearer than 0.15. Those behind them do not count.
pub proof fn law_certain_results(results: Seq<SearchResult>, i: int)
    ensures
        HIGH_CONFIDENCE_DISTANCE == 0x3e19_999a,
        all_certain(results) ==> results.len() > 0,
        0 <= i < results.len() && i < 5 && all_certain(results) ==> results[i].distance.lt(
            Score { bits: 0x3e19_999a },
        ),
        results.len() > 0 && (forall|j: int|
            0 <= j < results.len() && j < 5 ==> (#[trigger] results[j]).distance.lt(
                Score { bits: 0x3e19_999a },
            )) ==> all_certain(results),
{
}

/// A search takes as many of the fused results as are asked for, three times as
/// many where a filter may drop some, and for reranking the number for that, where
/// there is one, and no more than there are.
pub proof fn law_results_that_are_taken(options: SearchOptions, fused: int)
    ensures
        !options.rerank && options.filter_path is None ==> taken(options, fused)
            == options.max_results,
        !options.rerank && options.filter_path is Some ==> taken(options, fused) == 3
            * options.max_results,
        options.rerank ==> taken(options, fused) <= fused,
        options.rerank && options.rerank_top is Some && options.rerank_top->0 <= fused ==> taken(
            options,
            fused,
        ) == options.rerank_top->0,
        options.rerank && options.rerank_top is None && options.max_results <= fused ==> taken(
            options,
            fused,
        ) == options.max_results,
        options.rerank && options.rerank_top is Some && options.rerank_top->0 > fused ==> taken(
            options,
            fused,
        ) == fused,
{
}

/// A filter selects the results whose path, in its normal form and without leading
/// dots, has the filter's characters at its beginning. Without a filter all stay.
pub proof fn law_filter_selects(results: Seq<SearchResult>, filter: Option<Seq<char>>) -> (places:
    Seq<int>)
    ensures
        sorting::selects(
            places,
            results.len() as int,
            |i: int|
                filter is None || {
                    let path = paths::without_dots(paths::normal(results[i].path@));
                    let start = paths::normal_filter(filter->0);
                    start.len() <= path.len() && path.take(start.len() as int) == start
                },
        ),
        filtered(results, filter).len() == places.len(),
        forall|k: int|
            0 <= k < places.len() ==> #[trigger] filtered(results, filter)[k]
                == results[places[k]],
    decreases results.len(),
{
    let wanted = |i: int|
        filter is None || {
            let path = paths::without_dots(paths::normal(results[i].path@));
            let start = paths::normal_filter(filter->0);
            start.len() <= path.len() && path.take(start.len() as int) == start
        };
    if results.len() == 0 {
        Seq::empty()
    } else {
        let front = results.drop_last();
        let before = law_filter_selects(front, filter);
        let first = filtered(front, filter);
        let all = filtered(results, filter);
        let places = sorting::lemma_selects_step(
            before,
            results.len() - 1,
            |i: int|
                filter is None || {
                    let path = paths::without_dots(paths::normal(front[i].path@));
                    let start = paths::normal_filter(filter->0);
                    start.len() <= path.len() && path.take(start.len() as int) == start
                },
            wanted,
        );
        text::law_ends_of_text(
            paths::without_dots(paths::normal(results.last().path@)),
            paths::normal_filter(filter->0),
        );
        assert(wanted(results.len() - 1) == under_filter(results.last(), filter));
        assert forall|k: int| 0 <= k < places.len() implies #[trigger] all[k] == results[places[k]] by {
            if k < before.len() {
                assert(all[k] == first[k]);
                assert(front[before[k]] == results[places[k]]);
            }
        }
        places
    }
}

/// A limit for each file counts where it is above zero and below the number of
/// results.
pub proof fn law_limit_for_files(options: SearchOptions)
    ensures
        options.per_file is None ==> file_limit(options) is None,
        options.per_file == Some(0usize) ==> file_limit(options) is None,
        options.per_file is Some && options.per_file->0 >= options.max_results ==> file_limit(
            options,
        ) is None,
        options.per_file is Some && 0 < options.per_file->0 < options.max_results ==> file_limit(
            options,
        ) == options.per_file,
{
}

/// A list grows by the next result where its file is not yet at the limit.
proof fn lemma_listed_step(results: Seq<SearchResult>, per_file: Option<usize>)
    requires
        results.len() > 0,
    ensures
        listed(results, per_file) == (if per_file is None || results_in(
            results.drop_last(),
            results.last().path@,
        ).len() < per_file->0 {
            listed(results.drop_last(), per_file).push(results.last())
        } else {
            listed(results.drop_last(), per_file)
        }),
{
    if per_file is Some {
        lemma_capped_file(results.drop_last(), per_file->0 as int, results.last().path@);
    }
}

/// A list with a limit for each file keeps the order: a result stays where fewer
/// results of its file stand before it than the limit. Without a limit all stay.
pub proof fn law_listed_selects(results: Seq<SearchResult>, per_file: Option<usize>) -> (places:
    Seq<int>)
    ensures
        sorting::selects(
            places,
            results.len() as int,
            |i: int|
                per_file is None || results_in(results.take(i), results[i].path@).len()
                    < per_file->0,
        ),
        listed(results, per_file).len() == places.len(),
        forall|k: int|
            0 <= k < places.len() ==> #[trigger] listed(results, per_file)[k]
                == results[places[k]],
    decreases results.len(),
{
    let wanted = |i: int|
        per_file is None || results_in(results.take(i), results[i].path@).len() < per_file->0;
    if results.len() == 0 {
        Seq::empty()
    } else {
        let front = results.drop_last();
        let before = law_listed_selects(front, per_file);
        let first = listed(front, per_file);
        let all = listed(results, per_file);
        let earlier = |i: int|
            per_file is None || results_in(front.take(i), front[i].path@).len() < per_file->0;
        assert forall|k: int| 0 <= k < front.len() implies earlier(k) == #[trigger] wanted(k) by {
            assert(front.take(k) =~= results.take(k));
            assert(front[k] == results[k]);
        }
        let places = sorting::lemma_selects_step(before, results.len() - 1, earlier, wanted);
        assert(results.take(results.len() - 1) =~= front);
        lemma_listed_step(results, per_file);
        assert(wanted(results.len() - 1) == (per_file is None || results_in(
            front,
            results.last().path@,
        ).len() < per_file->0));
        assert forall|k: int| 0 <= k < places.len() implies #[trigger] all[k] == results[places[k]] by {
            if k < before.len() {
                assert(all[k] == first[k]);
                assert(front[before[k]] == results[places[k]]);
            }
        }
        places
    }
}

/// The results of a file are all those with its path, in their order.
pub proof fn law_results_of_a_file(results: Seq<SearchResult>, file: Seq<char>) -> (places: Seq<int>)
    ensures
        sorting::selects(places, results.len() as int, |i: int| results[i].path@ == file),
        results_in(results, file).len() == places.len(),
        forall|k: int|
            0 <= k < places.len() ==> #[trigger] results_in(results, file)[k] == results[places[k]],
    decreases results.len(),
{
    if results.len() == 0 {
        Seq::empty()
    } else {
        let front = results.drop_last();
        let before = law_results_of_a_file(front, file);
        let first = results_in(front, file);
        let all = results_in(results, file);
        let places = sorting::lemma_selects_step(
            before,
            results.len() - 1,
            |i: int| front[i].path@ == file,
            |i: int| results[i].path@ == file,
        );
        assert forall|k: int| 0 <= k < places.len() implies #[trigger] all[k] == results[places[k]] by {
            if k < before.len() {
                assert(all[k] == first[k]);
                assert(front[before[k]] == results[places[k]]);
            }
        }
        places
    }
}

/// The files of results are the paths that no result before has, in the order of
/// their first results.
pub proof fn law_files_of_results(results: Seq<SearchResult>) -> (places: Seq<int>)
    ensures
        sorting::selects(
            places,
            results.len() as int,
            |i: int|
                !exists|j: int| 0 <= j < i && (#[trigger] results[j]).path@ == results[i].path@,
        ),
        files_of(results).len() == places.len(),
        forall|k: int|
            0 <= k < places.len() ==> #[trigger] files_of(results)[k] == results[places[k]].path@,
    decreases results.len(),
{
    let wanted = |i: int|
        !exists|j: int| 0 <= j < i && (#[trigger] results[j]).path@ == results[i].path@;
    if results.len() == 0 {
        Seq::empty()
    } else {
        let front = results.drop_last();
        let before = law_files_of_results(front);
        let first = files_of(front);
        let all = files_of(results);
        let earlier = |i: int|
            !exists|j: int| 0 <= j < i && (#[trigger] front[j]).path@ == front[i].path@;
        assert forall|k: int| 0 <= k < front.len() implies earlier(k) == #[trigger] wanted(k) by {
            if !earlier(k) {
                let j = choose|j: int| 0 <= j < k && (#[trigger] front[j]).path@ == front[k].path@;
                assert(results[j].path@ == results[k].path@);
            }
            if !wanted(k) {
                let j = choose|j: int|
                    0 <= j < k && (#[trigger] results[j]).path@ == results[k].path@;
                assert(front[j].path@ == front[k].path@);
            }
        }
        let places = sorting::lemma_selects_step(before, results.len() - 1, earlier, wanted);
        let n = results.len() - 1;
        let path = results.last().path@;
        if has_path(first, path) {
            let k = choose|k: int| 0 <= k < first.len() && #[trigger] first[k] == path;
            assert(front[before[k]].path@ == path);
            assert(results[before[k]].path@ == path);
            assert(!wanted(n));
        } else {
            if !wanted(n) {
                let j = choose|j: int| 0 <= j < n && (#[trigger] results[j]).path@ == path;
                lemma_path_is_listed(front, j);
                assert(false);
            }
            assert(wanted(n));
        }
        assert forall|k: int| 0 <= k < places.len() implies #[trigger] all[k]
            == results[places[k]].path@ by {
            if k < before.len() {
                assert(all[k] == first[k]);
                assert(front[before[k]] == results[places[k]]);
            }
        }
        places
    }
}

/// The path of a result is among the files.
proof fn lemma_path_is_listed(results: Seq<SearchResult>, j: int)
    requires
        0 <= j < results.len(),
    ensures
        has_path(files_of(results), results[j].path@),
    decreases results.len(),
{
    let front = results.drop_last();
    let first = files_of(front);
    let all = files_of(results);
    if j < front.len() {
        lemma_path_is_listed(front, j);
        let k = choose|k: int| 0 <= k < first.len() && #[trigger] first[k] == front[j].path@;
        assert(all[k] == results[j].path@);
    } else if !has_path(first, results.last().path@) {
        assert(all[first.len() as int] == results[j].path@);
    }
}

/// The best score of results is one that no result exceeds, and one of theirs or
/// zero.
pub proof fn law_best_score(results: Seq<SearchResult>, i: int)
    requires
        chunks::results_ok(results),
        0 <= i < results.len(),
    ensures
        !best_score(results).lt(results[i].score),
        !best_score(results).is_nan(),
        best_score(results).bits == 0 || exists|j: int|
            0 <= j < results.len() && (#[trigger] results[j]).score == best_score(results),
    decreases results.len(),
{
    let front = results.drop_last();
    assert(chunks::results_ok(front)) by {
        assert forall|k: int| 0 <= k < front.len() implies !(#[trigger] front[k]).score.is_nan() by {
            assert(front[k] == results[k]);
        }
    }
    assert(!results[results.len() - 1].score.is_nan());
    if front.len() > 0 {
        law_best_score(front, if i < front.len() { i } else { 0 });
        if i < front.len() {
            assert(front[i] == results[i]);
        }
        if best_score(front).bits != 0 {
            let j = choose|j: int|
                0 <= j < front.len() && (#[trigger] front[j]).score == best_score(front);
            assert(results[j].score == best_score(front));
        }
    } else {
        assert(best_score(front) == Score { bits: 0 });
    }
    assert(results[results.len() - 1].score == results.last().score);
}

/// A text shows each file once, the file with the best score first, and of each
/// its best results, no more than the limit.
pub proof fn law_groups_of_results(results: Seq<SearchResult>, per_file: int) -> (order: Seq<usize>)
    requires
        results.len() <= usize::MAX,
    ensures
        order.len() == files_of(results).len(),
        order.no_duplicates(),
        grouped(results, per_file).len() == order.len(),
        forall|a: int|
            0 <= a < order.len() ==> 0 <= #[trigger] order[a] < files_of(results).len() && grouped(
                results,
                per_file,
            )[a] == best_in(results, files_of(results)[order[a] as int], per_file),
        forall|i: int| 0 <= i < files_of(results).len() ==> order.contains(#[trigger] (i as usize)),
        forall|a: int, b: int|
            0 <= a < b < order.len() ==> best_score(
                results_in(results, files_of(results)[#[trigger] order[b] as int]),
            ).key() <= best_score(
                results_in(results, files_of(results)[#[trigger] order[a] as int]),
            ).key(),
{
    let files = files_of(results);
    lemma_files_distinct(results);
    let keys = file_scores(results, files);
    let items = Seq::new(files.len(), |i: int| best_in(results, files[i], per_file));
    let order = sorting::law_sorted_items(keys, items);
    assert forall|a: int, b: int| 0 <= a < b < order.len() implies best_score(
        results_in(results, files[#[trigger] order[b] as int]),
    ).key() <= best_score(results_in(results, files[#[trigger] order[a] as int])).key() by {
        assert(0 <= order[a] < files.len() && 0 <= order[b] < files.len());
        assert(sorting::SortKey::upto(keys[order[a] as int], keys[order[b] as int]));
    }
    order
}

/// The results of a file in a text are its results with the best scores, the best
/// first.
pub proof fn law_best_of_a_file(results: Seq<SearchResult>, file: Seq<char>, per_file: int) -> (order:
    Seq<usize>)
    requires
        results.len() <= usize::MAX,
        0 <= per_file,
    ensures
        order.len() == results_in(results, file).len(),
        order.no_duplicates(),
        best_in(results, file, per_file).len() == (if per_file < order.len() {
            per_file
        } else {
            order.len() as int
        }),
        forall|a: int|
            0 <= a < order.len() ==> 0 <= #[trigger] order[a] < results_in(results, file).len(),
        forall|a: int|
            0 <= a < best_in(results, file, per_file).len() ==> #[trigger] best_in(
                results,
                file,
                per_file,
            )[a] == results_in(results, file)[order[a] as int],
        forall|a: int, b: int|
            0 <= a < b < order.len() ==> results_in(
                results,
                file,
            )[#[trigger] order[b] as int].score.key() <= results_in(
                results,
                file,
            )[#[trigger] order[a] as int].score.key(),
{
    let own = results_in(results, file);
    lemma_file_len(results, file);
    let keys = chunks::result_scores(own);
    let order = sorting::law_sorted_items(keys, own);
    assert forall|a: int, b: int| 0 <= a < b < order.len() implies own[#[trigger] order[b] as int].score.key()
        <= own[#[trigger] order[a] as int].score.key() by {
        assert(0 <= order[a] < own.len() && 0 <= order[b] < own.len());
        assert(sorting::SortKey::upto(keys[order[a] as int], keys[order[b] as int]));
    }
    assert forall|a: int| 0 <= a < best_in(results, file, per_file).len() implies #[trigger] best_in(
        results,
        file,
        per_file,
    )[a] == own[order[a] as int] by {
        assert(0 <= order[a] < own.len());
        assert(sorting::sorted_by(keys, own)[a] == own[order[a] as int]);
    }
    order
}

/// Names in a warning stand one behind the other, with a comma and a space between
/// them.
pub proof fn law_names_with_commas(parts: Seq<Seq<char>>, last: Seq<char>)
    ensures
        comma_list(seq![last]) == last,
        parts.len() > 0 ==> comma_list(parts.push(last)) == comma_list(parts) + seq![',', ' '] + last,
        comma_list(Seq::empty()).len() == 0,
{
    reveal_strlit(", ");
    assert(", "@ =~= seq![',', ' ']);
    assert(parts.push(last).drop_last() =~= parts);
}

/// A preview has the first lines of a content, and a snippet the first three with
/// a space between them.
pub proof fn law_preview(content: Seq<char>, n: int, i: int)
    requires
        0 <= n,
    ensures
        head_lines(content, n).len() <= n,
        head_lines(content, n).len() <= text::text_lines(content).len(),
        n <= text::text_lines(content).len() ==> head_lines(content, n).len() == n,
        n > text::text_lines(content).len() ==> head_lines(content, n) == text::text_lines(content),
        0 <= i < head_lines(content, n).len() ==> head_lines(content, n)[i] == text::text_lines(
            content,
        )[i],
        text::text_lines(content).len() == 0 ==> snippet_line(content).len() == 0,
        text::text_lines(content).len() == 1 ==> snippet_line(content) == text::text_lines(
            content,
        )[0],
        text::text_lines(content).len() == 2 ==> snippet_line(content) == text::text_lines(
            content,
        )[0] + seq![' '] + text::text_lines(content)[1],
        text::text_lines(content).len() >= 3 ==> snippet_line(content) == text::text_lines(
            content,
        )[0] + seq![' '] + text::text_lines(content)[1] + seq![' '] + text::text_lines(content)[2],
{
    let all = text::text_lines(content);
    let three = head_lines(content, 3);
    reveal_with_fuel(text::join_char, 4);
    if all.len() == 1 {
        assert(three =~= seq![all[0]]);
    } else if all.len() == 2 {
        assert(three =~= seq![all[0], all[1]]);
        assert(three.drop_last() =~= seq![all[0]]);
    } else if all.len() >= 3 {
        assert(three =~= seq![all[0], all[1], all[2]]);
        assert(three.drop_last() =~= seq![all[0], all[1]]);
        assert(three.drop_last().drop_last() =~= seq![all[0]]);
    }
}

/// A score above 0.8 is good, one above 0.6 fair.
pub proof fn law_bounds_of_colors(s: Score)
    ensures
        GOOD_SCORE == 0x3f4c_cccd,
        FAIR_SCORE == 0x3f19_999a,
        (Score { bits: GOOD_SCORE }).lt(s) ==> (Score { bits: FAIR_SCORE }).lt(s),
{
}

/// Results are merged by their own ids and scores, all of one store.
pub proof fn law_results_as_hits(results: Seq<SearchResult>, hits: Seq<StoreHit>, i: int)
    requires
        as_hits(results, hits),
        0 <= i < results.len(),
    ensures
        hits.len() == results.len(),
        hits[i].alias@ == Seq::<char>::empty(),
        hits[i].chunk_id == results[i].id,
        hits[i].score == results[i].score,
{
}

/// A search goes by the vectors alone where that is wanted, where they are certain
/// and where there is no index of texts, which is then missed. Else it asks for
/// the names of the query where it has some.
pub proof fn law_ways_of_a_search(
    query: &str,
    vector: &Vec<SearchResult>,
    options: &SearchOptions,
    has_index: bool,
    r: SearchWay,
)
    requires
        call_ensures(search_way, (query, vector, options, has_index), r),
    ensures
        options.vector_only ==> r is VectorOnly && !r->index_missing,
        all_certain(vector@) ==> r is VectorOnly && !r->index_missing,
        !options.vector_only && !all_certain(vector@) && !has_index ==> r is VectorOnly
            && r->index_missing,
        !options.vector_only && !all_certain(vector@) && has_index && names_in(query@).len() == 0
            ==> r is Hybrid && (options.rrf_k is Some ==> r->k == options.rrf_k->0) && (
        options.rrf_k is None ==> r->k == 20),
        !options.vector_only && !all_certain(vector@) && has_index && names_in(query@).len() > 0
            ==> r is WithExact && text::views(r->identifiers@) == names_in(query@) && (
            r->vector_k as int,
            r->fts_k as int,
        ) == suited_constants(query@, options.rrf_k),
{
}

/// The form of the output: a document where that is asked for, else the paths
/// alone where those are, else a text.
pub proof fn law_form_of_the_output(options: &SearchOptions, r: OutputForm)
    requires
        call_ensures(output_form, (options,), r),
    ensures
        r is Json <==> options.json,
        r is Compact <==> !options.json && options.compact,
        r is Text <==> !options.json && !options.compact,
        r is Json ==> r->Json_per_file == file_limit(*options),
        r is Text ==> r->Text_per_file == file_limit(*options),
{
}

/// A warning names the identifiers of a query for which nothing was found.
pub proof fn law_warning(query: &str, found: usize, r: Option<String>)
    requires
        call_ensures(no_match_warning, (query, found), r),
    ensures
        found > 0 ==> r is None,
        names_in(query@).len() == 0 ==> r is None,
        found == 0 && names_in(query@).len() > 0 ==> r is Some && text::finishes_with(
            r->0@,
            comma_list(names_in(query@)),
        ),
{
    if r is Some {
        let list = comma_list(names_in(query@));
        text::law_ends_of_text(r->0@, list);
        assert(r->0@.skip(r->0@.len() - list.len()) =~= list);
    }
}

/// Green is above 0.8, yellow above 0.6, and all else red.
pub proof fn law_color_of_a_score(s: Score, r: ScoreColor)
    requires
        call_ensures(score_color, (s,), r),
        !s.is_nan(),
        s.bits < 0x8000_0000,
    ensures
        r == ScoreColor::Green <==> s.bits > 0x3f4c_cccd,
        r == ScoreColor::Yellow <==> 0x3f19_999a < s.bits && s.bits <= 0x3f4c_cccd,
        r == ScoreColor::Red <==> s.bits <= 0x3f19_999a,
{
}

/// A snippet is the first lines on one, cut behind a hundred bytes with three
/// dots where they are longer.
pub proof fn law_snippet(content: &str, r: String)
    requires
        text::utf8_len(snippet_line(content@)) > 100 ==> text::at_boundary(
            snippet_line(content@),
            100,
        ),
        call_ensures(content_snippet, (content,), r),
    ensures
        text::utf8_len(snippet_line(content@)) <= 100 ==> r@ == snippet_line(content@),
        text::utf8_len(snippet_line(content@)) > 100 ==> text::finishes_with(r@, seq!['.', '.', '.']),
        text::utf8_len(snippet_line(content@)) > 100 ==> r@ == snippet_line(content@).take(
            text::chars_before(snippet_line(content@), 100) as int,
        ) + seq!['.', '.', '.'],
{
    reveal_strlit("...");
    let dots = seq!['.', '.', '.'];
    assert("..."@ =~= dots);
    text::law_ends_of_text(r@, dots);
    if text::utf8_len(snippet_line(content@)) > 100 {
        assert(r@.skip(r@.len() - 3) =~= dots);
    }
}

/// Reranked results stand in the order that they were given, each with its new
/// score, and the places in the main language are marked.
pub proof fn law_reranked(
    results: &Vec<SearchResult>,
    reranked: &Vec<(usize, Score)>,
    r: Vec<SearchResult>,
    i: int,
    languages: &Vec<String>,
    primary: &str,
    marks: Vec<bool>,
    j: int,
)
    requires
        forall|i: int| 0 <= i < reranked@.len() ==> (#[trigger] reranked@[i]).0 < results@.len(),
        call_ensures(apply_reranking, (results, reranked), r),
        0 <= i < reranked@.len(),
        call_ensures(language_places, (languages, primary), marks),
        0 <= j < languages@.len(),
    ensures
        r@.len() == reranked@.len(),
        r@[i].id == results@[reranked@[i].0 as int].id,
        r@[i].path == results@[reranked@[i].0 as int].path,
        r@[i].score == reranked@[i].1,
        marks@.len() == languages@.len(),
        marks@[j] <==> languages@[j]@ == primary@,
{
    let p = reranked@[i];
    assert(p.0 < results@.len());
    assert(r@[i] == results@[p.0 as int].scored(p.1));
}

/// The results at the end keep to the filter and to the number that is asked for,
/// and none that does is left out below that number.
pub proof fn law_final_results(
    results: &Vec<SearchResult>,
    options: &SearchOptions,
    r: Vec<SearchResult>,
    i: int,
)
    requires
        call_ensures(final_results, (results, options), r),
    ensures
        r@.len() <= options.max_results,
        0 <= i < r@.len() ==> results@.contains(r@[i]) && under_filter(
            r@[i],
            types::opt_text(options.filter_path),
        ),
        0 <= i < results@.len() && under_filter(results@[i], types::opt_text(options.filter_path))
            && r@.len() < options.max_results ==> r@.contains(results@[i]),
        options.filter_path is None && results@.len() <= options.max_results ==> r@ == results@,
{
    let filter = types::opt_text(options.filter_path);
    let all = filtered(results@, filter);
    let places = law_filter_selects(results@, filter);
    if 0 <= i < r@.len() {
        assert(all.contains(r@[i])) by {
            assert(all[i] == r@[i]);
        }
        law_filter_is_exact(results@, filter, r@[i]);
    }
    if 0 <= i < results@.len() && under_filter(results@[i], filter) && r@.len() < options.max_results {
        law_filter_is_exact(results@, filter, results@[i]);
        assert(r@ == all);
    }
    if options.filter_path is None && results@.len() <= options.max_results {
        lemma_unfiltered(results@);
    }
}

proof fn lemma_unfiltered(results: Seq<SearchResult>)
    ensures
        filtered(results, None) == results,
    decreases results.len(),
{
    if results.len() > 0 {
        lemma_unfiltered(results.drop_last());
        assert(results.drop_last().push(results.last()) =~= results);
    }
}

/// The results that are selected all keep to the filter, and there are no more
/// than are taken.
pub proof fn law_selected_results(
    fused: &Vec<FusedResult>,
    vector: &Vec<SearchResult>,
    looked_up: &Vec<Option<ChunkMeta>>,
    options: &SearchOptions,
    r: Vec<SearchResult>,
    i: int,
)
    requires
        !options.rerank && options.filter_path is Some ==> options.max_results * 3 <= usize::MAX,
        call_ensures(select_results, (fused, vector, looked_up, options), r),
        0 <= i < r@.len(),
    ensures
        under_filter(r@[i], types::opt_text(options.filter_path)),
        semantic::fused_results(
            fused@,
            vector@,
            looked_up@,
            chunks::smaller(fused@.len() as int, taken(*options, fused@.len() as int)),
        ).contains(r@[i]),
{
    let filter = types::opt_text(options.filter_path);
    let all = semantic::fused_results(
        fused@,
        vector@,
        looked_up@,
        chunks::smaller(fused@.len() as int, taken(*options, fused@.len() as int)),
    );
    assert(filtered(all, filter).contains(r@[i]));
    law_filter_is_exact(all, filter, r@[i]);
}

} // verus!
