//! Semantic search: what is fetched, how hits become results, and the response.
use vstd::prelude::*;

use crate::chars;
use crate::chars::to_lowercase;
use crate::chunks;
use crate::fusion;
use crate::fusion::{merge_hits, FusedResult};
use crate::paths;
use crate::paths::{
    find_root, normalize_filter_path, normalize_path_str, normalize_root, path_matches_filter,
    prefix_path_by_root, prefix_path_with_alias, AliasRoot,
};
use crate::query;
use crate::query::{adapt_rrf_k, detect_identifiers, detect_structural_intent, ChunkKind};
use crate::score;
use crate::score::{rank, Score};
use crate::sorting;
use crate::text;
use crate::text::{chars_of, concat, owned, same, str_eq};
use crate::types;
use crate::types::{
    report, Candidate, ChunkMeta, FtsResult, SearchResult, SearchResultItem,
    SemanticSearchRequest, SemanticSearchResponse,
};

verus! {

// ---------------------------------------------------------------------------
// Planning
// ---------------------------------------------------------------------------

/// How a semantic search is run.
#[derive(Clone, Copy, PartialEq, Eq, Structural, Debug)]
pub enum SemanticMode {
    /// Full-text search alone; no embedding is needed.
    Lexical,
    /// Vector search alone.
    VectorOnly,
    /// Both, fused.
    Hybrid,
}

/// The mode that a request names; hybrid where it names no other.
pub open spec fn mode_of(name: Option<Seq<char>>) -> SemanticMode {
    if name == Some("lexical"@) {
        SemanticMode::Lexical
    } else if name == Some("semantic"@) {
        SemanticMode::VectorOnly
    } else {
        SemanticMode::Hybrid
    }
}

/// What a semantic search fetches.
#[derive(Debug)]
pub struct SemanticPlan {
    pub mode: SemanticMode,
    pub limit: usize,
    pub compact: bool,
    pub identifiers: Vec<String>,
    pub intent: Option<ChunkKind>,
    /// The constants of the fusion for vector and full-text results.
    pub rrf_k: (u32, u32),
    /// How many vector results and full-text results are fetched.
    pub fetch: usize,
    /// How many exact hits are fetched for each identifier.
    pub fetch_exact: usize,
}

impl SemanticPlan {
    /// The plan belongs to the request.
    pub open spec fn is_for(&self, request: SemanticSearchRequest) -> bool {
        &&& self.mode == mode_of(types::opt_text(request.mode))
        &&& self.limit == (match request.limit {
            Some(l) => l,
            None => 10,
        })
        &&& self.compact == (request.compact != Some(false))
        &&& text::views(self.identifiers@) == query::identifiers_of(
            text::words_of(request.query@),
        )
        &&& self.intent == query::intent_of(request.query@)
        &&& self.rrf_k == query::rrf_constants(
            self.identifiers@.len() > 0,
            self.intent is Some,
        )
        &&& self.fetch == self.limit * 5
        &&& self.fetch_exact == self.limit * 3
    }
}

impl SemanticPlan {
    /// The constants of the fusion: without names in the query the full-text
    /// results are summed with the constant of the vector results.
    pub fn fusion_constants(&self) -> (r: (u32, u32))
        ensures
            r == (if self.identifiers@.len() > 0 {
                self.rrf_k
            } else {
                (self.rrf_k.0, self.rrf_k.0)
            }),
    {
        if self.identifiers.len() > 0 {
            self.rrf_k
        } else {
            (self.rrf_k.0, self.rrf_k.0)
        }
    }
}

/// Plans a semantic search.
pub fn plan_semantic_search(request: &SemanticSearchRequest) -> (r: SemanticPlan)
    requires
        request.limit is Some ==> request.limit->0 * 5 <= usize::MAX,
    ensures
        r.is_for(*request),
{
    let limit: usize = match request.limit {
        Some(l) => l,
        None => 10,
    };
    let compact = match request.compact {
        Some(b) => b,
        None => true,
    };
    let mode = match &request.mode {
        Some(m) => if str_eq(m.as_str(), "lexical") {
            SemanticMode::Lexical
        } else if str_eq(m.as_str(), "semantic") {
            SemanticMode::VectorOnly
        } else {
            SemanticMode::Hybrid
        },
        None => SemanticMode::Hybrid,
    };
    let identifiers = detect_identifiers(request.query.as_str());
    assert(text::views(identifiers@).len() == identifiers@.len());
    let intent = detect_structural_intent(request.query.as_str());
    let rrf_k = adapt_rrf_k(request.query.as_str());
    SemanticPlan {
        mode,
        limit,
        compact,
        identifiers,
        intent,
        rrf_k,
        fetch: limit * 5,
        fetch_exact: limit * 3,
    }
}

/// How a semantic search begins.
#[derive(Debug)]
pub enum SemanticStart {
    /// It does not: this is answered.
    Refused(String),
    /// In several repositories at once.
    FanOut,
    /// In one repository, by the full-text search alone.
    Lexical,
    /// In one repository, with an embedding of the query.
    Embed,
}

/// How a semantic search begins: not at all where the request is refused.
pub fn start_semantic_search(refused: Option<String>, is_multi: bool, mode: SemanticMode) -> (r:
    SemanticStart)
    ensures
        match refused {
            Some(m) => r == SemanticStart::Refused(m),
            None => if is_multi {
                r is FanOut
            } else if mode == SemanticMode::Lexical {
                r is Lexical
            } else {
                r is Embed
            },
        },
{
    match refused {
        Some(m) => SemanticStart::Refused(m),
        None => if is_multi {
            SemanticStart::FanOut
        } else if mode == SemanticMode::Lexical {
            SemanticStart::Lexical
        } else {
            SemanticStart::Embed
        },
    }
}

/// The steps of a semantic search that can fail.
#[derive(Clone, Copy, PartialEq, Eq, Structural, Debug)]
pub enum SemanticStep {
    LoadModel,
    EmbedQuery,
    SearchVectors,
}

/// What is answered where a step fails.
pub fn step_failure(step: SemanticStep, error: &str) -> (r: String)
    ensures
        r@ == (match step {
            SemanticStep::LoadModel => "Error initializing embedding service: "@,
            SemanticStep::EmbedQuery => "Error embedding query: "@,
            SemanticStep::SearchVectors => "Error searching vector store: "@,
        }) + error@,
{
    match step {
        SemanticStep::LoadModel => concat("Error initializing embedding service: ", error),
        SemanticStep::EmbedQuery => concat("Error embedding query: ", error),
        SemanticStep::SearchVectors => concat("Error searching vector store: ", error),
    }
}

// ---------------------------------------------------------------------------
// From hits to results
// ---------------------------------------------------------------------------

/// The last result with a chunk id.
pub open spec fn last_result(results: Seq<SearchResult>, id: u32) -> Option<int>
    decreases results.len(),
{
    if results.len() == 0 {
        None
    } else if results.last().id == id {
        Some(results.len() - 1)
    } else {
        last_result(results.drop_last(), id)
    }
}

fn find_last_result(results: &Vec<SearchResult>, id: u32) -> (r: Option<usize>)
    ensures
        match r {
            Some(i) => last_result(results@, id) == Some(i as int) && i < results.len(),
            None => last_result(results@, id) is None,
        },
{
    let mut n: usize = results.len();
    proof {
        assert(results@.take(results@.len() as int) =~= results@);
    }
    while n > 0
        invariant
            n <= results.len(),
            last_result(results@, id) == last_result(results@.take(n as int), id),
        decreases n,
    {
        proof {
            assert(results@.take(n as int).drop_last() =~= results@.take(n - 1));
            assert(results@.take(n as int).last() == results@[n - 1]);
        }
        if results[n - 1].id == id {
            return Some(n - 1);
        }
        n -= 1;
    }
    None
}

/// The result that a fused hit stands for: the vector result of its chunk with
/// the fused score, or else the stored chunk where it was looked up.
pub open spec fn fused_result(
    f: FusedResult,
    vector: Seq<SearchResult>,
    looked_up: Option<ChunkMeta>,
) -> Option<SearchResult> {
    match last_result(vector, f.chunk_id) {
        Some(i) => Some(vector[i].scored(f.rrf_score)),
        None => match looked_up {
            Some(chunk) => Some(SearchResult::of_chunk(f.chunk_id, chunk, f.rrf_score)),
            None => None,
        },
    }
}

/// What was looked up for the hit at place `i`.
pub open spec fn looked_up_at(looked_up: Seq<Option<ChunkMeta>>, i: int) -> Option<ChunkMeta> {
    if 0 <= i < looked_up.len() {
        looked_up[i]
    } else {
        None
    }
}

/// The results of the first `n` fused hits.
pub open spec fn fused_results(
    fused: Seq<FusedResult>,
    vector: Seq<SearchResult>,
    looked_up: Seq<Option<ChunkMeta>>,
    n: int,
) -> Seq<SearchResult>
    decreases n,
{
    if n <= 0 {
        Seq::empty()
    } else {
        let before = fused_results(fused, vector, looked_up, n - 1);
        match fused_result(fused[n - 1], vector, looked_up_at(looked_up, n - 1)) {
            Some(r) => before.push(r),
            None => before,
        }
    }
}

/// The results of the best fused hits. `looked_up` holds, place by place, the
/// stored chunks of hits without a vector result; where it holds none, such
/// hits are dropped.
pub fn map_fused(
    fused: &Vec<FusedResult>,
    vector: &Vec<SearchResult>,
    looked_up: &Vec<Option<ChunkMeta>>,
    limit: usize,
) -> (r: Vec<SearchResult>)
    ensures
        r@ == fused_results(
            fused@,
            vector@,
            looked_up@,
            chunks::smaller(fused@.len() as int, limit as int),
        ),
{
    let n: usize = if fused.len() < limit {
        fused.len()
    } else {
        limit
    };
    let mut out: Vec<SearchResult> = Vec::new();
    let mut i: usize = 0;
    while i < n
        invariant
            i <= n <= fused.len(),
            out@ == fused_results(fused@, vector@, looked_up@, i as int),
        decreases n - i,
    {
        let f = fused[i];
        match find_last_result(vector, f.chunk_id) {
            Some(k) => {
                out.push(vector[k].copy_scored(f.rrf_score));
            },
            None => {
                if i < looked_up.len() {
                    match &looked_up[i] {
                        Some(chunk) => {
                            out.push(SearchResult::from_chunk(f.chunk_id, chunk, f.rrf_score));
                        },
                        None => {},
                    }
                }
            },
        }
        i += 1;
    }
    out
}

/// The first `limit` vector results, for when nothing can be fused.
pub fn first_results(vector: &Vec<SearchResult>, limit: usize) -> (r: Vec<SearchResult>)
    ensures
        r@ == types::at_most(vector@, limit as int),
{
    let n: usize = if vector.len() < limit {
        vector.len()
    } else {
        limit
    };
    let mut out: Vec<SearchResult> = Vec::new();
    let mut i: usize = 0;
    while i < n
        invariant
            i <= n <= vector.len(),
            out@ == vector@.take(i as int),
        decreases n - i,
    {
        let copy = vector[i].copy_scored(vector[i].score);
        assert(copy == vector@[i as int]);
        out.push(copy);
        i += 1;
    }
    proof {
        if n == vector.len() {
            assert(vector@.take(n as int) =~= vector@);
        }
    }
    out
}

/// The scores of hits.
pub open spec fn hit_scores(hits: Seq<FtsResult>) -> Seq<Score> {
    hits.map_values(|h: FtsResult| h.score)
}

/// The results of the first `n` hits: those whose chunks are stored.
pub open spec fn hit_results(hits: Seq<FtsResult>, stored: Seq<Option<ChunkMeta>>, n: int) -> Seq<
    SearchResult,
>
    decreases n,
{
    if n <= 0 {
        Seq::empty()
    } else {
        let before = hit_results(hits, stored, n - 1);
        match looked_up_at(stored, n - 1) {
            Some(chunk) => before.push(
                SearchResult::of_chunk(hits[n - 1].chunk_id, chunk, hits[n - 1].score),
            ),
            None => before,
        }
    }
}

/// The results of the best hits. `stored` holds their chunks, place by place.
pub fn resolve_fts_to_search_results(
    hits: &Vec<FtsResult>,
    stored: &Vec<Option<ChunkMeta>>,
    limit: usize,
) -> (r: Vec<SearchResult>)
    requires
        score::all_numbers(hit_scores(hits@)),
    ensures
        r@ == hit_results(hits@, stored@, chunks::smaller(hits@.len() as int, limit as int)),
        chunks::results_ok(r@),
        r@.len() <= limit,
{
    let n: usize = if hits.len() < limit {
        hits.len()
    } else {
        limit
    };
    let mut out: Vec<SearchResult> = Vec::new();
    let mut i: usize = 0;
    while i < n
        invariant
            i <= n <= hits.len(),
            n <= limit,
            score::all_numbers(hit_scores(hits@)),
            out@ == hit_results(hits@, stored@, i as int),
            chunks::results_ok(out@),
            out@.len() <= i,
        decreases n - i,
    {
        assert(!hit_scores(hits@)[i as int].is_nan());
        if i < stored.len() {
            match &stored[i] {
                Some(chunk) => {
                    out.push(SearchResult::from_chunk(hits[i].chunk_id, chunk, hits[i].score));
                },
                None => {},
            }
        }
        i += 1;
    }
    out
}

/// The hits from the highest score down.
pub fn rank_hits(hits: &Vec<FtsResult>) -> (r: Vec<FtsResult>)
    requires
        score::all_numbers(hit_scores(hits@)),
    ensures
        r@ == sorting::sorted_by(hit_scores(hits@), hits@),
{
    let mut scores: Vec<Score> = Vec::new();
    let mut i: usize = 0;
    while i < hits.len()
        invariant
            i <= hits.len(),
            scores@ == hit_scores(hits@).take(i as int),
        decreases hits.len() - i,
    {
        scores.push(hits[i].score);
        i += 1;
    }
    proof {
        assert(scores@ =~= hit_scores(hits@));
    }
    let order = rank(&scores);
    let ghost all = sorting::sorted_by(hit_scores(hits@), hits@);
    let mut out: Vec<FtsResult> = Vec::new();
    let mut j: usize = 0;
    while j < order.len()
        invariant
            j <= order.len(),
            scores@ == hit_scores(hits@),
            sorting::is_sorting(scores@, order@),
            order@ == sorting::sorting(scores@),
            all == sorting::sorted_by(hit_scores(hits@), hits@),
            out@ == all.take(j as int),
        decreases order.len() - j,
    {
        assert(order@[j as int] < scores@.len());
        out.push(hits[order[j]]);
        j += 1;
    }
    proof {
        assert(all.take(all.len() as int) =~= all);
    }
    out
}

/// A list with the exact hits of several names, one list after the other.
pub open spec fn merged_lists(fts: Seq<FtsResult>, lists: Seq<Vec<FtsResult>>) -> Seq<FtsResult>
    decreases lists.len(),
{
    if lists.len() == 0 {
        fts
    } else {
        fusion::merged(merged_lists(fts, lists.drop_last()), lists.last()@)
    }
}

proof fn lemma_merged_numbers(list: Seq<FtsResult>, hits: Seq<FtsResult>)
    requires
        score::all_numbers(hit_scores(list)),
        score::all_numbers(hit_scores(hits)),
    ensures
        score::all_numbers(hit_scores(fusion::merged(list, hits))),
    decreases hits.len(),
{
    if hits.len() > 0 {
        let front = hits.drop_last();
        assert forall|i: int| 0 <= i < hit_scores(front).len() implies !(
        #[trigger] hit_scores(front)[i]).is_nan() by {
            assert(hit_scores(hits)[i] == hit_scores(front)[i]);
        }
        lemma_merged_numbers(list, front);
        let before = fusion::merged(list, front);
        let after = fusion::merged(list, hits);
        let hit = hits.last();
        assert(!hit_scores(hits)[hits.len() - 1].is_nan());
        fusion::lemma_last_place(before, hit.chunk_id);
        assert forall|i: int| 0 <= i < hit_scores(after).len() implies !(
        #[trigger] hit_scores(after)[i]).is_nan() by {
            if i < before.len() {
                assert(!hit_scores(before)[i].is_nan());
                assert(!before[i].score.is_nan());
            }
            assert(after[i].score == hit_scores(after)[i]);
        }
    }
}

/// The hits of a lexical search: those of the full-text search with the exact
/// hits of each name merged in, from the highest score down.
pub fn lexical_hits(fts: Vec<FtsResult>, exact: Vec<Vec<FtsResult>>) -> (r: Vec<FtsResult>)
    requires
        score::all_numbers(hit_scores(fts@)),
        forall|i: int| 0 <= i < exact@.len() ==> score::all_numbers(hit_scores(#[trigger] exact@[i]@)),
    ensures
        r@ == sorting::sorted_by(
            hit_scores(merged_lists(fts@, exact@)),
            merged_lists(fts@, exact@),
        ),
        score::all_numbers(hit_scores(r@)),
{
    let ghost all = exact@;
    let ghost base = fts@;
    let mut hits = fts;
    proof {
        assert(all.take(0) =~= Seq::empty());
    }
    let mut i: usize = 0;
    while i < exact.len()
        invariant
            i <= exact.len(),
            all == exact@,
            forall|j: int|
                0 <= j < all.len() ==> score::all_numbers(hit_scores(#[trigger] all[j]@)),
            score::all_numbers(hit_scores(hits@)),
            hits@ == merged_lists(base, all.take(i as int)),
        decreases exact.len() - i,
    {
        proof {
            assert(all.take(i + 1).drop_last() =~= all.take(i as int));
            assert(all.take(i + 1).last() == all[i as int]);
            lemma_merged_numbers(hits@, all[i as int]@);
        }
        merge_hits(&mut hits, &exact[i]);
        i += 1;
    }
    proof {
        assert(all.take(all.len() as int) =~= all);
    }
    let r = rank_hits(&hits);
    proof {
        let scores = hit_scores(hits@);
        assert(scores.len() == hits.len());
        sorting::lemma_sorting_exists(scores);
        let order = sorting::sorting(scores);
        assert forall|k: int| 0 <= k < hit_scores(r@).len() implies !(
        #[trigger] hit_scores(r@)[k]).is_nan() by {
            assert(0 <= order[k] < scores.len());
            assert(!scores[order[k] as int].is_nan());
        }
    }
    r
}

// ---------------------------------------------------------------------------
// Boosting
// ---------------------------------------------------------------------------

/// Which of the results are of a kind.
pub open spec fn of_kind(results: Seq<SearchResult>, kind: ChunkKind) -> Seq<bool> {
    Seq::new(results.len(), |i: int| results[i].kind@ == kind.spec_name())
}

/// Which of the results are of the kind that a query asks for, and get a
/// higher score.
pub fn boost_kind_places(results: &Vec<SearchResult>, kind: ChunkKind) -> (r: Vec<bool>)
    ensures
        r@ == of_kind(results@, kind),
{
    let name = kind.name();
    let mut out: Vec<bool> = Vec::new();
    let mut i: usize = 0;
    while i < results.len()
        invariant
            i <= results.len(),
            name@ == kind.spec_name(),
            out.len() == i,
            forall|j: int|
                0 <= j < i ==> out@[j] == (#[trigger] results@[j].kind@ == kind.spec_name()),
        decreases results.len() - i,
    {
        out.push(str_eq(results[i].kind.as_str(), name));
        i += 1;
    }
    out
}

/// Which of the languages are the main one, in any case.
pub open spec fn in_language(languages: Seq<String>, primary: Seq<char>) -> Seq<bool> {
    Seq::new(
        languages.len(),
        |i: int| chars::in_lower_case(languages[i]@) == chars::in_lower_case(primary),
    )
}

/// Which of the files are in the main language of the project, in any case.
pub fn boost_language_places(languages: &Vec<String>, primary: &str) -> (r: Vec<bool>)
    ensures
        r@ == in_language(languages@, primary@),
{
    let p = to_lowercase(primary);
    let pc = chars_of(p.as_str());
    let mut out: Vec<bool> = Vec::new();
    let mut i: usize = 0;
    while i < languages.len()
        invariant
            i <= languages.len(),
            pc@ == chars::in_lower_case(primary@),
            out.len() == i,
            forall|j: int|
                0 <= j < i ==> out@[j] == (chars::in_lower_case((#[trigger] languages@[j])@)
                    == chars::in_lower_case(primary@)),
        decreases languages.len() - i,
    {
        let l = to_lowercase(languages[i].as_str());
        out.push(same(chars_of(l.as_str()).as_slice(), pc.as_slice()));
        i += 1;
    }
    out
}

/// The results with other scores, from the highest of these down.
pub open spec fn rescored(results: Seq<SearchResult>, scores: Seq<Score>) -> Seq<SearchResult> {
    sorting::sorted_by(scores, Seq::new(results.len(), |i: int| results[i].scored(scores[i])))
}

/// Gives the results other scores and ranks them by these.
pub fn rerank(results: &Vec<SearchResult>, scores: &Vec<Score>) -> (r: Vec<SearchResult>)
    requires
        results@.len() == scores@.len(),
        score::all_numbers(scores@),
    ensures
        r@ == rescored(results@, scores@),
{
    let order = rank(scores);
    let ghost all = rescored(results@, scores@);
    let mut out: Vec<SearchResult> = Vec::new();
    let mut j: usize = 0;
    while j < order.len()
        invariant
            j <= order.len(),
            results@.len() == scores@.len(),
            sorting::is_sorting(scores@, order@),
            order@ == sorting::sorting(scores@),
            all == rescored(results@, scores@),
            out@ == all.take(j as int),
        decreases order.len() - j,
    {
        assert(order@[j as int] < scores@.len());
        let k = order[j];
        out.push(results[k].copy_scored(scores[k]));
        j += 1;
    }
    proof {
        assert(all.take(all.len() as int) =~= all);
    }
    out
}

/// The scores of results: the raised one at each marked place, and else the
/// result's own.
pub open spec fn chosen_scores(
    results: Seq<SearchResult>,
    places: Seq<bool>,
    raised: Seq<Score>,
) -> Seq<Score> {
    Seq::new(
        results.len(),
        |i: int|
            if places[i] {
                raised[i]
            } else {
                results[i].score
            },
    )
}

/// The results with raised scores at the marked places, from the highest score
/// down.
pub open spec fn boosted(
    results: Seq<SearchResult>,
    places: Seq<bool>,
    raised: Seq<Score>,
) -> Seq<SearchResult> {
    rescored(results, chosen_scores(results, places, raised))
}

/// Raises the scores at the marked places and ranks the results anew. `raised`
/// holds, place by place, what the score of the result becomes if it is raised.
pub fn boost(results: &Vec<SearchResult>, places: &Vec<bool>, raised: &Vec<Score>) -> (r: Vec<
    SearchResult,
>)
    requires
        places@.len() == results@.len(),
        raised@.len() == results@.len(),
        score::all_numbers(raised@),
        chunks::results_ok(results@),
    ensures
        r@ == boosted(results@, places@, raised@),
        r@.len() == results@.len(),
        chunks::results_ok(r@),
{
    let ghost all = chosen_scores(results@, places@, raised@);
    let mut scores: Vec<Score> = Vec::new();
    let mut i: usize = 0;
    while i < results.len()
        invariant
            i <= results.len(),
            places@.len() == results@.len(),
            raised@.len() == results@.len(),
            score::all_numbers(raised@),
            chunks::results_ok(results@),
            all == chosen_scores(results@, places@, raised@),
            scores@ == all.take(i as int),
            score::all_numbers(scores@),
        decreases results.len() - i,
    {
        assert(!raised@[i as int].is_nan());
        assert(!results@[i as int].score.is_nan());
        scores.push(
            if places[i] {
                raised[i]
            } else {
                results[i].score
            },
        );
        i += 1;
    }
    proof {
        assert(scores@ =~= all);
        sorting::lemma_sorting_exists(all);
    }
    let r = rerank(results, &scores);
    proof {
        let order = sorting::sorting(all);
        assert forall|k: int| 0 <= k < r@.len() implies !(#[trigger] r@[k]).score.is_nan() by {
            assert(0 <= order[k] < all.len());
            assert(!all[order[k] as int].is_nan());
        }
    }
    r
}

// ---------------------------------------------------------------------------
// Filling up with literal hits
// ---------------------------------------------------------------------------

/// A hybrid search that found little for a query with names is filled up.
pub open spec fn wants_literal_fill(found: int, has_identifiers: bool) -> bool {
    found < 3 && has_identifiers
}

/// Whether a hybrid search that found so much is filled up with literal hits.
pub fn needs_literal_fill(found: usize, has_identifiers: bool) -> (r: bool)
    ensures
        r == wants_literal_fill(found as int, has_identifiers),
{
    found < 3 && has_identifiers
}

/// The results with the chunks of the first `n` literal hits that are not
/// there yet, up to the limit.
pub open spec fn filled(
    results: Seq<SearchResult>,
    literal: Seq<Candidate>,
    limit: int,
    n: int,
) -> Seq<SearchResult>
    decreases n,
{
    if n <= 0 {
        results
    } else {
        let before = filled(results, literal, limit, n - 1);
        let c = literal[n - 1];
        if before.len() >= limit || chunks::has_result(before, c.chunk_id) {
            before
        } else {
            match c.found() {
                Some(chunk) => before.push(SearchResult::of_chunk(c.chunk_id, chunk, c.score)),
                None => before,
            }
        }
    }
}

fn contains_id(results: &Vec<SearchResult>, id: u32) -> (r: bool)
    ensures
        r == chunks::has_result(results@, id),
{
    let mut i: usize = 0;
    while i < results.len()
        invariant
            i <= results.len(),
            forall|j: int| 0 <= j < i ==> (#[trigger] results@[j]).id != id,
        decreases results.len() - i,
    {
        if results[i].id == id {
            return true;
        }
        i += 1;
    }
    false
}

/// Fills results up with the chunks of literal hits that are not there yet.
pub fn fill_with_literal(results: &mut Vec<SearchResult>, literal: &Vec<Candidate>, limit: usize)
    ensures
        final(results)@ == filled(
            old(results)@,
            literal@,
            limit as int,
            literal@.len() as int,
        ),
{
    let mut i: usize = 0;
    while i < literal.len()
        invariant
            i <= literal.len(),
            results@ == filled(old(results)@, literal@, limit as int, i as int),
        decreases literal.len() - i,
    {
        let c = &literal[i];
        if results.len() < limit && !contains_id(results, c.chunk_id) {
            match c.find_chunk() {
                Some(chunk) => {
                    results.push(SearchResult::from_chunk(c.chunk_id, chunk, c.score));
                },
                None => {},
            }
        }
        i += 1;
    }
}

/// Filling up keeps what was found, in its place, and adds no chunk twice.
pub proof fn law_fill_keeps_results(
    results: Seq<SearchResult>,
    literal: Seq<Candidate>,
    limit: int,
    n: int,
)
    requires
        0 <= n <= literal.len(),
    ensures
        filled(results, literal, limit, n).len() >= results.len(),
        filled(results, literal, limit, n).take(results.len() as int) == results,
        forall|i: int, j: int|
            results.len() <= j < filled(results, literal, limit, n).len() && 0 <= i < j ==> (
            #[trigger] filled(results, literal, limit, n)[i]).id != (#[trigger] filled(
                results,
                literal,
                limit,
                n,
            )[j]).id,
    decreases n,
{
    if n == 0 {
        assert(results.take(results.len() as int) =~= results);
    } else {
        law_fill_keeps_results(results, literal, limit, n - 1);
        let before = filled(results, literal, limit, n - 1);
        let after = filled(results, literal, limit, n);
        if after.len() > before.len() {
            assert(after.take(results.len() as int) =~= before.take(results.len() as int));
            assert forall|i: int, j: int|
                results.len() <= j < after.len() && 0 <= i < j implies (#[trigger] after[i]).id != (
            #[trigger] after[j]).id by {
                if j < before.len() {
                    assert(before[i].id != before[j].id);
                } else {
                    assert(before[i].id != literal[n - 1].chunk_id);
                }
            }
        }
    }
}

// ---------------------------------------------------------------------------
// The response
// ---------------------------------------------------------------------------

/// The bits of 0.02, the fused score below which results deserve little trust.
pub const LOW_CONFIDENCE_THRESHOLD: u32 = 0x3ca3_d70a;

/// The tool that is suggested where the best result has this score.
pub open spec fn semantic_hint(top: Option<Score>, has_identifiers: bool) -> Option<Seq<char>> {
    match top {
        Some(s) => if !s.lt(Score { bits: LOW_CONFIDENCE_THRESHOLD }) {
            None
        } else if has_identifiers {
            Some("find_definition"@)
        } else {
            Some("literal_search"@)
        },
        None => Some("literal_search"@),
    }
}

/// Whether the results of a semantic search deserve little trust, and what to
/// try in that case.
pub fn compute_low_confidence(top_score: Option<Score>, has_identifiers: bool) -> (r: (
    Option<bool>,
    Option<String>,
))
    ensures
        types::opt_text(r.1) == semantic_hint(top_score, has_identifiers),
        r.0 == (if semantic_hint(top_score, has_identifiers) is Some {
            Some(true)
        } else {
            None
        }),
{
    match top_score {
        Some(s) => {
            if !s.less(Score::from_bits(LOW_CONFIDENCE_THRESHOLD)) {
                (None, None)
            } else if has_identifiers {
                (Some(true), Some(owned("find_definition")))
            } else {
                (Some(true), Some(owned("literal_search")))
            }
        },
        None => (Some(true), Some(owned("literal_search"))),
    }
}

/// The path under which a result is shown: with the alias of the project, with
/// that of the root that owns it where only roots are known, and else as it is.
pub open spec fn shown_under(path: Seq<char>, alias: Option<Seq<char>>, roots: Seq<AliasRoot>) -> Seq<
    char,
> {
    match alias {
        Some(a) => match paths::root_of(roots, a) {
            Some(root) => paths::aliased(path, a, root),
            None => paths::normal(path),
        },
        None => if roots.len() > 0 {
            paths::root_aliased(path, roots)
        } else {
            path
        },
    }
}

/// The result passes the path filter.
pub open spec fn passes(r: SearchResult, filter: Option<Seq<char>>, root: Seq<char>) -> bool {
    filter is Some ==> paths::passes_filter(r.path@, paths::normal_filter(filter->0), root)
}

/// What is reported of those results that pass the filter.
pub open spec fn response_views(
    results: Seq<SearchResult>,
    filter: Option<Seq<char>>,
    compact: bool,
    root: Seq<char>,
    alias: Option<Seq<char>>,
    roots: Seq<AliasRoot>,
) -> Seq<types::ResultView>
    decreases results.len(),
{
    if results.len() == 0 {
        Seq::empty()
    } else {
        let before = response_views(results.drop_last(), filter, compact, root, alias, roots);
        let r = results.last();
        if passes(r, filter, root) {
            before.push(types::reported(r, shown_under(r.path@, alias, roots), compact))
        } else {
            before
        }
    }
}

/// The score of the first item.
pub open spec fn top_score(items: Seq<types::ResultView>) -> Option<Score> {
    if items.len() > 0 {
        Some(items[0].score)
    } else {
        None
    }
}

fn show_path(path: &str, alias: &Option<String>, roots: &Vec<AliasRoot>) -> (r: String)
    ensures
        r@ == shown_under(path@, types::opt_text(*alias), roots@),
{
    match alias {
        Some(a) => match find_root(roots, a.as_str()) {
            Some(root) => prefix_path_with_alias(path, Some(a.as_str()), root.as_str()),
            None => normalize_path_str(path),
        },
        None => if roots.len() > 0 {
            prefix_path_by_root(path, roots)
        } else {
            owned(path)
        },
    }
}

/// The response is the one to these results.
pub open spec fn responds(
    r: SemanticSearchResponse,
    results: Seq<SearchResult>,
    filter: Option<Seq<char>>,
    compact: bool,
    has_identifiers: bool,
    project_root: Seq<char>,
    alias: Option<Seq<char>>,
    roots: Seq<AliasRoot>,
) -> bool {
    &&& types::result_views(r.results@) == response_views(
        results,
        filter,
        compact,
        paths::normal_root(project_root),
        alias,
        roots,
    )
    &&& types::opt_text(r.suggested_tool) == semantic_hint(
        top_score(types::result_views(r.results@)),
        has_identifiers,
    )
    &&& r.low_confidence == (if r.suggested_tool is Some {
        Some(true)
    } else {
        None
    })
}

/// The response of a semantic search to the results that it has found.
pub fn build_semantic_response(
    results: &Vec<SearchResult>,
    filter_path: &Option<String>,
    compact: bool,
    has_identifiers: bool,
    project_root: &str,
    project_alias: &Option<String>,
    alias_roots: &Vec<AliasRoot>,
) -> (r: SemanticSearchResponse)
    ensures
        responds(
            r,
            results@,
            types::opt_text(*filter_path),
            compact,
            has_identifiers,
            project_root@,
            types::opt_text(*project_alias),
            alias_roots@,
        ),
{
    let ghost f = types::opt_text(*filter_path);
    let ghost a = types::opt_text(*project_alias);
    let root = normalize_root(project_root);
    let filter = match filter_path {
        Some(p) => Some(normalize_filter_path(p.as_str())),
        None => None,
    };
    let mut out: Vec<SearchResultItem> = Vec::new();
    let mut i: usize = 0;
    proof {
        assert(types::result_views(out@) =~= response_views(
            results@.take(0),
            f,
            compact,
            root@,
            a,
            alias_roots@,
        ));
    }
    while i < results.len()
        invariant
            i <= results.len(),
            f == types::opt_text(*filter_path),
            a == types::opt_text(*project_alias),
            filter is Some == f is Some,
            filter is Some ==> filter->0@ == paths::normal_filter(f->0),
            types::result_views(out@) == response_views(
                results@.take(i as int),
                f,
                compact,
                root@,
                a,
                alias_roots@,
            ),
        decreases results.len() - i,
    {
        let r = &results[i];
        let ghost before = types::result_views(out@);
        proof {
            assert(results@.take(i + 1).drop_last() =~= results@.take(i as int));
            assert(results@.take(i + 1).last() == *r);
        }
        let pass = match &filter {
            Some(p) => path_matches_filter(r.path.as_str(), p.as_str(), root.as_str()),
            None => true,
        };
        if pass {
            let path = show_path(r.path.as_str(), project_alias, alias_roots);
            let ghost new = types::reported(*r, path@, compact);
            out.push(report(r, path, compact));
            proof {
                assert(types::result_views(out@) =~= before.push(new));
            }
        }
        i += 1;
    }
    proof {
        assert(results@.take(results@.len() as int) =~= results@);
    }
    let top = if out.len() > 0 {
        Some(out[0].score)
    } else {
        None
    };
    let (low_confidence, suggested_tool) = compute_low_confidence(top, has_identifiers);
    SemanticSearchResponse { results: out, low_confidence, suggested_tool }
}

/// Every item of a response reports a result that passes the filter, and a
/// compact response holds no code.
pub proof fn law_response_is_filtered(
    results: Seq<SearchResult>,
    filter: Option<Seq<char>>,
    compact: bool,
    root: Seq<char>,
    alias: Option<Seq<char>>,
    roots: Seq<AliasRoot>,
    i: int,
)
    requires
        0 <= i < response_views(results, filter, compact, root, alias, roots).len(),
    ensures
        ({
            let item = response_views(results, filter, compact, root, alias, roots)[i];
            &&& exists|k: int|
                0 <= k < results.len() && passes(#[trigger] results[k], filter, root) && item
                    == types::reported(
                    results[k],
                    shown_under(results[k].path@, alias, roots),
                    compact,
                )
            &&& compact ==> item.content is None && item.context_prev is None
                && item.context_next is None
        }),
    decreases results.len(),
{
    let front = results.drop_last();
    let before = response_views(front, filter, compact, root, alias, roots);
    let item = response_views(results, filter, compact, root, alias, roots)[i];
    if i < before.len() {
        law_response_is_filtered(front, filter, compact, root, alias, roots, i);
        let k = choose|k: int|
            0 <= k < front.len() && passes(#[trigger] front[k], filter, root) && item
                == types::reported(front[k], shown_under(front[k].path@, alias, roots), compact);
        assert(results[k] == front[k]);
    } else {
        let k = results.len() - 1;
        assert(passes(results[k], filter, root));
    }
}

/// In a search of several repositories a path is shown under the alias of the
/// root that owns it.
pub proof fn law_group_result_has_alias(path: Seq<char>, roots: Seq<AliasRoot>, i: int)
    requires
        0 <= i < roots.len(),
        paths::owns(paths::normal_root(roots[i].root@), paths::normal(path)),
        forall|j: int|
            0 <= j < i ==> !paths::owns(
                paths::normal_root((#[trigger] roots[j]).root@),
                paths::normal(path),
            ),
    ensures
        shown_under(path, None, roots) == paths::aliased(path, roots[i].alias@, roots[i].root@),
{
    lemma_root_owner(paths::normal(path), roots, i, 0);
}

/// The first owner is found, from wherever before it the search begins.
proof fn lemma_root_owner(path: Seq<char>, roots: Seq<AliasRoot>, i: int, k: int)
    requires
        0 <= k <= i < roots.len(),
        paths::owns(paths::normal_root(roots[i].root@), path),
        forall|j: int|
            0 <= j < i ==> !paths::owns(paths::normal_root((#[trigger] roots[j]).root@), path),
    ensures
        paths::root_owner(path, roots, k) == Some(i),
    decreases i - k,
{
    if k < i {
        lemma_root_owner(path, roots, i, k + 1);
    }
}

/// A response loses no result that passes the filter.
pub proof fn law_response_is_complete(
    results: Seq<SearchResult>,
    filter: Option<Seq<char>>,
    compact: bool,
    root: Seq<char>,
    alias: Option<Seq<char>>,
    roots: Seq<AliasRoot>,
    k: int,
)
    requires
        0 <= k < results.len(),
        passes(results[k], filter, root),
    ensures
        response_views(results, filter, compact, root, alias, roots).contains(
            types::reported(results[k], shown_under(results[k].path@, alias, roots), compact),
        ),
    decreases results.len(),
{
    let front = results.drop_last();
    let before = response_views(front, filter, compact, root, alias, roots);
    let all = response_views(results, filter, compact, root, alias, roots);
    let item = types::reported(results[k], shown_under(results[k].path@, alias, roots), compact);
    if k < front.len() {
        law_response_is_complete(front, filter, compact, root, alias, roots, k);
        assert(front[k] == results[k]);
        let i = choose|i: int| 0 <= i < before.len() && before[i] == item;
        assert(all[i] == item);
    } else {
        assert(all[before.len() as int] == item);
    }
}

/// A plan brings ten results where the request names no number, leaves the code
/// out unless the request asks for it, and fetches five times as many hits and
/// three times as many exact hits as it brings.
pub proof fn law_plan(plan: SemanticPlan, request: SemanticSearchRequest)
    requires
        plan.is_for(request),
    ensures
        request.limit is None ==> plan.limit == 10,
        request.limit is Some ==> Some(plan.limit) == request.limit,
        plan.compact <==> request.compact is None || request.compact == Some(true),
        plan.fetch == 5 * plan.limit,
        plan.fetch_exact == 3 * plan.limit,
        request.mode is None ==> plan.mode == SemanticMode::Hybrid,
        request.mode is Some ==> {
            let name = request.mode->0@;
            &&& name == "lexical"@ ==> plan.mode == SemanticMode::Lexical
            &&& name == "semantic"@ ==> plan.mode == SemanticMode::VectorOnly
            &&& name != "lexical"@ && name != "semantic"@ ==> plan.mode == SemanticMode::Hybrid
        },
        plan.identifiers@.len() > 0 ==> plan.rrf_k == (12u32, 28u32),
        plan.identifiers@.len() == 0 && plan.intent is Some ==> plan.rrf_k == (15u32, 25u32),
        plan.identifiers@.len() == 0 && plan.intent is None ==> plan.rrf_k == (20u32, 20u32),
{
    reveal_strlit("lexical");
    reveal_strlit("semantic");
    assert("lexical"@[0] == 'l');
    assert("semantic"@[0] == 's');
    if request.compact is Some {
        if request.compact->0 {
            assert(request.compact == Some(true));
        } else {
            assert(request.compact == Some(false));
        }
    }
}

/// The last result of a chunk is of that chunk, and no later one is; there is one
/// where any result is of the chunk.
pub proof fn law_last_result(results: Seq<SearchResult>, id: u32, k: int)
    ensures
        match last_result(results, id) {
            Some(i) => 0 <= i < results.len() && results[i].id == id && (i < k < results.len()
                ==> results[k].id != id),
            None => 0 <= k < results.len() ==> results[k].id != id,
        },
    decreases results.len(),
{
    if results.len() > 0 && results.last().id != id {
        law_last_result(results.drop_last(), id, k);
    }
}

/// The results of fused hits are those of the first hits up to the limit, in
/// their order: with the fused score, and with everything else as the vector
/// search found it or else as the chunk was looked up. Only a hit of which
/// neither is known is left out.
pub proof fn law_fused_results(
    fused: Seq<FusedResult>,
    vector: Seq<SearchResult>,
    looked_up: Seq<Option<ChunkMeta>>,
    n: int,
) -> (places: Seq<int>)
    requires
        0 <= n <= fused.len(),
    ensures
        sorting::selects(
            places,
            n,
            |i: int|
                chunks::has_result(vector, fused[i].chunk_id) || i < looked_up.len()
                    && looked_up[i] is Some,
        ),
        fused_results(fused, vector, looked_up, n).len() == places.len(),
        forall|k: int|
            0 <= k < places.len() ==> {
                let r = #[trigger] fused_results(fused, vector, looked_up, n)[k];
                let f = fused[places[k]];
                &&& r.id == f.chunk_id
                &&& r.score == f.rrf_score
                &&& chunks::has_result(vector, f.chunk_id) ==> exists|v: int|
                    0 <= v < vector.len() && (#[trigger] vector[v]).id == f.chunk_id && r.path
                        == vector[v].path && r.content == vector[v].content && r.start_line
                        == vector[v].start_line && r.end_line == vector[v].end_line && r.kind
                        == vector[v].kind && r.signature == vector[v].signature
                &&& !chunks::has_result(vector, f.chunk_id) ==> {
                    let c = looked_up[places[k]]->0;
                    r.path == c.path && r.content == c.content && r.start_line == c.start_line
                        && r.end_line == c.end_line && r.kind == c.kind && r.signature
                        == c.signature
                }
            },
    decreases n,
{
    let wanted = |i: int|
        chunks::has_result(vector, fused[i].chunk_id) || i < looked_up.len() && looked_up[i] is Some;
    if n == 0 {
        Seq::empty()
    } else {
        let before = law_fused_results(fused, vector, looked_up, n - 1);
        let first = fused_results(fused, vector, looked_up, n - 1);
        let all = fused_results(fused, vector, looked_up, n);
        let f = fused[n - 1];
        law_last_result(vector, f.chunk_id, 0);
        assert(last_result(vector, f.chunk_id) is Some <==> chunks::has_result(
            vector,
            f.chunk_id,
        )) by {
            if chunks::has_result(vector, f.chunk_id) {
                let v = choose|v: int|
                    0 <= v < vector.len() && (#[trigger] vector[v]).id == f.chunk_id;
                law_last_result(vector, f.chunk_id, v);
            }
            if last_result(vector, f.chunk_id) is Some {
                assert(vector[last_result(vector, f.chunk_id)->0].id == f.chunk_id);
            }
        }
        let places = sorting::lemma_selects_step(before, n - 1, wanted, wanted);
        assert forall|k: int| 0 <= k < places.len() implies ({
            let r = #[trigger] all[k];
            let f = fused[places[k]];
            &&& r.id == f.chunk_id
            &&& r.score == f.rrf_score
            &&& chunks::has_result(vector, f.chunk_id) ==> exists|v: int|
                0 <= v < vector.len() && (#[trigger] vector[v]).id == f.chunk_id && r.path
                    == vector[v].path && r.content == vector[v].content && r.start_line
                    == vector[v].start_line && r.end_line == vector[v].end_line && r.kind
                    == vector[v].kind && r.signature == vector[v].signature
            &&& !chunks::has_result(vector, f.chunk_id) ==> {
                let c = looked_up[places[k]]->0;
                r.path == c.path && r.content == c.content && r.start_line == c.start_line
                    && r.end_line == c.end_line && r.kind == c.kind && r.signature == c.signature
            }
        }) by {
            if k < before.len() {
                assert(all[k] == first[k]);
            } else if chunks::has_result(vector, f.chunk_id) {
                let v = last_result(vector, f.chunk_id)->0;
                assert(vector[v].id == f.chunk_id);
            }
        }
        places
    }
}

/// The results of full-text hits are the stored chunks of the first hits up to
/// the limit, in their order and with their scores; only a hit whose chunk is
/// not stored is left out.
pub proof fn law_hit_results(hits: Seq<FtsResult>, stored: Seq<Option<ChunkMeta>>, n: int) -> (places:
    Seq<int>)
    requires
        0 <= n <= hits.len(),
    ensures
        sorting::selects(places, n, |i: int| i < stored.len() && stored[i] is Some),
        hit_results(hits, stored, n).len() == places.len(),
        forall|k: int|
            0 <= k < places.len() ==> {
                let r = #[trigger] hit_results(hits, stored, n)[k];
                let c = stored[places[k]]->0;
                &&& r.id == hits[places[k]].chunk_id
                &&& r.score == hits[places[k]].score
                &&& r.path == c.path && r.content == c.content && r.start_line == c.start_line
                    && r.end_line == c.end_line && r.kind == c.kind && r.signature == c.signature
            },
    decreases n,
{
    let wanted = |i: int| i < stored.len() && stored[i] is Some;
    if n == 0 {
        Seq::empty()
    } else {
        let before = law_hit_results(hits, stored, n - 1);
        let first = hit_results(hits, stored, n - 1);
        let all = hit_results(hits, stored, n);
        let places = sorting::lemma_selects_step(before, n - 1, wanted, wanted);
        assert forall|k: int| 0 <= k < places.len() implies ({
            let r = #[trigger] all[k];
            let c = stored[places[k]]->0;
            &&& r.id == hits[places[k]].chunk_id
            &&& r.score == hits[places[k]].score
            &&& r.path == c.path && r.content == c.content && r.start_line == c.start_line
                && r.end_line == c.end_line && r.kind == c.kind && r.signature == c.signature
        }) by {
            if k < before.len() {
                assert(all[k] == first[k]);
            }
        }
        places
    }
}

/// The exact hits of every name are merged in, name by name.
pub proof fn law_exact_hits_are_merged(fts: Seq<FtsResult>, lists: Seq<Vec<FtsResult>>, id: u32)
    ensures
        fusion::has_id(merged_lists(fts, lists), id) <==> fusion::has_id(fts, id) || exists|k: int|
            0 <= k < lists.len() && fusion::has_id((#[trigger] lists[k])@, id),
        lists.len() == 0 ==> merged_lists(fts, lists) == fts,
    decreases lists.len(),
{
    if lists.len() > 0 {
        let front = lists.drop_last();
        let before = merged_lists(fts, front);
        law_exact_hits_are_merged(fts, front, id);
        fusion::law_merge_is_union(before, lists.last()@, id);
        if exists|k: int| 0 <= k < front.len() && fusion::has_id((#[trigger] front[k])@, id) {
            let k = choose|k: int| 0 <= k < front.len() && fusion::has_id((#[trigger] front[k])@, id);
            assert(fusion::has_id(lists[k]@, id));
        }
        if fusion::has_id(lists.last()@, id) {
            assert(fusion::has_id(lists[lists.len() - 1]@, id));
        }
        if exists|k: int| 0 <= k < lists.len() && fusion::has_id((#[trigger] lists[k])@, id) {
            let k = choose|k: int| 0 <= k < lists.len() && fusion::has_id((#[trigger] lists[k])@, id);
            if k < front.len() {
                assert(fusion::has_id(front[k]@, id));
            }
        }
    }
}

/// A boost changes nothing but the scores at the marked places and the order:
/// every result stays once, those at marked places with the raised score and the
/// others with their own, the higher scores first.
pub proof fn law_boost(results: Seq<SearchResult>, places: Seq<bool>, raised: Seq<Score>) -> (order: Seq<
    usize,
>)
    requires
        results.len() <= usize::MAX,
        places.len() == results.len(),
        raised.len() == results.len(),
    ensures
        order.len() == results.len(),
        order.no_duplicates(),
        boosted(results, places, raised).len() == results.len(),
        forall|a: int|
            0 <= a < order.len() ==> {
                let i = #[trigger] order[a] as int;
                let r = boosted(results, places, raised)[a];
                &&& 0 <= i < results.len()
                &&& places[i] ==> r == (SearchResult { score: raised[i], ..results[i] })
                &&& !places[i] ==> r == results[i]
            },
        forall|i: int| 0 <= i < results.len() ==> order.contains(#[trigger] (i as usize)),
        forall|a: int, b: int|
            0 <= a < b < order.len() ==> {
                let x = #[trigger] boosted(results, places, raised)[a];
                let y = #[trigger] boosted(results, places, raised)[b];
                y.score.key() <= x.score.key() && (x.score.key() == y.score.key() ==> order[a]
                    < order[b])
            },
{
    let scores = chosen_scores(results, places, raised);
    sorting::law_sorting(scores);
    let order = sorting::sorting(scores);
    let all = boosted(results, places, raised);
    assert forall|a: int| 0 <= a < order.len() implies ({
        let i = #[trigger] order[a] as int;
        let r = all[a];
        &&& 0 <= i < results.len()
        &&& places[i] ==> r == (SearchResult { score: raised[i], ..results[i] })
        &&& !places[i] ==> r == results[i]
    }) by {
        assert(0 <= order[a] < scores.len());
    }
    assert forall|a: int, b: int| 0 <= a < b < order.len() implies ({
        let x = #[trigger] all[a];
        let y = #[trigger] all[b];
        y.score.key() <= x.score.key() && (x.score.key() == y.score.key() ==> order[a] < order[b])
    }) by {
        let i = order[a] as int;
        let j = order[b] as int;
        assert(0 <= i < scores.len() && 0 <= j < scores.len());
        assert(sorting::SortKey::upto(scores[i], scores[j]));
        assert(all[a].score == scores[i] && all[b].score == scores[j]);
    }
    order
}

/// The boost for a kind marks the results of that kind, and the boost for a
/// language those whose file is in that language, in any case of letters.
pub proof fn law_boosted_places(
    results: Seq<SearchResult>,
    kind: ChunkKind,
    languages: Seq<String>,
    primary: Seq<char>,
    i: int,
)
    ensures
        of_kind(results, kind).len() == results.len(),
        in_language(languages, primary).len() == languages.len(),
        0 <= i < results.len() ==> (of_kind(results, kind)[i] <==> results[i].kind@
            == kind.spec_name()),
        0 <= i < languages.len() && languages[i]@ == primary ==> in_language(languages, primary)[i],
        0 <= i < languages.len() ==> (in_language(languages, primary)[i] <==> chars::in_lower_case(
            languages[i]@,
        ) == chars::in_lower_case(primary)),
{
}

/// Results are filled up only where fewer than three were found and the query
/// holds names.
pub proof fn law_fill_when_little_was_found(found: nat, has_identifiers: bool)
    ensures
        wants_literal_fill(found as int, has_identifiers) <==> has_identifiers && (found == 0 || found
            == 1 || found == 2),
{
}

/// Filling up adds every literal hit whose chunk is stored and not there yet, as
/// long as there is room; what is added is the chunk of such a hit, with the
/// score of the hit.
pub proof fn law_fill_is_complete(
    results: Seq<SearchResult>,
    literal: Seq<Candidate>,
    limit: int,
    n: int,
    i: int,
)
    requires
        0 <= n <= literal.len(),
    ensures
        ({
            let all = filled(results, literal, limit, n);
            &&& 0 <= i < n && literal[i].found() is Some && all.len() < limit
                ==> chunks::has_result(all, literal[i].chunk_id)
            &&& results.len() <= i < all.len() ==> exists|k: int|
                0 <= k < n && (#[trigger] literal[k]).chunk_id == all[i].id && literal[k].found()
                    is Some && all[i].score == literal[k].score && all[i].path
                    == literal[k].found()->0.path && all[i].content
                    == literal[k].found()->0.content && all[i].start_line
                    == literal[k].found()->0.start_line && all[i].kind
                    == literal[k].found()->0.kind
            &&& results.len() <= limit ==> all.len() <= limit
        }),
    decreases n,
{
    if n > 0 {
        law_fill_is_complete(results, literal, limit, n - 1, i);
        let before = filled(results, literal, limit, n - 1);
        let all = filled(results, literal, limit, n);
        let c = literal[n - 1];
        assert(all.len() >= before.len());
        if 0 <= i < n && literal[i].found() is Some && all.len() < limit {
            if i < n - 1 {
                let k = choose|k: int|
                    0 <= k < before.len() && (#[trigger] before[k]).id == literal[i].chunk_id;
                assert(all[k].id == literal[i].chunk_id);
            } else if chunks::has_result(before, c.chunk_id) {
                assert(all == before);
            } else {
                assert(all[before.len() as int].id == c.chunk_id);
            }
        }
        if results.len() <= i < all.len() {
            if i < before.len() {
                let k = choose|k: int|
                    0 <= k < n - 1 && (#[trigger] literal[k]).chunk_id == before[i].id
                        && literal[k].found() is Some && before[i].score == literal[k].score
                        && before[i].path == literal[k].found()->0.path && before[i].content
                        == literal[k].found()->0.content && before[i].start_line
                        == literal[k].found()->0.start_line && before[i].kind
                        == literal[k].found()->0.kind;
                assert(literal[k].chunk_id == all[i].id);
            } else {
                assert(literal[n - 1].chunk_id == all[i].id);
            }
        }
    }
}

/// Results deserve little trust where there are none, or where the best has a
/// score below 0.02; then the definitions of the names in the query are
/// suggested, and else, or without names or results, the literal search.
pub proof fn law_confidence(top: Option<Score>, has_identifiers: bool)
    ensures
        top is None ==> semantic_hint(top, has_identifiers) == Some("literal_search"@),
        top is Some && top->0.bits < 0x3ca3_d70a ==> semantic_hint(top, has_identifiers) == Some(
            if has_identifiers {
                "find_definition"@
            } else {
                "literal_search"@
            },
        ),
        top is Some && 0x3ca3_d70a <= top->0.bits <= 0x7f80_0000 ==> semantic_hint(
            top,
            has_identifiers,
        ) is None,
{
}

/// A response reports, in their order and each once, the results that pass the
/// filter, and where there is no filter all of them. It says of each its chunk,
/// its lines, its kind, its signature and its score, and its code only where it
/// is not compact.
pub proof fn law_response_selects(
    results: Seq<SearchResult>,
    filter: Option<Seq<char>>,
    compact: bool,
    root: Seq<char>,
    alias: Option<Seq<char>>,
    roots: Seq<AliasRoot>,
) -> (places: Seq<int>)
    ensures
        sorting::selects(
            places,
            results.len() as int,
            |i: int|
                filter is None || paths::passes_filter(
                    results[i].path@,
                    paths::normal_filter(filter->0),
                    root,
                ),
        ),
        response_views(results, filter, compact, root, alias, roots).len() == places.len(),
        forall|k: int|
            0 <= k < places.len() ==> {
                let item = #[trigger] response_views(results, filter, compact, root, alias, roots)[k];
                let r = results[places[k]];
                &&& item.chunk_id == r.id
                &&& item.path == shown_under(r.path@, alias, roots)
                &&& item.start_line == r.start_line
                &&& item.end_line == r.end_line
                &&& item.kind == r.kind@
                &&& item.score == r.score
                &&& item.signature == types::opt_text(r.signature)
                &&& compact ==> item.content is None && item.context_prev is None
                    && item.context_next is None
                &&& !compact ==> item.content == Some(r.content@) && item.context_prev
                    == types::opt_text(r.context_prev) && item.context_next == types::opt_text(
                    r.context_next,
                )
            },
    decreases results.len(),
{
    if results.len() == 0 {
        Seq::empty()
    } else {
        let front = results.drop_last();
        let n = results.len() - 1;
        let before = law_response_selects(front, filter, compact, root, alias, roots);
        let first = response_views(front, filter, compact, root, alias, roots);
        let all = response_views(results, filter, compact, root, alias, roots);
        let places = sorting::lemma_selects_step(
            before,
            n,
            |i: int|
                filter is None || paths::passes_filter(
                    front[i].path@,
                    paths::normal_filter(filter->0),
                    root,
                ),
            |i: int|
                filter is None || paths::passes_filter(
                    results[i].path@,
                    paths::normal_filter(filter->0),
                    root,
                ),
        );
        assert forall|k: int| 0 <= k < places.len() implies ({
            let item = #[trigger] all[k];
            let r = results[places[k]];
            &&& item.chunk_id == r.id
            &&& item.path == shown_under(r.path@, alias, roots)
            &&& item.start_line == r.start_line
            &&& item.end_line == r.end_line
            &&& item.kind == r.kind@
            &&& item.score == r.score
            &&& item.signature == types::opt_text(r.signature)
            &&& compact ==> item.content is None && item.context_prev is None
                && item.context_next is None
            &&& !compact ==> item.content == Some(r.content@) && item.context_prev
                == types::opt_text(r.context_prev) && item.context_next == types::opt_text(
                r.context_next,
            )
        }) by {
            if k < before.len() {
                assert(all[k] == first[k]);
                assert(front[before[k]] == results[places[k]]);
            }
        }
        places
    }
}

/// With a path filter, a response holds a result below the root if and only if
/// the part of its path behind the root begins with the filter, or the path
/// itself does; a result with the filter further inside its path is left out.
pub proof fn law_response_keeps_to_the_filter(
    results: Seq<SearchResult>,
    filter: Seq<char>,
    compact: bool,
    root: Seq<char>,
    alias: Option<Seq<char>>,
    roots: Seq<AliasRoot>,
    i: int,
    rel: Seq<char>,
)
    requires
        0 <= i < results.len(),
        results[i].path@ == root.push('/') + rel,
        !results[i].path@.contains('\\'),
        rel.len() > 0 ==> rel[0] != '/',
        root.len() == 0 || root[0] != '.',
        !filter.contains('\\'),
        filter.len() < 2 || filter[0] != '.' || filter[1] != '/',
        forall|j: int| 0 <= j < results.len() && j != i ==> (#[trigger] results[j]).id != results[i].id,
    ensures
        ({
            let path = results[i].path@;
            let items = response_views(results, Some(filter), compact, root, alias, roots);
            (exists|k: int| 0 <= k < items.len() && (#[trigger] items[k]).chunk_id == results[i].id)
                <==> {
                ||| filter.len() <= rel.len() && rel.take(filter.len() as int) == filter
                ||| filter.len() <= path.len() && path.take(filter.len() as int) == filter
            }
        }),
{
    let path = results[i].path@;
    let items = response_views(results, Some(filter), compact, root, alias, roots);
    paths::law_filter_without_dots(filter);
    paths::law_filter_is_a_prefix(root, rel, filter);
    let places = law_response_selects(results, Some(filter), compact, root, alias, roots);
    let wanted = |i: int|
        Some(filter) is None || paths::passes_filter(
            results[i].path@,
            paths::normal_filter(Some(filter)->0),
            root,
        );
    assert(wanted(i) == paths::passes_filter(path, filter, root));
    if wanted(i) {
        assert(places.contains(i));
        let k = choose|k: int| 0 <= k < places.len() && places[k] == i;
        assert(items[k].chunk_id == results[i].id);
    }
    if exists|k: int| 0 <= k < items.len() && (#[trigger] items[k]).chunk_id == results[i].id {
        let k = choose|k: int| 0 <= k < items.len() && (#[trigger] items[k]).chunk_id == results[i].id;
        assert(places[k] == i);
        assert(wanted(places[k]));
    }
}

/// A result of a project with an alias is shown with the alias in place of the
/// root of the project; without aliases and roots its path is shown as it is.
pub proof fn law_shown_path(
    root: Seq<char>,
    alias: Seq<char>,
    rest: Seq<char>,
    roots: Seq<AliasRoot>,
    i: int,
)
    requires
        0 <= i < roots.len(),
        roots[i].alias@ == alias,
        roots[i].root@ == root,
        forall|j: int| 0 <= j < i ==> (#[trigger] roots[j]).alias@ != alias,
        paths::normal(root) == root,
        text::stripped_end(root, '/') == root,
        paths::normal(root.push('/') + rest) == root.push('/') + rest,
        rest.len() > 0 ==> rest[0] != '/',
        alias.len() > 0,
    ensures
        shown_under(root.push('/') + rest, Some(alias), roots) == alias + seq!['/'] + rest,
        shown_under(root.push('/') + rest, None, Seq::empty()) == root.push('/') + rest,
{
    paths::law_root_of_alias(roots, alias, i);
    paths::law_alias_replaces_root(root, alias, rest);
    assert(alias + seq!['/'] =~= alias.push('/'));
}

/// A search that is refused is not begun; one of several stores asks them all; one
/// by words alone needs no embedding.
pub proof fn law_how_a_search_begins(
    refused: Option<String>,
    is_multi: bool,
    mode: SemanticMode,
    r: SemanticStart,
)
    requires
        call_ensures(start_semantic_search, (refused, is_multi, mode), r),
    ensures
        r is Refused <==> refused is Some,
        r is Refused ==> r->0 == refused->0,
        r is FanOut <==> refused is None && is_multi,
        r is Lexical <==> refused is None && !is_multi && mode == SemanticMode::Lexical,
        r is Embed <==> refused is None && !is_multi && mode != SemanticMode::Lexical,
{
}

/// A search that found little is marked so, with a tool to try, and any other is
/// not.
pub proof fn law_marks_of_confidence(
    top_score: Option<Score>,
    has_identifiers: bool,
    r: (Option<bool>, Option<String>),
)
    requires
        call_ensures(compute_low_confidence, (top_score, has_identifiers), r),
    ensures
        r.1 is Some <==> semantic_hint(top_score, has_identifiers) is Some,
        r.0 == Some(true) <==> r.1 is Some,
        r.0 is None <==> r.1 is None,
{
}

/// The response to results names a tool where the best of those that it shows is
/// weak, and is marked exactly so.
pub proof fn law_response_of_a_search(
    r: SemanticSearchResponse,
    results: Seq<SearchResult>,
    filter: Option<Seq<char>>,
    compact: bool,
    has_identifiers: bool,
    project_root: Seq<char>,
    alias: Option<Seq<char>>,
    roots: Seq<AliasRoot>,
)
    requires
        responds(r, results, filter, compact, has_identifiers, project_root, alias, roots),
    ensures
        r.low_confidence == Some(true) <==> r.suggested_tool is Some,
        r.low_confidence is None <==> r.suggested_tool is None,
        r.results@.len() == response_views(
            results,
            filter,
            compact,
            paths::normal_root(project_root),
            alias,
            roots,
        ).len(),
        types::opt_text(r.suggested_tool) == semantic_hint(
            top_score(types::result_views(r.results@)),
            has_identifiers,
        ),
{
    assert(types::result_views(r.results@).len() == r.results@.len());
}

/// The modes by their names; without one, and with any other, a search is hybrid.
pub proof fn law_modes(name: Seq<char>)
    ensures
        mode_of(Some("lexical"@)) == SemanticMode::Lexical,
        mode_of(Some("semantic"@)) == SemanticMode::VectorOnly,
        mode_of(None) == SemanticMode::Hybrid,
        name != "lexical"@ && name != "semantic"@ ==> mode_of(Some(name)) == SemanticMode::Hybrid,
{
    reveal_strlit("lexical");
    reveal_strlit("semantic");
    assert("lexical"@.len() != "semantic"@.len());
}

} // verus!
