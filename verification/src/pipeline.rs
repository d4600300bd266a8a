//! A semantic search as a whole: from what the stores gave to the response.
use vstd::prelude::*;

use crate::chunks;
use crate::fusion;
use crate::fusion::{
    collect_exact, fuse_ranks, merge_store_hits, rank_fused, vector_hits, vector_only, FusedEntry,
    FusedResult, StoreHit,
};
use crate::query::ChunkKind;
use crate::routing::MultiStoreContext;
use crate::score;
use crate::score::Score;
use crate::semantic;
use crate::semantic::{
    boost, boost_kind_places, boost_language_places, build_semantic_response, fill_with_literal,
    first_results, lexical_hits, map_fused, needs_literal_fill,
    resolve_fts_to_search_results, SemanticMode, SemanticPlan,
};
use crate::sorting;
use crate::types;
use crate::types::{Candidate, ChunkMeta, FtsResult, SearchResult, SemanticSearchResponse};

verus! {

// ---------------------------------------------------------------------------
// The answers of several stores
// ---------------------------------------------------------------------------

/// The vector results of one of several stores; a store that cannot be read is
/// left out.
#[derive(Debug)]
pub struct StoreResults {
    /// The repository of the store.
    pub alias: String,
    pub results: Vec<SearchResult>,
}

/// The results of the stores, one store behind the other.
pub open spec fn all_results(stores: Seq<StoreResults>) -> Seq<SearchResult>
    decreases stores.len(),
{
    if stores.len() == 0 {
        Seq::empty()
    } else {
        all_results(stores.drop_last()) + stores.last().results@
    }
}

/// The hits of a store.
pub open spec fn hits_under(alias: String, results: Seq<SearchResult>) -> Seq<StoreHit> {
    results.map_values(|r: SearchResult| StoreHit { alias, chunk_id: r.id, score: r.score })
}

/// The hits of the stores, one store behind the other.
pub open spec fn result_hits(stores: Seq<StoreResults>) -> Seq<StoreHit>
    decreases stores.len(),
{
    if stores.len() == 0 {
        Seq::empty()
    } else {
        result_hits(stores.drop_last()) + hits_under(stores.last().alias, stores.last().results@)
    }
}

/// The results of several stores, of each chunk of a repository the best one, from
/// the highest score down.
pub open spec fn merged_results(stores: Seq<StoreResults>) -> Seq<SearchResult> {
    fusion::merge_order(result_hits(stores)).map_values(|k: usize| all_results(stores)[k as int])
}

/// The results of several stores, of each chunk of a repository the best one, from
/// the highest score down.
pub fn merge_store_results(stores: &Vec<StoreResults>) -> (r: Vec<SearchResult>)
    requires
        forall|k: int|
            0 <= k < stores@.len() ==> chunks::results_ok((#[trigger] stores@[k]).results@),
    ensures
        r@ == merged_results(stores@),
{
    let mut hits: Vec<StoreHit> = Vec::new();
    let mut all: Vec<SearchResult> = Vec::new();
    let mut k: usize = 0;
    while k < stores.len()
        invariant
            k <= stores.len(),
            forall|m: int|
                0 <= m < stores@.len() ==> chunks::results_ok((#[trigger] stores@[m]).results@),
            hits@ == result_hits(stores@.take(k as int)),
            all@ == all_results(stores@.take(k as int)),
            hits@.len() == all@.len(),
            fusion::hits_ok(hits@),
        decreases stores.len() - k,
    {
        let store = &stores[k];
        let ghost hits_before = hits@;
        let ghost all_before = all@;
        proof {
            assert(stores@.take(k + 1).drop_last() =~= stores@.take(k as int));
            assert(stores@.take(k + 1).last() == *store);
            assert(chunks::results_ok(stores@[k as int].results@));
        }
        let ghost own = hits_under(store.alias, store.results@);
        let mut i: usize = 0;
        while i < store.results.len()
            invariant
                i <= store.results.len(),
                own == hits_under(store.alias, store.results@),
                chunks::results_ok(store.results@),
                hits@ == hits_before + own.take(i as int),
                all@ == all_before + store.results@.take(i as int),
                hits@.len() == all@.len(),
                fusion::hits_ok(hits@),
            decreases store.results.len() - i,
        {
            let r = &store.results[i];
            assert(!store.results@[i as int].score.is_nan());
            hits.push(StoreHit { alias: store.alias.clone(), chunk_id: r.id, score: r.score });
            all.push(r.copy_scored(r.score));
            proof {
                assert(hits@ =~= hits_before + own.take(i + 1));
                assert(all@ =~= all_before + store.results@.take(i + 1));
            }
            i += 1;
        }
        proof {
            assert(own.take(own.len() as int) =~= own);
            assert(store.results@.take(store.results@.len() as int) =~= store.results@);
        }
        k += 1;
    }
    proof {
        assert(stores@.take(stores@.len() as int) =~= stores@);
    }
    let order = merge_store_hits(&hits);
    let ghost merged = merged_results(stores@);
    let mut out: Vec<SearchResult> = Vec::new();
    let mut j: usize = 0;
    while j < order.len()
        invariant
            j <= order.len(),
            forall|a: int| 0 <= a < order@.len() ==> (#[trigger] order@[a]) < all@.len(),
            all@ == all_results(stores@),
            order@ == fusion::merge_order(result_hits(stores@)),
            merged == merged_results(stores@),
            out@ == merged.take(j as int),
        decreases order.len() - j,
    {
        assert(order@[j as int] < all@.len());
        let r = &all[order[j]];
        out.push(r.copy_scored(r.score));
        proof {
            assert(out@ =~= merged.take(j + 1));
        }
        j += 1;
    }
    proof {
        assert(merged.take(merged.len() as int) =~= merged);
    }
    out
}

/// The full-text hits of one of several stores; a store that cannot be read is
/// left out.
#[derive(Debug)]
pub struct StoreFts {
    /// The repository of the store.
    pub alias: String,
    pub hits: Vec<FtsResult>,
}

/// The hits of the stores, one store behind the other.
pub open spec fn fts_hits(stores: Seq<StoreFts>) -> Seq<StoreHit>
    decreases stores.len(),
{
    if stores.len() == 0 {
        Seq::empty()
    } else {
        let alias = stores.last().alias;
        fts_hits(stores.drop_last()) + stores.last().hits@.map_values(
            |h: FtsResult| StoreHit { alias, chunk_id: h.chunk_id, score: h.score },
        )
    }
}

/// The hits of several stores, of each chunk of a repository the best one, from
/// the highest score down.
pub open spec fn merged_fts(stores: Seq<StoreFts>) -> Seq<FtsResult> {
    fusion::merge_order(fts_hits(stores)).map_values(
        |k: usize|
            FtsResult {
                chunk_id: fts_hits(stores)[k as int].chunk_id,
                score: fts_hits(stores)[k as int].score,
            },
    )
}

/// The hits of several stores, of each chunk of a repository the best one, from
/// the highest score down.
pub fn merge_store_fts(stores: &Vec<StoreFts>) -> (r: Vec<FtsResult>)
    requires
        forall|k: int|
            0 <= k < stores@.len() ==> score::all_numbers(
                semantic::hit_scores((#[trigger] stores@[k]).hits@),
            ),
    ensures
        r@ == merged_fts(stores@),
{
    let mut hits: Vec<StoreHit> = Vec::new();
    let mut k: usize = 0;
    while k < stores.len()
        invariant
            k <= stores.len(),
            forall|m: int|
                0 <= m < stores@.len() ==> score::all_numbers(
                    semantic::hit_scores((#[trigger] stores@[m]).hits@),
                ),
            hits@ == fts_hits(stores@.take(k as int)),
            fusion::hits_ok(hits@),
        decreases stores.len() - k,
    {
        let store = &stores[k];
        let ghost before = hits@;
        let ghost alias = store.alias;
        let ghost own = store.hits@.map_values(
            |h: FtsResult| StoreHit { alias, chunk_id: h.chunk_id, score: h.score },
        );
        proof {
            assert(stores@.take(k + 1).drop_last() =~= stores@.take(k as int));
            assert(stores@.take(k + 1).last() == *store);
            assert(score::all_numbers(semantic::hit_scores(stores@[k as int].hits@)));
        }
        let mut i: usize = 0;
        while i < store.hits.len()
            invariant
                i <= store.hits.len(),
                alias == store.alias,
                own == store.hits@.map_values(
                    |h: FtsResult| StoreHit { alias, chunk_id: h.chunk_id, score: h.score },
                ),
                score::all_numbers(semantic::hit_scores(store.hits@)),
                hits@ == before + own.take(i as int),
                fusion::hits_ok(hits@),
            decreases store.hits.len() - i,
        {
            let h = store.hits[i];
            assert(!semantic::hit_scores(store.hits@)[i as int].is_nan());
            hits.push(
                StoreHit { alias: store.alias.clone(), chunk_id: h.chunk_id, score: h.score },
            );
            proof {
                assert(hits@ =~= before + own.take(i + 1));
            }
            i += 1;
        }
        proof {
            assert(own.take(own.len() as int) =~= own);
        }
        k += 1;
    }
    proof {
        assert(stores@.take(stores@.len() as int) =~= stores@);
    }
    let order = merge_store_hits(&hits);
    let ghost merged = merged_fts(stores@);
    let mut out: Vec<FtsResult> = Vec::new();
    let mut j: usize = 0;
    while j < order.len()
        invariant
            j <= order.len(),
            forall|a: int| 0 <= a < order@.len() ==> (#[trigger] order@[a]) < hits@.len(),
            hits@ == fts_hits(stores@),
            order@ == fusion::merge_order(fts_hits(stores@)),
            merged == merged_fts(stores@),
            out@ == merged.take(j as int),
        decreases order.len() - j,
    {
        assert(order@[j as int] < hits@.len());
        let h = &hits[order[j]];
        out.push(FtsResult { chunk_id: h.chunk_id, score: h.score });
        proof {
            assert(out@ =~= merged.take(j + 1));
        }
        j += 1;
    }
    proof {
        assert(merged.take(merged.len() as int) =~= merged);
    }
    out
}

// ---------------------------------------------------------------------------
// Fusing
// ---------------------------------------------------------------------------

/// What the stores gave for a search that fuses vector and full-text results.
#[derive(Debug)]
pub struct HybridHits {
    pub vector: Vec<SearchResult>,
    /// The hits of the full-text search; `None` where there is no such index.
    pub fts: Option<Vec<FtsResult>>,
    /// The exact hits of each name in the query.
    pub exact: Vec<Vec<FtsResult>>,
    /// The stored chunks of the fused hits, place by place. They count in a
    /// search of several repositories only.
    pub looked_up: Vec<Option<ChunkMeta>>,
}

impl HybridHits {
    /// The full-text hits.
    pub open spec fn fts_list(&self) -> Seq<FtsResult> {
        match self.fts {
            Some(f) => f@,
            None => Seq::empty(),
        }
    }

    /// The exact hits, of each chunk the first.
    pub open spec fn exact_list(&self) -> Seq<FtsResult> {
        fusion::first_of_each(fusion::all_hits(self.exact@))
    }

    /// The chunks that are named, in the order in which they first are.
    pub open spec fn ids(&self) -> Seq<u32> {
        fusion::distinct_ids(
            fusion::hits_of_results(self.vector@) + self.fts_list() + self.exact_list(),
        )
    }

    /// What every list says of every chunk that is named.
    pub fn entries(&self) -> (r: Vec<FusedEntry>)
        ensures
            fusion::entry_ids(r@) == self.ids(),
            forall|i: int|
                0 <= i < r@.len() ==> (#[trigger] r@[i]).is_of(
                    fusion::hits_of_results(self.vector@),
                    self.fts_list(),
                    self.exact_list(),
                ),
    {
        let vector = vector_hits(&self.vector);
        let exact = collect_exact(&self.exact);
        match &self.fts {
            Some(fts) => fuse_ranks(&vector, fts, &exact),
            None => {
                let none: Vec<FtsResult> = Vec::new();
                fuse_ranks(&vector, &none, &exact)
            },
        }
    }
}

/// What the ranks of the entries sum up to, and the means of the scores of the
/// full-text search and of the exact hits, entry by entry. The mean of an entry
/// that has only one of them does not count.
#[derive(Debug)]
pub struct RankSums {
    pub scores: Vec<Score>,
    pub means: Vec<Score>,
}

/// The sums are those of the entries, and everything can be ranked.
pub open spec fn rankable(hits: HybridHits, sums: RankSums) -> bool {
    if hits.fts is Some {
        &&& sums.scores@.len() == hits.ids().len()
        &&& sums.means@.len() == hits.ids().len()
        &&& score::all_numbers(sums.scores@)
    } else {
        chunks::results_ok(hits.vector@)
    }
}

/// The fused hits.
pub open spec fn fused_hits(hits: HybridHits, sums: RankSums) -> Seq<FusedResult> {
    fusion::fused_list(
        fusion::hits_of_results(hits.vector@),
        hits.fts_list(),
        hits.exact_list(),
        sums.scores@,
        sums.means@,
    )
}

/// The results of the best fused hits. Without a full-text index the best vector
/// results stay as they are.
pub open spec fn hybrid_page(hits: HybridHits, sums: RankSums, limit: int, is_multi: bool) -> Seq<
    SearchResult,
> {
    if hits.fts is None {
        types::at_most(hits.vector@, limit)
    } else {
        semantic::fused_results(
            fused_hits(hits, sums),
            hits.vector@,
            if is_multi {
                hits.looked_up@
            } else {
                Seq::empty()
            },
            chunks::smaller(fused_hits(hits, sums).len() as int, limit),
        )
    }
}

/// The fused hits: the chunks that the lists name, from the highest sum down.
pub fn rank_hybrid(hits: &HybridHits, sums: &RankSums) -> (r: Vec<FusedResult>)
    requires
        sums.scores@.len() == hits.ids().len(),
        sums.means@.len() == hits.ids().len(),
        score::all_numbers(sums.scores@),
    ensures
        r@ == fused_hits(*hits, *sums),
{
    let entries = hits.entries();
    proof {
        assert(fusion::entry_ids(entries@).len() == entries@.len());
        assert(sums.scores@.len() == sums.scores.len());
        fusion::lemma_ranked_lists(
            entries@,
            fusion::hits_of_results(hits.vector@),
            hits.fts_list(),
            hits.exact_list(),
            sums.scores@,
            sums.means@,
        );
    }
    rank_fused(&entries, &sums.scores, &sums.means)
}

/// Results of fused hits have fused scores.
proof fn lemma_fused_numbers(
    fused: Seq<FusedResult>,
    vector: Seq<SearchResult>,
    looked_up: Seq<Option<ChunkMeta>>,
    n: int,
)
    requires
        n <= fused.len(),
        forall|k: int| 0 <= k < n ==> !(#[trigger] fused[k]).rrf_score.is_nan(),
    ensures
        chunks::results_ok(semantic::fused_results(fused, vector, looked_up, n)),
        0 <= n ==> semantic::fused_results(fused, vector, looked_up, n).len() <= n,
    decreases n,
{
    if n > 0 {
        lemma_fused_numbers(fused, vector, looked_up, n - 1);
        let before = semantic::fused_results(fused, vector, looked_up, n - 1);
        let after = semantic::fused_results(fused, vector, looked_up, n);
        assert(!fused[n - 1].rrf_score.is_nan());
        assert forall|i: int| 0 <= i < after.len() implies !(
        #[trigger] after[i]).score.is_nan() by {
            if i < before.len() {
                assert(after[i] == before[i]);
            }
        }
    }
}

/// The scores of fused hits are the sums.
proof fn lemma_fused_scores(hits: HybridHits, sums: RankSums)
    requires
        sums.scores@.len() == hits.ids().len(),
        score::all_numbers(sums.scores@),
    ensures
        fused_hits(hits, sums).len() == sums.scores@.len(),
        forall|k: int|
            0 <= k < fused_hits(hits, sums).len() ==> !(#[trigger] fused_hits(
                hits,
                sums,
            )[k]).rrf_score.is_nan(),
{
    let scores = sums.scores@;
    assert(scores.len() == sums.scores.len());
    sorting::lemma_sorting_exists(scores);
    let order = score::ranking(scores);
    assert forall|k: int| 0 <= k < fused_hits(hits, sums).len() implies !(#[trigger] fused_hits(
        hits,
        sums,
    )[k]).rrf_score.is_nan() by {
        assert(0 <= order[k] < scores.len());
        assert(!scores[order[k] as int].is_nan());
    }
}

/// The results of the best fused hits; without a full-text index, the best
/// vector results.
pub fn page_of(hits: &HybridHits, sums: &RankSums, limit: usize, is_multi: bool) -> (r: Vec<
    SearchResult,
>)
    requires
        rankable(*hits, *sums),
    ensures
        r@ == hybrid_page(*hits, *sums, limit as int, is_multi),
        chunks::results_ok(r@),
        r@.len() <= limit,
{
    if hits.fts.is_none() {
        let r = first_results(&hits.vector, limit);
        proof {
            assert forall|i: int| 0 <= i < r@.len() implies !(#[trigger] r@[i]).score.is_nan() by {
                assert(r@[i] == hits.vector@[i]);
            }
        }
        return r;
    }
    let fused = rank_hybrid(hits, sums);
    proof {
        lemma_fused_scores(*hits, *sums);
        let n = chunks::smaller(fused@.len() as int, limit as int);
        lemma_fused_numbers(fused@, hits.vector@, hits.looked_up@, n);
        lemma_fused_numbers(fused@, hits.vector@, Seq::empty(), n);
    }
    if is_multi {
        map_fused(&fused, &hits.vector, &hits.looked_up, limit)
    } else {
        let none: Vec<Option<ChunkMeta>> = Vec::new();
        map_fused(&fused, &hits.vector, &none, limit)
    }
}

// ---------------------------------------------------------------------------
// Boosts
// ---------------------------------------------------------------------------

/// The main language of a project, the languages of the files of results, and
/// what the scores of the results become if they are raised.
#[derive(Debug)]
pub struct LanguageBoost {
    pub primary: String,
    pub languages: Vec<String>,
    pub raised: Vec<Score>,
}

/// The boost speaks of every result.
pub open spec fn boosts_all(language: Option<LanguageBoost>, n: nat) -> bool {
    language is Some ==> language->0.languages@.len() == n && language->0.raised@.len() == n
        && score::all_numbers(language->0.raised@)
}

/// The results once those in the main language are raised. In a search of
/// several repositories none is.
pub open spec fn after_language(
    results: Seq<SearchResult>,
    language: Option<LanguageBoost>,
    is_multi: bool,
) -> Seq<SearchResult> {
    if !is_multi && language is Some {
        semantic::boosted(
            results,
            semantic::in_language(language->0.languages@, language->0.primary@),
            language->0.raised@,
        )
    } else {
        results
    }
}

/// Raises the results in the main language.
pub fn raise_language(
    results: &Vec<SearchResult>,
    language: &Option<LanguageBoost>,
    is_multi: bool,
) -> (r: Vec<SearchResult>)
    requires
        chunks::results_ok(results@),
        boosts_all(*language, results@.len()),
    ensures
        r@ == after_language(results@, *language, is_multi),
        r@.len() == results@.len(),
        chunks::results_ok(r@),
{
    if !is_multi {
        match language {
            Some(l) => {
                let places = boost_language_places(&l.languages, l.primary.as_str());
                return boost(results, &places, &l.raised);
            },
            None => {},
        }
    }
    first_results(results, results.len())
}

/// The results once those of the kind that the query asks for are raised.
pub open spec fn after_kind(
    results: Seq<SearchResult>,
    intent: Option<ChunkKind>,
    raised: Seq<Score>,
) -> Seq<SearchResult> {
    match intent {
        Some(kind) => semantic::boosted(results, semantic::of_kind(results, kind), raised),
        None => results,
    }
}

/// Raises the results of the kind that the query asks for. `raised` holds what
/// the scores of the results become if they are raised.
pub fn raise_kind(
    results: &Vec<SearchResult>,
    intent: Option<ChunkKind>,
    raised: &Vec<Score>,
) -> (r: Vec<SearchResult>)
    requires
        chunks::results_ok(results@),
        intent is Some ==> raised@.len() == results@.len() && score::all_numbers(raised@),
    ensures
        r@ == after_kind(results@, intent, raised@),
        r@.len() == results@.len(),
{
    match intent {
        Some(kind) => {
            let places = boost_kind_places(results, kind);
            boost(results, &places, raised)
        },
        None => first_results(results, results.len()),
    }
}

/// Whether a search is filled up with literal hits: one of a single repository
/// that found little for a query with names.
pub fn fetches_literal(found: usize, plan: &SemanticPlan, is_multi: bool) -> (r: bool)
    ensures
        r == (!is_multi && semantic::wants_literal_fill(
            found as int,
            plan.identifiers@.len() > 0,
        )),
{
    !is_multi && needs_literal_fill(found, plan.identifiers.len() > 0)
}

/// The results once they are filled up with literal hits, where they are.
pub open spec fn after_fill(
    results: Seq<SearchResult>,
    literal: Seq<Candidate>,
    plan: SemanticPlan,
    is_multi: bool,
) -> Seq<SearchResult> {
    if !is_multi && semantic::wants_literal_fill(
        results.len() as int,
        plan.identifiers@.len() > 0,
    ) {
        semantic::filled(results, literal, plan.limit as int, literal.len() as int)
    } else {
        results
    }
}

// ---------------------------------------------------------------------------
// The full-text search alone
// ---------------------------------------------------------------------------

/// The hits of a lexical search, from the highest score down.
pub open spec fn lexical_list(fts: Seq<FtsResult>, exact: Seq<Vec<FtsResult>>) -> Seq<FtsResult> {
    sorting::sorted_by(
        semantic::hit_scores(semantic::merged_lists(fts, exact)),
        semantic::merged_lists(fts, exact),
    )
}

/// The results of the best hits of a lexical search.
pub open spec fn lexical_page(
    fts: Seq<FtsResult>,
    exact: Seq<Vec<FtsResult>>,
    stored: Seq<Option<ChunkMeta>>,
    limit: int,
) -> Seq<SearchResult> {
    let hits = lexical_list(fts, exact);
    semantic::hit_results(hits, stored, chunks::smaller(hits.len() as int, limit))
}

// ---------------------------------------------------------------------------
// The whole search
// ---------------------------------------------------------------------------

/// What was found for a semantic search. `raised` always holds what the scores
/// become of those results to which the boost for a kind applies, if they are
/// raised.
#[derive(Debug)]
pub enum Found {
    /// By the full-text search alone; `stored` holds the chunks of the ranked
    /// hits, place by place.
    Lexical {
        fts: Vec<FtsResult>,
        exact: Vec<Vec<FtsResult>>,
        stored: Vec<Option<ChunkMeta>>,
        raised: Vec<Score>,
    },
    /// By the vector search alone.
    Vectors { vector: Vec<SearchResult> },
    /// By both.
    Both {
        hits: HybridHits,
        sums: RankSums,
        language: Option<LanguageBoost>,
        raised: Vec<Score>,
        literal: Vec<Candidate>,
    },
}

/// The scores are those of so many results.
pub open spec fn raises_all(intent: Option<ChunkKind>, raised: Seq<Score>, n: nat) -> bool {
    intent is Some ==> raised.len() == n && score::all_numbers(raised)
}

impl Found {
    /// It was found in the way that the plan asks for, and everything can be
    /// ranked.
    pub open spec fn fits(&self, plan: SemanticPlan, is_multi: bool) -> bool {
        match *self {
            Found::Lexical { fts, exact, stored, raised } => {
                &&& plan.mode == SemanticMode::Lexical
                &&& score::all_numbers(semantic::hit_scores(fts@))
                &&& forall|i: int|
                    0 <= i < exact@.len() ==> score::all_numbers(
                        semantic::hit_scores(#[trigger] exact@[i]@),
                    )
                &&& raises_all(
                    plan.intent,
                    raised@,
                    lexical_page(fts@, exact@, stored@, plan.limit as int).len(),
                )
            },
            Found::Vectors { vector } => plan.mode == SemanticMode::VectorOnly,
            Found::Both { hits, sums, language, raised, literal } => {
                let n = hybrid_page(hits, sums, plan.limit as int, is_multi).len();
                &&& plan.mode == SemanticMode::Hybrid
                &&& rankable(hits, sums)
                &&& boosts_all(language, n)
                &&& raises_all(plan.intent, raised@, n)
            },
        }
    }
}

/// The results of a semantic search.
pub open spec fn found_results(found: Found, plan: SemanticPlan, is_multi: bool) -> Seq<SearchResult> {
    match found {
        Found::Lexical { fts, exact, stored, raised } => after_kind(
            lexical_page(fts@, exact@, stored@, plan.limit as int),
            plan.intent,
            raised@,
        ),
        Found::Vectors { vector } => semantic::fused_results(
            fusion::as_fused(vector@),
            vector@,
            Seq::empty(),
            chunks::smaller(vector@.len() as int, plan.limit as int),
        ),
        Found::Both { hits, sums, language, raised, literal } => after_fill(
            after_kind(
                after_language(
                    hybrid_page(hits, sums, plan.limit as int, is_multi),
                    language,
                    is_multi,
                ),
                plan.intent,
                raised@,
            ),
            literal@,
            plan,
            is_multi,
        ),
    }
}

/// The results of a semantic search, from what was found.
pub fn results_of(found: Found, plan: &SemanticPlan, is_multi: bool) -> (r: Vec<SearchResult>)
    requires
        found.fits(*plan, is_multi),
    ensures
        r@ == found_results(found, *plan, is_multi),
{
    match found {
        Found::Lexical { fts, exact, stored, raised } => {
            let hits = lexical_hits(fts, exact);
            let page = resolve_fts_to_search_results(&hits, &stored, plan.limit);
            raise_kind(&page, plan.intent, &raised)
        },
        Found::Vectors { vector } => {
            let none: Vec<Option<ChunkMeta>> = Vec::new();
            map_fused(&vector_only(&vector), &vector, &none, plan.limit)
        },
        Found::Both { hits, sums, language, raised, literal } => {
            let page = page_of(&hits, &sums, plan.limit, is_multi);
            let own = raise_language(&page, &language, is_multi);
            let mut results = raise_kind(&own, plan.intent, &raised);
            if fetches_literal(results.len(), plan, is_multi) {
                fill_with_literal(&mut results, &literal, plan.limit);
            }
            results
        },
    }
}

/// The response of a semantic search, from what was found.
///
/// In one repository the results of both searches are fused, raised for the main
/// language and the kind that the query asks for, and filled up with literal
/// hits where they are few. In several repositories chunks that only the
/// full-text search found are looked up; no language is raised and nothing is
/// filled up.
pub fn semantic_response(
    found: Found,
    plan: &SemanticPlan,
    filter_path: &Option<String>,
    project_path: &str,
    ctx: &MultiStoreContext,
) -> (r: SemanticSearchResponse)
    requires
        found.fits(*plan, ctx.is_multi),
    ensures
        semantic::responds(
            r,
            found_results(found, *plan, ctx.is_multi),
            types::opt_text(*filter_path),
            plan.compact,
            plan.identifiers@.len() > 0,
            project_path@,
            types::opt_text(ctx.project_alias),
            ctx.alias_roots@,
        ),
{
    let results = results_of(found, plan, ctx.is_multi);
    build_semantic_response(
        &results,
        filter_path,
        plan.compact,
        plan.identifiers.len() > 0,
        project_path,
        &ctx.project_alias,
        &ctx.alias_roots,
    )
}

/// Boosting keeps the number of results.
proof fn lemma_boosted_len(results: Seq<SearchResult>, places: Seq<bool>, raised: Seq<Score>)
    requires
        results.len() <= usize::MAX,
    ensures
        semantic::boosted(results, places, raised).len() == results.len(),
{
    sorting::lemma_sorting_exists(semantic::chosen_scores(results, places, raised));
}

/// Filling up stays within the limit.
proof fn lemma_filled_len(results: Seq<SearchResult>, literal: Seq<Candidate>, limit: int, n: int)
    requires
        results.len() <= limit,
    ensures
        semantic::filled(results, literal, limit, n).len() <= limit,
    decreases n,
{
    if n > 0 {
        lemma_filled_len(results, literal, limit, n - 1);
    }
}

/// No more hits become results than are looked at.
proof fn lemma_hit_results_len(hits: Seq<FtsResult>, stored: Seq<Option<ChunkMeta>>, n: int)
    requires
        0 <= n,
    ensures
        semantic::hit_results(hits, stored, n).len() <= n,
    decreases n,
{
    if n > 0 {
        lemma_hit_results_len(hits, stored, n - 1);
    }
}

/// No more fused hits become results than are looked at.
proof fn lemma_fused_results_len(
    fused: Seq<FusedResult>,
    vector: Seq<SearchResult>,
    looked_up: Seq<Option<ChunkMeta>>,
    n: int,
)
    requires
        0 <= n,
    ensures
        semantic::fused_results(fused, vector, looked_up, n).len() <= n,
    decreases n,
{
    if n > 0 {
        lemma_fused_results_len(fused, vector, looked_up, n - 1);
    }
}

/// A semantic search brings no more results than are asked for, in every mode.
pub proof fn law_limit_is_kept(found: Found, plan: SemanticPlan, is_multi: bool)
    requires
        found.fits(plan, is_multi),
    ensures
        found_results(found, plan, is_multi).len() <= plan.limit,
{
    let limit = plan.limit as int;
    match found {
        Found::Lexical { fts, exact, stored, raised } => {
            let hits = lexical_list(fts@, exact@);
            lemma_hit_results_len(hits, stored@, chunks::smaller(hits.len() as int, limit));
            let page = lexical_page(fts@, exact@, stored@, limit);
            if plan.intent is Some {
                lemma_boosted_len(page, semantic::of_kind(page, plan.intent->0), raised@);
            }
        },
        Found::Vectors { vector } => {
            lemma_fused_results_len(
                fusion::as_fused(vector@),
                vector@,
                Seq::empty(),
                chunks::smaller(vector@.len() as int, limit),
            );
        },
        Found::Both { hits, sums, language, raised, literal } => {
            let page = hybrid_page(hits, sums, limit, is_multi);
            let fused = fused_hits(hits, sums);
            lemma_fused_results_len(
                fused,
                hits.vector@,
                if is_multi {
                    hits.looked_up@
                } else {
                    Seq::empty()
                },
                chunks::smaller(fused.len() as int, limit),
            );
            let own = after_language(page, language, is_multi);
            if language is Some {
                lemma_boosted_len(
                    page,
                    semantic::in_language(language->0.languages@, language->0.primary@),
                    language->0.raised@,
                );
            }
            let kind = after_kind(own, plan.intent, raised@);
            if plan.intent is Some {
                lemma_boosted_len(own, semantic::of_kind(own, plan.intent->0), raised@);
            }
            lemma_filled_len(kind, literal@, limit, literal@.len() as int);
        },
    }
}

/// The results and the hits of several stores stand one store behind the other,
/// each hit under the alias of its store at the place of its result.
pub proof fn law_store_hits(stores: Seq<StoreResults>, i: int) -> (s: int)
    requires
        0 <= i < all_results(stores).len(),
    ensures
        all_results(stores).len() == result_hits(stores).len(),
        0 <= s < stores.len(),
        stores[s].results@.contains(all_results(stores)[i]),
        result_hits(stores)[i].alias == stores[s].alias,
        result_hits(stores)[i].chunk_id == all_results(stores)[i].id,
        result_hits(stores)[i].score == all_results(stores)[i].score,
    decreases stores.len(),
{
    let front = stores.drop_last();
    let before = all_results(front);
    lemma_store_lens(front);
    if i < before.len() {
        let s = law_store_hits(front, i);
        assert(stores[s] == front[s]);
        s
    } else {
        let own = stores.last().results@;
        assert(own[i - before.len()] == all_results(stores)[i]);
        stores.len() - 1
    }
}

proof fn lemma_store_lens(stores: Seq<StoreResults>)
    ensures
        all_results(stores).len() == result_hits(stores).len(),
    decreases stores.len(),
{
    if stores.len() > 0 {
        lemma_store_lens(stores.drop_last());
    }
}

/// No result of any store is missing before the merging.
pub proof fn law_every_store_is_heard(stores: Seq<StoreResults>, s: int, k: int) -> (i: int)
    requires
        0 <= s < stores.len(),
        0 <= k < stores[s].results@.len(),
    ensures
        0 <= i < all_results(stores).len(),
        all_results(stores)[i] == stores[s].results@[k],
        result_hits(stores).len() == all_results(stores).len(),
        result_hits(stores)[i].alias == stores[s].alias,
        result_hits(stores)[i].chunk_id == stores[s].results@[k].id,
        result_hits(stores)[i].score == stores[s].results@[k].score,
    decreases stores.len(),
{
    let front = stores.drop_last();
    lemma_store_lens(front);
    if s < front.len() {
        assert(front[s] == stores[s]);
        law_every_store_is_heard(front, s, k)
    } else {
        all_results(front).len() + k
    }
}

proof fn lemma_store_numbers(stores: Seq<StoreResults>)
    requires
        forall|k: int| 0 <= k < stores.len() ==> chunks::results_ok((#[trigger] stores[k]).results@),
    ensures
        fusion::hits_ok(result_hits(stores)),
    decreases stores.len(),
{
    if stores.len() > 0 {
        let front = stores.drop_last();
        assert forall|k: int| 0 <= k < front.len() implies chunks::results_ok(
            (#[trigger] front[k]).results@,
        ) by {
            assert(front[k] == stores[k]);
        }
        lemma_store_numbers(front);
        let own = stores.last().results@;
        assert(chunks::results_ok(stores[stores.len() - 1].results@));
        let before = result_hits(front);
        assert forall|i: int| 0 <= i < result_hits(stores).len() implies !(
        #[trigger] result_hits(stores)[i]).score.is_nan() by {
            if i < before.len() {
                assert(result_hits(stores)[i] == before[i]);
            } else {
                assert(!own[i - before.len()].score.is_nan());
            }
        }
    }
}

/// The merged results of several stores are results of the stores, the higher
/// scores first, and a result stays where no other hit is of the same chunk of
/// the same repository.
pub proof fn law_merged_results(stores: Seq<StoreResults>, i: int)
    requires
        forall|m: int| 0 <= m < stores.len() ==> chunks::results_ok((#[trigger] stores[m]).results@),
        all_results(stores).len() <= usize::MAX,
        0 <= i < all_results(stores).len(),
        forall|j: int|
            0 <= j < result_hits(stores).len() && j != i ==> (#[trigger] result_hits(
                stores,
            )[j]).alias@ != result_hits(stores)[i].alias@ || result_hits(stores)[j].chunk_id
                != result_hits(stores)[i].chunk_id,
    ensures
        merged_results(stores).contains(all_results(stores)[i]),
        forall|a: int|
            0 <= a < merged_results(stores).len() ==> all_results(stores).contains(
                #[trigger] merged_results(stores)[a],
            ),
        forall|a: int, b: int|
            0 <= a < b < merged_results(stores).len() ==> (#[trigger] merged_results(
                stores,
            )[b]).score.key() <= (#[trigger] merged_results(stores)[a]).score.key(),
{
    let hits = result_hits(stores);
    let all = all_results(stores);
    let merged = merged_results(stores);
    let order = fusion::merge_order(hits);
    lemma_store_numbers(stores);
    lemma_store_lens(stores);
    fusion::law_repositories_are_apart(hits, i);
    let at = choose|a: int| 0 <= a < order.len() && order[a] == i as usize;
    assert(merged[at] == all[i]);
    fusion::law_store_merge(hits);
    assert forall|a: int| 0 <= a < merged.len() implies all.contains(#[trigger] merged[a]) by {
        fusion::lemma_merged_places(hits, a);
        assert(all[order[a] as int] == merged[a]);
    }
    assert forall|a: int, b: int| 0 <= a < b < merged.len() implies (#[trigger] merged[b]).score.key()
        <= (#[trigger] merged[a]).score.key() by {
        fusion::lemma_merged_places(hits, a);
        fusion::lemma_merged_places(hits, b);
        let x = law_store_hits(stores, order[a] as int);
        let y = law_store_hits(stores, order[b] as int);
        assert(hits[order[b] as int].score.key() <= hits[order[a] as int].score.key());
    }
}

/// The full-text hits of several stores stand one store behind the other, each
/// under the alias of its store.
pub proof fn law_fts_of_every_store(stores: Seq<StoreFts>, s: int, k: int) -> (i: int)
    requires
        0 <= s < stores.len(),
        0 <= k < stores[s].hits@.len(),
    ensures
        0 <= i < fts_hits(stores).len(),
        fts_hits(stores)[i].alias == stores[s].alias,
        fts_hits(stores)[i].chunk_id == stores[s].hits@[k].chunk_id,
        fts_hits(stores)[i].score == stores[s].hits@[k].score,
    decreases stores.len(),
{
    let front = stores.drop_last();
    if s < front.len() {
        assert(front[s] == stores[s]);
        law_fts_of_every_store(front, s, k)
    } else {
        fts_hits(front).len() + k
    }
}

/// The merged full-text hits of several stores are hits of the stores, the
/// higher scores first, and a hit stays where no other is of the same chunk of
/// the same repository.
pub proof fn law_merged_fts(stores: Seq<StoreFts>, i: int)
    requires
        fusion::hits_ok(fts_hits(stores)),
        fts_hits(stores).len() <= usize::MAX,
        0 <= i < fts_hits(stores).len(),
        forall|j: int|
            0 <= j < fts_hits(stores).len() && j != i ==> (#[trigger] fts_hits(stores)[j]).alias@
                != fts_hits(stores)[i].alias@ || fts_hits(stores)[j].chunk_id != fts_hits(
                stores,
            )[i].chunk_id,
    ensures
        exists|a: int|
            0 <= a < merged_fts(stores).len() && (#[trigger] merged_fts(stores)[a]).chunk_id
                == fts_hits(stores)[i].chunk_id && merged_fts(stores)[a].score == fts_hits(
                stores,
            )[i].score,
        forall|a: int, b: int|
            0 <= a < b < merged_fts(stores).len() ==> (#[trigger] merged_fts(stores)[b]).score.key()
                <= (#[trigger] merged_fts(stores)[a]).score.key(),
{
    let hits = fts_hits(stores);
    let merged = merged_fts(stores);
    let order = fusion::merge_order(hits);
    fusion::law_repositories_are_apart(hits, i);
    let at = choose|a: int| 0 <= a < order.len() && order[a] == i as usize;
    assert(merged[at].chunk_id == hits[i].chunk_id);
    fusion::law_store_merge(hits);
    assert forall|a: int, b: int| 0 <= a < b < merged.len() implies (#[trigger] merged[b]).score.key()
        <= (#[trigger] merged[a]).score.key() by {
        assert(hits[order[b] as int].score.key() <= hits[order[a] as int].score.key());
    }
}

/// Fused hits are the chunks that the lists name, each once and with its own
/// sum, the higher sums first.
pub proof fn law_fused_hits(hits: HybridHits, sums: RankSums) -> (order: Seq<usize>)
    requires
        sums.scores@.len() == hits.ids().len(),
        sums.scores@.len() <= usize::MAX,
    ensures
        order.len() == hits.ids().len(),
        order.no_duplicates(),
        fused_hits(hits, sums).len() == hits.ids().len(),
        forall|a: int|
            0 <= a < order.len() ==> {
                let i = #[trigger] order[a] as int;
                let f = fused_hits(hits, sums)[a];
                0 <= i < hits.ids().len() && f.chunk_id == hits.ids()[i] && f.rrf_score
                    == sums.scores@[i]
            },
        forall|a: int, b: int|
            0 <= a < b < order.len() ==> (#[trigger] fused_hits(hits, sums)[b]).rrf_score.key() <= (
            #[trigger] fused_hits(hits, sums)[a]).rrf_score.key(),
{
    sorting::law_sorting(sums.scores@);
    let order = score::ranking(sums.scores@);
    let fused = fused_hits(hits, sums);
    assert forall|a: int| 0 <= a < order.len() implies ({
        let i = #[trigger] order[a] as int;
        let f = fused[a];
        0 <= i < hits.ids().len() && f.chunk_id == hits.ids()[i] && f.rrf_score == sums.scores@[i]
    }) by {
        assert(0 <= order[a] < sums.scores@.len());
    }
    assert forall|a: int, b: int| 0 <= a < b < order.len() implies (#[trigger] fused[b]).rrf_score.key()
        <= (#[trigger] fused[a]).rrf_score.key() by {
        let i = order[a] as int;
        let j = order[b] as int;
        assert(sorting::SortKey::upto(sums.scores@[i], sums.scores@[j]));
    }
    order
}

/// A chunk is fused where the vector search, the full-text search or an exact
/// search names it, and nowhere else; none is named twice.
pub proof fn law_fused_chunks(hits: HybridHits, id: u32)
    ensures
        hits.ids().no_duplicates(),
        hits.ids().contains(id) <==> {
            ||| chunks::has_result(hits.vector@, id)
            ||| hits.fts is Some && fusion::has_id(hits.fts->0@, id)
            ||| fusion::has_id(fusion::all_hits(hits.exact@), id)
        },
{
    let vector = fusion::hits_of_results(hits.vector@);
    let fts = hits.fts_list();
    let exact = hits.exact_list();
    let list = vector + fts + exact;
    fusion::law_fusion_is_union(list, id);
    let places = fusion::law_first_of_each(fusion::all_hits(hits.exact@));
    assert(fusion::has_id(exact, id) <==> fusion::has_id(fusion::all_hits(hits.exact@), id));
    assert(fusion::has_id(vector, id) <==> chunks::has_result(hits.vector@, id)) by {
        if fusion::has_id(vector, id) {
            let i = choose|i: int| 0 <= i < vector.len() && (#[trigger] vector[i]).chunk_id == id;
            assert(hits.vector@[i].id == id);
        }
        if chunks::has_result(hits.vector@, id) {
            let i = choose|i: int|
                0 <= i < hits.vector@.len() && (#[trigger] hits.vector@[i]).id == id;
            assert(vector[i].chunk_id == id);
        }
    }
    if fusion::has_id(list, id) {
        let i = choose|i: int| 0 <= i < list.len() && (#[trigger] list[i]).chunk_id == id;
        if i < vector.len() {
            assert(vector[i].chunk_id == id);
        } else if i < vector.len() + fts.len() {
            assert(fts[i - vector.len()].chunk_id == id);
        } else {
            assert(exact[i - vector.len() - fts.len()].chunk_id == id);
        }
    }
    if fusion::has_id(vector, id) {
        let i = choose|i: int| 0 <= i < vector.len() && (#[trigger] vector[i]).chunk_id == id;
        assert(list[i].chunk_id == id);
    }
    if fusion::has_id(fts, id) {
        let i = choose|i: int| 0 <= i < fts.len() && (#[trigger] fts[i]).chunk_id == id;
        assert(list[vector.len() + i].chunk_id == id);
    }
    if fusion::has_id(exact, id) {
        let i = choose|i: int| 0 <= i < exact.len() && (#[trigger] exact[i]).chunk_id == id;
        assert(list[vector.len() + fts.len() + i].chunk_id == id);
    }
}

/// Without a full-text index a page holds the first vector results as they are.
/// With one it holds the best fused hits up to the limit that have a vector
/// result, or whose chunk was looked up in a search of several repositories.
pub proof fn law_hybrid_page(hits: HybridHits, sums: RankSums, limit: nat, is_multi: bool) -> (places:
    Seq<int>)
    ensures
        hits.fts is None && hits.vector@.len() <= limit ==> hybrid_page(
            hits,
            sums,
            limit as int,
            is_multi,
        ) == hits.vector@,
        hits.fts is None && hits.vector@.len() > limit ==> hybrid_page(
            hits,
            sums,
            limit as int,
            is_multi,
        ) == hits.vector@.take(limit as int),
        hits.fts is Some ==> {
            let fused = fused_hits(hits, sums);
            let page = hybrid_page(hits, sums, limit as int, is_multi);
            &&& sorting::selects(
                places,
                if fused.len() < limit {
                    fused.len() as int
                } else {
                    limit as int
                },
                |i: int|
                    chunks::has_result(hits.vector@, fused[i].chunk_id) || is_multi && i
                        < hits.looked_up@.len() && hits.looked_up@[i] is Some,
            )
            &&& page.len() == places.len()
            &&& forall|k: int|
                0 <= k < places.len() ==> (#[trigger] page[k]).id == fused[places[k]].chunk_id
                    && page[k].score == fused[places[k]].rrf_score
        },
{
    let fused = fused_hits(hits, sums);
    let n = chunks::smaller(fused.len() as int, limit as int);
    let looked_up = if is_multi {
        hits.looked_up@
    } else {
        Seq::empty()
    };
    let places = semantic::law_fused_results(fused, hits.vector@, looked_up, n);
    let wanted = |i: int|
        chunks::has_result(hits.vector@, fused[i].chunk_id) || is_multi && i
            < hits.looked_up@.len() && hits.looked_up@[i] is Some;
    let known = |i: int|
        chunks::has_result(hits.vector@, fused[i].chunk_id) || i < looked_up.len() && looked_up[i]
            is Some;
    assert(forall|i: int| 0 <= i && #[trigger] wanted(i) ==> known(i));
    assert(forall|i: int| 0 <= i && #[trigger] known(i) ==> wanted(i));
    assert forall|i: int| 0 <= i < places.len() implies 0 <= #[trigger] places[i] < n && wanted(
        places[i],
    ) by {
        assert(known(places[i]));
    }
    assert forall|k: int| 0 <= k < n && #[trigger] wanted(k) implies places.contains(k) by {
        assert(known(k));
    }
    places
}

/// Results in the main language are raised in a search of one repository, and in
/// no other; where no language is known everything stays as it is.
pub proof fn law_language_boost(
    results: Seq<SearchResult>,
    language: Option<LanguageBoost>,
    is_multi: bool,
) -> (order: Seq<usize>)
    requires
        results.len() <= usize::MAX,
        boosts_all(language, results.len()),
    ensures
        is_multi || language is None ==> after_language(results, language, is_multi) == results,
        !is_multi && language is Some ==> {
            let all = after_language(results, language, is_multi);
            let l = language->0;
            &&& all.len() == results.len()
            &&& order.len() == results.len()
            &&& order.no_duplicates()
            &&& forall|a: int|
                0 <= a < order.len() ==> {
                    let i = #[trigger] order[a] as int;
                    &&& 0 <= i < results.len()
                    &&& l.languages@[i]@ == l.primary@ ==> all[a] == (SearchResult {
                        score: l.raised@[i],
                        ..results[i]
                    })
                    &&& crate::chars::in_lower_case(l.languages@[i]@)
                        != crate::chars::in_lower_case(l.primary@) ==> all[a] == results[i]
                }
            &&& forall|a: int, b: int|
                0 <= a < b < order.len() ==> (#[trigger] all[b]).score.key() <= (
                #[trigger] all[a]).score.key()
        },
{
    if !is_multi && language is Some {
        let l = language->0;
        semantic::law_boost(
            results,
            semantic::in_language(l.languages@, l.primary@),
            l.raised@,
        )
    } else {
        Seq::empty()
    }
}

/// Where a query asks for a kind, the results of that kind are raised and no
/// others; where it asks for none everything stays as it is.
pub proof fn law_kind_boost(
    results: Seq<SearchResult>,
    intent: Option<ChunkKind>,
    raised: Seq<Score>,
) -> (order: Seq<usize>)
    requires
        results.len() <= usize::MAX,
        raises_all(intent, raised, results.len()),
    ensures
        intent is None ==> after_kind(results, intent, raised) == results,
        intent is Some ==> {
            let all = after_kind(results, intent, raised);
            &&& all.len() == results.len()
            &&& order.len() == results.len()
            &&& order.no_duplicates()
            &&& forall|a: int|
                0 <= a < order.len() ==> {
                    let i = #[trigger] order[a] as int;
                    &&& 0 <= i < results.len()
                    &&& results[i].kind@ == intent->0.spec_name() ==> all[a] == (SearchResult {
                        score: raised[i],
                        ..results[i]
                    })
                    &&& results[i].kind@ != intent->0.spec_name() ==> all[a] == results[i]
                }
            &&& forall|a: int, b: int|
                0 <= a < b < order.len() ==> (#[trigger] all[b]).score.key() <= (
                #[trigger] all[a]).score.key()
        },
{
    if intent is Some {
        semantic::law_boost(results, semantic::of_kind(results, intent->0), raised)
    } else {
        Seq::empty()
    }
}

/// Only a search of one repository whose query holds names and that found fewer
/// than three results is filled up.
pub proof fn law_filled_up(
    results: Seq<SearchResult>,
    literal: Seq<Candidate>,
    plan: SemanticPlan,
    is_multi: bool,
    i: int,
)
    ensures
        is_multi || results.len() >= 3 || plan.identifiers@.len() == 0 ==> after_fill(
            results,
            literal,
            plan,
            is_multi,
        ) == results,
        !is_multi && results.len() < 3 && plan.identifiers@.len() > 0 ==> {
            let all = after_fill(results, literal, plan, is_multi);
            &&& all.len() >= results.len()
            &&& all.take(results.len() as int) == results
            &&& 0 <= i < literal.len() && literal[i].found() is Some && all.len() < plan.limit
                ==> chunks::has_result(all, literal[i].chunk_id)
        },
{
    semantic::law_fill_keeps_results(results, literal, plan.limit as int, literal.len() as int);
    semantic::law_fill_is_complete(results, literal, plan.limit as int, literal.len() as int, i);
}

/// The hits of a lexical search are those of the full-text search and the exact
/// ones, the higher scores first; its results are the stored chunks of the first
/// of them, up to the limit.
pub proof fn law_lexical_page(
    fts: Seq<FtsResult>,
    exact: Seq<Vec<FtsResult>>,
    stored: Seq<Option<ChunkMeta>>,
    limit: nat,
    id: u32,
) -> (places: Seq<int>)
    requires
        semantic::merged_lists(fts, exact).len() <= usize::MAX,
    ensures
        fusion::has_id(lexical_list(fts, exact), id) <==> fusion::has_id(fts, id) || exists|k: int|
            0 <= k < exact.len() && fusion::has_id((#[trigger] exact[k])@, id),
        forall|a: int, b: int|
            0 <= a < b < lexical_list(fts, exact).len() ==> (#[trigger] lexical_list(
                fts,
                exact,
            )[b]).score.key() <= (#[trigger] lexical_list(fts, exact)[a]).score.key(),
        ({
            let hits = lexical_list(fts, exact);
            let page = lexical_page(fts, exact, stored, limit as int);
            &&& sorting::selects(
                places,
                if hits.len() < limit {
                    hits.len() as int
                } else {
                    limit as int
                },
                |i: int| i < stored.len() && stored[i] is Some,
            )
            &&& page.len() == places.len()
            &&& forall|k: int|
                0 <= k < places.len() ==> (#[trigger] page[k]).id == hits[places[k]].chunk_id
                    && page[k].score == hits[places[k]].score && page[k].path
                    == stored[places[k]]->0.path
        }),
{
    let merged = semantic::merged_lists(fts, exact);
    let scores = semantic::hit_scores(merged);
    let hits = lexical_list(fts, exact);
    sorting::law_sorting(scores);
    let order = sorting::sorting(scores);
    semantic::law_exact_hits_are_merged(fts, exact, id);
    if fusion::has_id(hits, id) {
        let a = choose|a: int| 0 <= a < hits.len() && (#[trigger] hits[a]).chunk_id == id;
        assert(0 <= order[a] < scores.len());
        assert(merged[order[a] as int].chunk_id == id);
    }
    if fusion::has_id(merged, id) {
        let i = choose|i: int| 0 <= i < merged.len() && (#[trigger] merged[i]).chunk_id == id;
        assert(order.contains(i as usize));
        let a = choose|a: int| 0 <= a < order.len() && order[a] == i as usize;
        assert(hits[a].chunk_id == id);
    }
    assert forall|a: int, b: int| 0 <= a < b < hits.len() implies (#[trigger] hits[b]).score.key() <= (
    #[trigger] hits[a]).score.key() by {
        let i = order[a] as int;
        let j = order[b] as int;
        assert(0 <= i < scores.len() && 0 <= j < scores.len());
        assert(sorting::SortKey::upto(scores[i], scores[j]));
    }
    semantic::law_hit_results(hits, stored, chunks::smaller(hits.len() as int, limit as int))
}

/// A search by vectors alone brings the first vector results as they are, up to
/// the limit, where no chunk stands twice among them.
pub proof fn law_vectors_alone(vector: Vec<SearchResult>, plan: SemanticPlan, is_multi: bool)
    requires
        vector@.len() <= usize::MAX,
        forall|i: int, j: int|
            0 <= i < j < vector@.len() ==> (#[trigger] vector@[i]).id != (#[trigger] vector@[j]).id,
    ensures
        ({
            let all = found_results(Found::Vectors { vector }, plan, is_multi);
            &&& vector@.len() <= plan.limit ==> all == vector@
            &&& vector@.len() > plan.limit ==> all == vector@.take(plan.limit as int)
        }),
{
    let n = chunks::smaller(vector@.len() as int, plan.limit as int);
    lemma_vectors_alone(vector@, n);
    if vector@.len() <= plan.limit {
        assert(vector@.take(vector@.len() as int) =~= vector@);
    }
}

proof fn lemma_vectors_alone(vector: Seq<SearchResult>, n: int)
    requires
        0 <= n <= vector.len(),
        forall|i: int, j: int|
            0 <= i < j < vector.len() ==> (#[trigger] vector[i]).id != (#[trigger] vector[j]).id,
    ensures
        semantic::fused_results(fusion::as_fused(vector), vector, Seq::empty(), n) == vector.take(n),
    decreases n,
{
    let fused = fusion::as_fused(vector);
    if n > 0 {
        lemma_vectors_alone(vector, n - 1);
        semantic::law_last_result(vector, vector[n - 1].id, n - 1);
        let i = semantic::last_result(vector, vector[n - 1].id)->0;
        if i < n - 1 {
            assert(vector[i].id != vector[n - 1].id);
        } else if i > n - 1 {
            assert(vector[n - 1].id != vector[i].id);
        }
        assert(vector[n - 1].scored(vector[n - 1].score) == vector[n - 1]);
        assert(vector.take(n) =~= vector.take(n - 1).push(vector[n - 1]));
    } else {
        assert(vector.take(0) =~= Seq::empty());
    }
}

/// Boosting for language and kind loses and adds no chunk: where nothing is
/// filled up, a hybrid search brings exactly the chunks of its page, and a
/// lexical search exactly those of its own.
pub proof fn law_boosts_keep_the_page(found: Found, plan: SemanticPlan, is_multi: bool, id: u32)
    requires
        found.fits(plan, is_multi),
    ensures
        found matches Found::Both { hits, sums, language, raised, literal } ==> {
            let page = hybrid_page(hits, sums, plan.limit as int, is_multi);
            &&& chunks::has_result(page, id) ==> chunks::has_result(
                found_results(found, plan, is_multi),
                id,
            )
            &&& is_multi || page.len() >= 3 || plan.identifiers@.len() == 0 ==> (chunks::has_result(
                page,
                id,
            ) <==> chunks::has_result(found_results(found, plan, is_multi), id))
        },
        found matches Found::Lexical { fts, exact, stored, raised } ==> (chunks::has_result(
            lexical_page(fts@, exact@, stored@, plan.limit as int),
            id,
        ) <==> chunks::has_result(found_results(found, plan, is_multi), id)),
{
    match found {
        Found::Both { hits, sums, language, raised, literal } => {
            let page = hybrid_page(hits, sums, plan.limit as int, is_multi);
            lemma_page_len(hits, sums, plan.limit as int, is_multi);
            let own = after_language(page, language, is_multi);
            let order = law_language_boost(page, language, is_multi);
            if !is_multi && language is Some {
                lemma_same_ids(
                    page,
                    semantic::in_language(language->0.languages@, language->0.primary@),
                    language->0.raised@,
                    id,
                );
            }
            let kind = after_kind(own, plan.intent, raised@);
            let again = law_kind_boost(own, plan.intent, raised@);
            if plan.intent is Some {
                lemma_same_ids(own, semantic::of_kind(own, plan.intent->0), raised@, id);
            }
            law_filled_up(kind, literal@, plan, is_multi, 0);
            let all = after_fill(kind, literal@, plan, is_multi);
            if chunks::has_result(kind, id) {
                let k = choose|k: int| 0 <= k < kind.len() && (#[trigger] kind[k]).id == id;
                assert(all.take(kind.len() as int) == kind || all == kind);
                assert(kind[k] == all[k]) by {
                    if all != kind {
                        assert(all.take(kind.len() as int)[k] == all[k]);
                    }
                }
                assert(all[k].id == id);
            }
        },
        Found::Lexical { fts, exact, stored, raised } => {
            let page = lexical_page(fts@, exact@, stored@, plan.limit as int);
            let hits = lexical_list(fts@, exact@);
            lemma_hit_results_len(
                hits,
                stored@,
                chunks::smaller(hits.len() as int, plan.limit as int),
            );
            if plan.intent is Some {
                lemma_same_ids(page, semantic::of_kind(page, plan.intent->0), raised@, id);
            }
        },
        Found::Vectors { vector } => {},
    }
}

proof fn lemma_page_len(hits: HybridHits, sums: RankSums, limit: int, is_multi: bool)
    requires
        0 <= limit,
    ensures
        hybrid_page(hits, sums, limit, is_multi).len() <= limit,
{
    let fused = fused_hits(hits, sums);
    lemma_fused_results_len(
        fused,
        hits.vector@,
        if is_multi {
            hits.looked_up@
        } else {
            Seq::empty()
        },
        chunks::smaller(fused.len() as int, limit),
    );
}

proof fn lemma_same_ids(
    results: Seq<SearchResult>,
    places: Seq<bool>,
    raised: Seq<Score>,
    id: u32,
)
    requires
        results.len() <= usize::MAX,
        places.len() == results.len(),
        raised.len() == results.len(),
    ensures
        chunks::has_result(results, id) <==> chunks::has_result(
            semantic::boosted(results, places, raised),
            id,
        ),
{
    let order = semantic::law_boost(results, places, raised);
    let all = semantic::boosted(results, places, raised);
    if chunks::has_result(results, id) {
        let i = choose|i: int| 0 <= i < results.len() && (#[trigger] results[i]).id == id;
        assert(order.contains(i as usize));
        let a = choose|a: int| 0 <= a < order.len() && order[a] == i as usize;
        assert(order[a] as int == i);
        assert(all[a].id == id);
    }
    if chunks::has_result(all, id) {
        let a = choose|a: int| 0 <= a < all.len() && (#[trigger] all[a]).id == id;
        let i = order[a] as int;
        assert(results[i].id == id);
    }
}

/// A hybrid search without an index of texts has no text hits. Its exact hits are
/// the first of each chunk over the lists of all names, and every chunk of any
/// list is ranked.
pub proof fn law_lists_of_a_hybrid_search(h: HybridHits, i: int)
    ensures
        h.fts is None ==> h.fts_list().len() == 0,
        h.fts is Some ==> h.fts_list() == h.fts->0@,
        h.exact_list() == fusion::first_of_each(fusion::all_hits(h.exact@)),
        h.ids() == fusion::distinct_ids(
            fusion::hits_of_results(h.vector@) + h.fts_list() + h.exact_list(),
        ),
{
}

/// Results are filled up with literal hits only in one repository, for a query
/// with names, and where fewer than three were found.
pub proof fn law_when_results_are_filled_up(
    results: Seq<SearchResult>,
    literal: Seq<Candidate>,
    plan: SemanticPlan,
    found: usize,
    is_multi: bool,
    r: bool,
)
    requires
        call_ensures(fetches_literal, (found, &plan, is_multi), r),
    ensures
        r <==> !is_multi && found < 3 && plan.identifiers@.len() > 0,
        is_multi ==> after_fill(results, literal, plan, is_multi) == results,
        results.len() >= 3 ==> after_fill(results, literal, plan, is_multi) == results,
        plan.identifiers@.len() == 0 ==> after_fill(results, literal, plan, is_multi) == results,
        !is_multi && results.len() < 3 && plan.identifiers@.len() > 0 ==> after_fill(
            results,
            literal,
            plan,
            is_multi,
        ) == semantic::filled(results, literal, plan.limit as int, literal.len() as int),
{
}

} // verus!
