//! Fusing ranked lists: reciprocal rank fusion, merging of exact hits, and
//! merging of the answers of several stores.
//!
//! A fused score is a sum of reciprocals in floating point. The library says
//! which reciprocals belong to which chunk, and ranks the chunks by the sums.
use vstd::prelude::*;

use crate::score;
use crate::score::{rank, Score};
use crate::sorting;
use crate::text::{chars_of, same};
use crate::types::{FtsResult, SearchResult};

verus! {

/// The constant of the fusion, where nothing else is asked for.
pub const DEFAULT_RRF_K: u32 = 20;

/// The constant for exact hits; a lower one weighs more.
pub const EXACT_MATCH_RRF_K: u32 = 5;

impl FtsResult {
    /// The id of the chunk.
    pub fn chunk_id(&self) -> (r: u32)
        ensures
            r == self.chunk_id,
    {
        self.chunk_id
    }

    /// The relevance of the hit.
    pub fn score(&self) -> (r: Score)
        ensures
            r == self.score,
    {
        self.score
    }
}

impl SearchResult {
    /// The id of the chunk.
    pub fn chunk_id(&self) -> (r: u32)
        ensures
            r == self.id,
    {
        self.id
    }

    /// The relevance of the hit.
    pub fn score(&self) -> (r: Score)
        ensures
            r == self.score,
    {
        self.score
    }
}

// ---------------------------------------------------------------------------
// Reciprocal rank fusion
// ---------------------------------------------------------------------------

/// A ranked list that takes part in a fusion.
#[derive(Clone, Copy, PartialEq, Eq, Structural, Debug)]
pub enum Source {
    Vector,
    Fts,
    Exact,
}

/// A summand of a fused score: 1 / (k + rank), where `k` belongs to the list.
#[derive(Clone, Copy, PartialEq, Eq, Structural, Debug)]
pub struct Contribution {
    pub source: Source,
    /// The place in the list, counted from 1.
    pub rank: usize,
}

/// A chunk with what each list says of it.
#[derive(Debug)]
pub struct FusedEntry {
    pub chunk_id: u32,
    /// The summands of the fused score, in the order of summation.
    pub contributions: Vec<Contribution>,
    pub vector_score: Option<Score>,
    pub fts_score: Option<Score>,
    pub exact_score: Option<Score>,
    pub vector_rank: Option<usize>,
    pub fts_rank: Option<usize>,
    pub exact_rank: Option<usize>,
}

/// The summands that a list gives to a chunk: one for each place at which it
/// stands.
pub open spec fn ranks_in(list: Seq<FtsResult>, id: u32, source: Source) -> Seq<Contribution>
    decreases list.len(),
{
    if list.len() == 0 {
        Seq::empty()
    } else {
        let before = ranks_in(list.drop_last(), id, source);
        if list.last().chunk_id == id {
            before.push(Contribution { source, rank: list.len() as usize })
        } else {
            before
        }
    }
}

/// The last place at which a chunk stands in a list.
pub open spec fn last_place(list: Seq<FtsResult>, id: u32) -> Option<int>
    decreases list.len(),
{
    if list.len() == 0 {
        None
    } else if list.last().chunk_id == id {
        Some(list.len() - 1)
    } else {
        last_place(list.drop_last(), id)
    }
}

/// The score at the last place of a chunk.
pub open spec fn score_in(list: Seq<FtsResult>, id: u32) -> Option<Score> {
    match last_place(list, id) {
        Some(i) => Some(list[i].score),
        None => None,
    }
}

/// The last rank of a chunk, counted from 1.
pub open spec fn rank_in(list: Seq<FtsResult>, id: u32) -> Option<usize> {
    match last_place(list, id) {
        Some(i) => Some((i + 1) as usize),
        None => None,
    }
}

/// The chunks of a list, each at its first place.
pub open spec fn distinct_ids(list: Seq<FtsResult>) -> Seq<u32>
    decreases list.len(),
{
    if list.len() == 0 {
        Seq::empty()
    } else {
        let before = distinct_ids(list.drop_last());
        if before.contains(list.last().chunk_id) {
            before
        } else {
            before.push(list.last().chunk_id)
        }
    }
}

impl FusedEntry {
    /// The entry says of its chunk what the lists say.
    pub open spec fn is_of(
        &self,
        vector: Seq<FtsResult>,
        fts: Seq<FtsResult>,
        exact: Seq<FtsResult>,
    ) -> bool {
        &&& self.contributions@ == ranks_in(vector, self.chunk_id, Source::Vector) + ranks_in(
            fts,
            self.chunk_id,
            Source::Fts,
        ) + ranks_in(exact, self.chunk_id, Source::Exact)
        &&& self.vector_score == score_in(vector, self.chunk_id)
        &&& self.fts_score == score_in(fts, self.chunk_id)
        &&& self.exact_score == score_in(exact, self.chunk_id)
        &&& self.vector_rank == rank_in(vector, self.chunk_id)
        &&& self.fts_rank == rank_in(fts, self.chunk_id)
        &&& self.exact_rank == rank_in(exact, self.chunk_id)
    }
}

/// The ids of the entries.
pub open spec fn entry_ids(entries: Seq<FusedEntry>) -> Seq<u32> {
    entries.map_values(|e: FusedEntry| e.chunk_id)
}

fn push_ranks(out: &mut Vec<Contribution>, list: &Vec<FtsResult>, id: u32, source: Source) -> (r: (
    Option<Score>,
    Option<usize>,
))
    ensures
        final(out)@ == old(out)@ + ranks_in(list@, id, source),
        r.0 == score_in(list@, id),
        r.1 == rank_in(list@, id),
{
    let mut score: Option<Score> = None;
    let mut at: Option<usize> = None;
    let mut i: usize = 0;
    while i < list.len()
        invariant
            i <= list.len(),
            out@ == old(out)@ + ranks_in(list@.take(i as int), id, source),
            score == score_in(list@.take(i as int), id),
            at == rank_in(list@.take(i as int), id),
            last_place(list@.take(i as int), id) is Some ==> 0 <= last_place(
                list@.take(i as int),
                id,
            )->0 < i,
        decreases list.len() - i,
    {
        let ghost t = list@.take(i + 1);
        let ghost before = out@;
        proof {
            assert(t.drop_last() =~= list@.take(i as int));
            assert(t.last() == list@[i as int]);
        }
        if list[i].chunk_id == id {
            out.push(Contribution { source, rank: i + 1 });
            score = Some(list[i].score);
            at = Some(i + 1);
            proof {
                assert(out@ =~= old(out)@ + ranks_in(t, id, source));
            }
        }
        i += 1;
    }
    proof {
        assert(list@.take(list@.len() as int) =~= list@);
    }
    (score, at)
}

fn push_distinct(ids: &mut Vec<u32>, id: u32)
    ensures
        final(ids)@ == (if old(ids)@.contains(id) {
            old(ids)@
        } else {
            old(ids)@.push(id)
        }),
{
    let mut i: usize = 0;
    while i < ids.len()
        invariant
            i <= ids.len(),
            ids@ == old(ids)@,
            forall|j: int| 0 <= j < i ==> ids@[j] != id,
        decreases ids.len() - i,
    {
        if ids[i] == id {
            return;
        }
        i += 1;
    }
    ids.push(id);
}

fn push_ids(ids: &mut Vec<u32>, list: &Vec<FtsResult>, before: Ghost<Seq<FtsResult>>)
    requires
        old(ids)@ == distinct_ids(before@),
    ensures
        final(ids)@ == distinct_ids(before@ + list@),
{
    let mut i: usize = 0;
    proof {
        assert(before@ + list@.take(0) =~= before@);
    }
    while i < list.len()
        invariant
            i <= list.len(),
            ids@ == distinct_ids(before@ + list@.take(i as int)),
        decreases list.len() - i,
    {
        proof {
            let t = before@ + list@.take(i + 1);
            assert(t.drop_last() =~= before@ + list@.take(i as int));
            assert(t.last() == list@[i as int]);
        }
        push_distinct(ids, list[i].chunk_id);
        i += 1;
    }
    proof {
        assert(list@.take(list@.len() as int) =~= list@);
    }
}

/// What every list says of every chunk; the chunks stand in the order in which
/// the lists, one behind the other, first name them.
pub fn fuse_ranks(
    vector: &Vec<FtsResult>,
    fts: &Vec<FtsResult>,
    exact: &Vec<FtsResult>,
) -> (r: Vec<FusedEntry>)
    ensures
        entry_ids(r@) == distinct_ids(vector@ + fts@ + exact@),
        forall|i: int| 0 <= i < r@.len() ==> (#[trigger] r@[i]).is_of(vector@, fts@, exact@),
{
    let mut ids: Vec<u32> = Vec::new();
    proof {
        assert(Seq::<FtsResult>::empty() + vector@ =~= vector@);
    }
    push_ids(&mut ids, vector, Ghost(Seq::empty()));
    push_ids(&mut ids, fts, Ghost(vector@));
    push_ids(&mut ids, exact, Ghost(vector@ + fts@));
    let mut out: Vec<FusedEntry> = Vec::new();
    let mut i: usize = 0;
    while i < ids.len()
        invariant
            i <= ids.len(),
            out.len() == i,
            forall|j: int| 0 <= j < i ==> (#[trigger] out@[j]).chunk_id == ids@[j],
            forall|j: int| 0 <= j < i ==> (#[trigger] out@[j]).is_of(vector@, fts@, exact@),
        decreases ids.len() - i,
    {
        let id = ids[i];
        let mut contributions: Vec<Contribution> = Vec::new();
        let (vector_score, vector_rank) = push_ranks(&mut contributions, vector, id, Source::Vector);
        let (fts_score, fts_rank) = push_ranks(&mut contributions, fts, id, Source::Fts);
        let (exact_score, exact_rank) = push_ranks(&mut contributions, exact, id, Source::Exact);
        proof {
            assert(contributions@ =~= ranks_in(vector@, id, Source::Vector) + ranks_in(
                fts@,
                id,
                Source::Fts,
            ) + ranks_in(exact@, id, Source::Exact));
        }
        out.push(
            FusedEntry {
                chunk_id: id,
                contributions,
                vector_score,
                fts_score,
                exact_score,
                vector_rank,
                fts_rank,
                exact_rank,
            },
        );
        i += 1;
    }
    proof {
        assert(entry_ids(out@) =~= ids@);
    }
    out
}

/// A fused search result.
#[derive(Clone, Copy, PartialEq, Eq, Structural, Debug)]
pub struct FusedResult {
    pub chunk_id: u32,
    /// The fused score.
    pub rrf_score: Score,
    pub vector_score: Option<Score>,
    /// The score of the full-text search, of the exact hits, or of both.
    pub fts_score: Option<Score>,
    /// The place among the vector results, counted from 1.
    pub vector_rank: Option<usize>,
    /// The place among the full-text results, or else among the exact hits.
    pub fts_rank: Option<usize>,
}

/// The score that the full-text search and the exact hits give a chunk: the
/// mean of both where it has both, else the one that it has.
pub open spec fn text_score(fts: Option<Score>, exact: Option<Score>, mean: Score) -> Option<
    Score,
> {
    match (fts, exact) {
        (Some(_), Some(_)) => Some(mean),
        (Some(f), None) => Some(f),
        (None, e) => e,
    }
}

/// The score that the full-text search and the exact hits give a chunk; `mean`
/// is the mean of both, which counts only where the chunk has both.
pub fn combined_score(fts: Option<Score>, exact: Option<Score>, mean: Score) -> (r: Option<Score>)
    ensures
        r == text_score(fts, exact, mean),
{
    match (fts, exact) {
        (Some(_), Some(_)) => Some(mean),
        (Some(f), None) => Some(f),
        (None, e) => e,
    }
}

/// The result of an entry with its fused score and the mean of its text scores.
pub open spec fn fused_of(e: FusedEntry, rrf: Score, mean: Score) -> FusedResult {
    FusedResult {
        chunk_id: e.chunk_id,
        rrf_score: rrf,
        vector_score: e.vector_score,
        fts_score: text_score(e.fts_score, e.exact_score, mean),
        vector_rank: e.vector_rank,
        fts_rank: if e.fts_rank is Some {
            e.fts_rank
        } else {
            e.exact_rank
        },
    }
}

/// The results of the entries, from the highest fused score down.
pub open spec fn ranked(
    entries: Seq<FusedEntry>,
    scores: Seq<Score>,
    means: Seq<Score>,
) -> Seq<FusedResult> {
    score::ranking(scores).map_values(
        |k: usize| fused_of(entries[k as int], scores[k as int], means[k as int]),
    )
}

/// Ranks the entries by their fused scores, from the highest down.
///
/// `scores` holds the sums of the contributions, `means` the means of the scores
/// of the full-text search and of the exact hits.
pub fn rank_fused(
    entries: &Vec<FusedEntry>,
    scores: &Vec<Score>,
    means: &Vec<Score>,
) -> (r: Vec<FusedResult>)
    requires
        scores@.len() == entries@.len(),
        means@.len() == entries@.len(),
        score::all_numbers(scores@),
    ensures
        r@ == ranked(entries@, scores@, means@),
{
    let order = rank(scores);
    let ghost all = order@.map_values(
        |k: usize| fused_of(entries@[k as int], scores@[k as int], means@[k as int]),
    );
    let mut out: Vec<FusedResult> = Vec::new();
    let mut i: usize = 0;
    while i < order.len()
        invariant
            i <= order.len(),
            scores@.len() == entries@.len(),
            means@.len() == entries@.len(),
            sorting::is_sorting(scores@, order@),
            all == order@.map_values(
                |k: usize| fused_of(entries@[k as int], scores@[k as int], means@[k as int]),
            ),
            out@ == all.take(i as int),
        decreases order.len() - i,
    {
        let k = order[i];
        assert(order@[i as int] < scores@.len());
        let e = &entries[k];
        let fts_rank = match e.fts_rank {
            Some(x) => Some(x),
            None => e.exact_rank,
        };
        out.push(
            FusedResult {
                chunk_id: e.chunk_id,
                rrf_score: scores[k],
                vector_score: e.vector_score,
                fts_score: combined_score(e.fts_score, e.exact_score, means[k]),
                vector_rank: e.vector_rank,
                fts_rank,
            },
        );
        i += 1;
    }
    proof {
        assert(all.take(all.len() as int) =~= all);
    }
    out
}

/// What the lists say of a chunk, with its fused score and the mean of its text
/// scores.
pub open spec fn fused_for(
    vector: Seq<FtsResult>,
    fts: Seq<FtsResult>,
    exact: Seq<FtsResult>,
    id: u32,
    rrf: Score,
    mean: Score,
) -> FusedResult {
    FusedResult {
        chunk_id: id,
        rrf_score: rrf,
        vector_score: score_in(vector, id),
        fts_score: text_score(score_in(fts, id), score_in(exact, id), mean),
        vector_rank: rank_in(vector, id),
        fts_rank: if rank_in(fts, id) is Some {
            rank_in(fts, id)
        } else {
            rank_in(exact, id)
        },
    }
}

/// The fused hits of three lists, from the highest fused score down. The scores
/// belong, place by place, to the chunks in the order in which the lists first
/// name them.
pub open spec fn fused_list(
    vector: Seq<FtsResult>,
    fts: Seq<FtsResult>,
    exact: Seq<FtsResult>,
    scores: Seq<Score>,
    means: Seq<Score>,
) -> Seq<FusedResult> {
    score::ranking(scores).map_values(
        |k: usize|
            fused_for(
                vector,
                fts,
                exact,
                distinct_ids(vector + fts + exact)[k as int],
                scores[k as int],
                means[k as int],
            ),
    )
}

/// Ranking the entries of three lists gives the fused hits of the lists.
pub proof fn lemma_ranked_lists(
    entries: Seq<FusedEntry>,
    vector: Seq<FtsResult>,
    fts: Seq<FtsResult>,
    exact: Seq<FtsResult>,
    scores: Seq<Score>,
    means: Seq<Score>,
)
    requires
        entry_ids(entries) == distinct_ids(vector + fts + exact),
        forall|i: int| 0 <= i < entries.len() ==> (#[trigger] entries[i]).is_of(vector, fts, exact),
        scores.len() == entries.len(),
        scores.len() <= usize::MAX,
    ensures
        ranked(entries, scores, means) == fused_list(vector, fts, exact, scores, means),
{
    sorting::lemma_sorting_exists(scores);
    let order = score::ranking(scores);
    let a = ranked(entries, scores, means);
    let b = fused_list(vector, fts, exact, scores, means);
    assert forall|i: int| 0 <= i < a.len() implies a[i] == b[i] by {
        assert(0 <= order[i] < scores.len());
        let k = order[i] as int;
        assert(entries[k].is_of(vector, fts, exact));
        assert(entry_ids(entries)[k] == entries[k].chunk_id);
    }
    assert(a =~= b);
}

/// Vector results as fused hits, with their own scores for fused ones.
pub open spec fn as_fused(results: Seq<SearchResult>) -> Seq<FusedResult> {
    Seq::new(
        results.len(),
        |i: int|
            FusedResult {
                chunk_id: results[i].id,
                rrf_score: results[i].score,
                vector_score: Some(results[i].score),
                fts_score: None,
                vector_rank: Some((i + 1) as usize),
                fts_rank: None,
            },
    )
}

/// The vector results as they are, with their own scores for fused ones.
pub fn vector_only(vector_results: &Vec<SearchResult>) -> (r: Vec<FusedResult>)
    ensures
        r@ == as_fused(vector_results@),
{
    let mut out: Vec<FusedResult> = Vec::new();
    let mut i: usize = 0;
    while i < vector_results.len()
        invariant
            i <= vector_results.len(),
            out.len() == i,
            forall|j: int|
                0 <= j < i ==> #[trigger] out@[j] == (FusedResult {
                    chunk_id: vector_results@[j].id,
                    rrf_score: vector_results@[j].score,
                    vector_score: Some(vector_results@[j].score),
                    fts_score: None,
                    vector_rank: Some((j + 1) as usize),
                    fts_rank: None,
                }),
        decreases vector_results.len() - i,
    {
        out.push(
            FusedResult {
                chunk_id: vector_results[i].id,
                rrf_score: vector_results[i].score,
                vector_score: Some(vector_results[i].score),
                fts_score: None,
                vector_rank: Some(i + 1),
                fts_rank: None,
            },
        );
        i += 1;
    }
    out
}

/// The ids and scores of vector results.
pub open spec fn hits_of_results(results: Seq<SearchResult>) -> Seq<FtsResult> {
    results.map_values(|s: SearchResult| FtsResult { chunk_id: s.id, score: s.score })
}

/// The ids and scores of vector results.
pub fn vector_hits(results: &Vec<SearchResult>) -> (r: Vec<FtsResult>)
    ensures
        r@ == hits_of_results(results@),
{
    let mut out: Vec<FtsResult> = Vec::new();
    let mut i: usize = 0;
    while i < results.len()
        invariant
            i <= results.len(),
            out.len() == i,
            forall|j: int|
                0 <= j < i ==> #[trigger] out@[j] == (FtsResult {
                    chunk_id: results@[j].id,
                    score: results@[j].score,
                }),
        decreases results.len() - i,
    {
        out.push(FtsResult { chunk_id: results[i].id, score: results[i].score });
        i += 1;
    }
    proof {
        assert(out@ =~= hits_of_results(results@));
    }
    out
}

// ---------------------------------------------------------------------------
// Merging exact hits
// ---------------------------------------------------------------------------

/// A list with one more hit: a chunk that is there keeps its place and the
/// higher score; a new one goes to the end.
pub open spec fn merged_one(list: Seq<FtsResult>, hit: FtsResult) -> Seq<FtsResult> {
    match last_place(list, hit.chunk_id) {
        Some(i) => list.update(
            i,
            FtsResult { chunk_id: list[i].chunk_id, score: list[i].score.spec_max(hit.score) },
        ),
        None => list.push(hit),
    }
}

/// A list with more hits, one after the other.
pub open spec fn merged(list: Seq<FtsResult>, hits: Seq<FtsResult>) -> Seq<FtsResult>
    decreases hits.len(),
{
    if hits.len() == 0 {
        list
    } else {
        merged_one(merged(list, hits.drop_last()), hits.last())
    }
}

fn find_last(list: &Vec<FtsResult>, id: u32) -> (r: Option<usize>)
    ensures
        match r {
            Some(i) => last_place(list@, id) == Some(i as int) && i < list.len()
                && list@[i as int].chunk_id == id,
            None => last_place(list@, id) is None,
        },
{
    let mut n: usize = list.len();
    proof {
        assert(list@.take(list@.len() as int) =~= list@);
    }
    while n > 0
        invariant
            n <= list.len(),
            last_place(list@, id) == last_place(list@.take(n as int), id),
        decreases n,
    {
        proof {
            assert(list@.take(n as int).drop_last() =~= list@.take(n - 1));
            assert(list@.take(n as int).last() == list@[n - 1]);
        }
        if list[n - 1].chunk_id == id {
            return Some(n - 1);
        }
        n -= 1;
    }
    None
}

/// Merges hits into a list of hits. A chunk that is there keeps its place and
/// gets the higher score; a new one goes to the end.
pub fn merge_hits(list: &mut Vec<FtsResult>, hits: &Vec<FtsResult>)
    ensures
        final(list)@ == merged(old(list)@, hits@),
{
    let mut i: usize = 0;
    while i < hits.len()
        invariant
            i <= hits.len(),
            list@ == merged(old(list)@, hits@.take(i as int)),
        decreases hits.len() - i,
    {
        let hit = hits[i];
        proof {
            assert(hits@.take(i + 1).drop_last() =~= hits@.take(i as int));
            assert(hits@.take(i + 1).last() == hit);
        }
        match find_last(list, hit.chunk_id) {
            Some(k) => {
                let old_hit = list[k];
                list.set(
                    k,
                    FtsResult { chunk_id: old_hit.chunk_id, score: old_hit.score.max(hit.score) },
                );
            },
            None => {
                list.push(hit);
            },
        }
        i += 1;
    }
    proof {
        assert(hits@.take(hits@.len() as int) =~= hits@);
    }
}

/// Merges exact hits into the hits of a full-text search.
pub fn merge_exact_into_fts(fts_results: &mut Vec<FtsResult>, exact: Vec<FtsResult>)
    ensures
        final(fts_results)@ == merged(old(fts_results)@, exact@),
{
    merge_hits(fts_results, &exact);
}

/// A chunk stands in the list.
pub open spec fn has_id(list: Seq<FtsResult>, id: u32) -> bool {
    exists|i: int| 0 <= i < list.len() && (#[trigger] list[i]).chunk_id == id
}

/// No chunk stands twice in the list.
pub open spec fn distinct(list: Seq<FtsResult>) -> bool {
    forall|i: int, j: int|
        0 <= i < j < list.len() ==> (#[trigger] list[i]).chunk_id != (#[trigger] list[j]).chunk_id
}

/// The last place of a chunk is one of its places.
pub proof fn lemma_last_place(list: Seq<FtsResult>, id: u32)
    ensures
        last_place(list, id) is Some == has_id(list, id),
        match last_place(list, id) {
            Some(i) => 0 <= i < list.len() && list[i].chunk_id == id,
            None => true,
        },
    decreases list.len(),
{
    if list.len() > 0 {
        lemma_last_place(list.drop_last(), id);
        if has_id(list, id) && list.last().chunk_id != id {
            let i = choose|i: int| 0 <= i < list.len() && (#[trigger] list[i]).chunk_id == id;
            assert(list.drop_last()[i].chunk_id == id);
        }
        if last_place(list.drop_last(), id) is Some {
            let i = last_place(list.drop_last(), id)->0;
            assert(list[i].chunk_id == id);
        }
        if list.last().chunk_id == id {
            assert(list[list.len() - 1].chunk_id == id);
        }
    }
}

/// Merging keeps the chunks of the base in place, brings every chunk of the
/// exact hits in, and makes nothing stand twice.
pub proof fn law_merge_is_union(list: Seq<FtsResult>, hits: Seq<FtsResult>, id: u32)
    ensures
        has_id(merged(list, hits), id) == (has_id(list, id) || has_id(hits, id)),
        distinct(list) ==> distinct(merged(list, hits)),
        merged(list, hits).len() >= list.len(),
        forall|i: int|
            0 <= i < list.len() ==> (#[trigger] merged(list, hits)[i]).chunk_id
                == list[i].chunk_id,
    decreases hits.len(),
{
    if hits.len() > 0 {
        let before = merged(list, hits.drop_last());
        let hit = hits.last();
        let after = merged(list, hits);
        law_merge_is_union(list, hits.drop_last(), id);
        lemma_last_place(before, hit.chunk_id);
        if has_id(hits, id) && hit.chunk_id != id {
            let i = choose|i: int| 0 <= i < hits.len() && (#[trigger] hits[i]).chunk_id == id;
            assert(hits.drop_last()[i].chunk_id == id);
        }
        if has_id(hits.drop_last(), id) {
            let i = choose|i: int|
                0 <= i < hits.drop_last().len() && (#[trigger] hits.drop_last()[i]).chunk_id == id;
            assert(hits[i].chunk_id == id);
        }
        if hit.chunk_id == id {
            assert(hits[hits.len() - 1].chunk_id == id);
            if last_place(before, id) is None {
                assert(after[before.len() as int].chunk_id == id);
            } else {
                assert(after[last_place(before, id)->0].chunk_id == id);
            }
        }
        if has_id(before, id) {
            let i = choose|i: int| 0 <= i < before.len() && (#[trigger] before[i]).chunk_id == id;
            assert(after[i].chunk_id == id);
        }
        if has_id(after, id) {
            let i = choose|i: int| 0 <= i < after.len() && (#[trigger] after[i]).chunk_id == id;
            if i < before.len() {
                assert(before[i].chunk_id == id);
            } else {
                assert(hit.chunk_id == id);
            }
        }
        assert forall|i: int| 0 <= i < list.len() implies (#[trigger] after[i]).chunk_id
            == list[i].chunk_id by {
            assert(before[i].chunk_id == list[i].chunk_id);
        }
    }
}

/// The hits of several lists, of each chunk the first.
pub open spec fn first_of_each(hits: Seq<FtsResult>) -> Seq<FtsResult>
    decreases hits.len(),
{
    if hits.len() == 0 {
        Seq::empty()
    } else {
        let before = first_of_each(hits.drop_last());
        if last_place(before, hits.last().chunk_id) is Some {
            before
        } else {
            before.push(hits.last())
        }
    }
}

/// The lists one behind the other.
pub open spec fn all_hits(lists: Seq<Vec<FtsResult>>) -> Seq<FtsResult>
    decreases lists.len(),
{
    if lists.len() == 0 {
        Seq::empty()
    } else {
        all_hits(lists.drop_last()) + lists.last()@
    }
}

/// The exact hits of several identifiers, of each chunk the first.
pub fn collect_exact(lists: &Vec<Vec<FtsResult>>) -> (r: Vec<FtsResult>)
    ensures
        r@ == first_of_each(all_hits(lists@)),
{
    let mut out: Vec<FtsResult> = Vec::new();
    let mut k: usize = 0;
    proof {
        assert(all_hits(lists@.take(0)) =~= Seq::empty());
    }
    while k < lists.len()
        invariant
            k <= lists.len(),
            out@ == first_of_each(all_hits(lists@.take(k as int))),
        decreases lists.len() - k,
    {
        let list = &lists[k];
        let ghost base = all_hits(lists@.take(k as int));
        proof {
            assert(lists@.take(k + 1).drop_last() =~= lists@.take(k as int));
            assert(lists@.take(k + 1).last() == *list);
            assert(base + list@.take(0) =~= base);
        }
        let mut i: usize = 0;
        while i < list.len()
            invariant
                i <= list.len(),
                out@ == first_of_each(base + list@.take(i as int)),
            decreases list.len() - i,
        {
            proof {
                let t = base + list@.take(i + 1);
                assert(t.drop_last() =~= base + list@.take(i as int));
                assert(t.last() == list@[i as int]);
            }
            match find_last(&out, list[i].chunk_id) {
                Some(p) => {},
                None => {
                    out.push(list[i]);
                },
            }
            i += 1;
        }
        proof {
            assert(list@.take(list@.len() as int) =~= list@);
        }
        k += 1;
    }
    proof {
        assert(lists@.take(lists@.len() as int) =~= lists@);
    }
    out
}

// ---------------------------------------------------------------------------
// Merging the answers of several stores
// ---------------------------------------------------------------------------

/// A hit of one of several stores.
#[derive(Debug)]
pub struct StoreHit {
    /// The repository of the store.
    pub alias: String,
    pub chunk_id: u32,
    pub score: Score,
}

/// Both hits are of the same chunk of the same repository.
pub open spec fn same_chunk(a: StoreHit, b: StoreHit) -> bool {
    a.alias@ == b.alias@ && a.chunk_id == b.chunk_id
}

/// The place among the kept hits at which the chunk of a hit stands, from the
/// `i`th on.
pub open spec fn kept_place(hits: Seq<StoreHit>, kept: Seq<usize>, hit: StoreHit, i: int) -> Option<
    int,
>
    decreases kept.len() - i,
{
    if i < 0 || i >= kept.len() {
        None
    } else if same_chunk(hits[kept[i] as int], hit) {
        Some(i)
    } else {
        kept_place(hits, kept, hit, i + 1)
    }
}

/// The hits that are kept of the first `n`: of each chunk the one with the
/// highest score, at the place of the first.
pub open spec fn kept_of(hits: Seq<StoreHit>, n: int) -> Seq<usize>
    decreases n,
{
    if n <= 0 {
        Seq::empty()
    } else {
        let before = kept_of(hits, n - 1);
        let hit = hits[n - 1];
        match kept_place(hits, before, hit, 0) {
            Some(i) => if hits[before[i] as int].score.lt(hit.score) {
                before.update(i, (n - 1) as usize)
            } else {
                before
            },
            None => before.push((n - 1) as usize),
        }
    }
}

/// The scores of the kept hits.
pub open spec fn kept_scores(hits: Seq<StoreHit>, kept: Seq<usize>) -> Seq<Score> {
    kept.map_values(|k: usize| hits[k as int].score)
}

/// The kept hits from the highest score down.
pub open spec fn merge_order(hits: Seq<StoreHit>) -> Seq<usize> {
    let kept = kept_of(hits, hits.len() as int);
    score::ranking(kept_scores(hits, kept)).map_values(|a: usize| kept[a as int])
}

/// All scores are numbers.
pub open spec fn hits_ok(hits: Seq<StoreHit>) -> bool {
    forall|i: int| 0 <= i < hits.len() ==> !(#[trigger] hits[i]).score.is_nan()
}

fn find_kept(hits: &Vec<StoreHit>, kept: &Vec<usize>, n: usize) -> (r: Option<usize>)
    requires
        n < hits.len(),
        forall|a: int| 0 <= a < kept@.len() ==> (#[trigger] kept@[a]) < hits.len(),
    ensures
        match r {
            Some(i) => kept_place(hits@, kept@, hits@[n as int], 0) == Some(i as int) && i
                < kept.len(),
            None => kept_place(hits@, kept@, hits@[n as int], 0) is None,
        },
{
    let hit = &hits[n];
    let alias = chars_of(hit.alias.as_str());
    let mut i: usize = 0;
    while i < kept.len()
        invariant
            i <= kept.len(),
            n < hits.len(),
            hit == &hits@[n as int],
            alias@ == hit.alias@,
            forall|a: int| 0 <= a < kept@.len() ==> (#[trigger] kept@[a]) < hits.len(),
            kept_place(hits@, kept@, hits@[n as int], 0) == kept_place(
                hits@,
                kept@,
                hits@[n as int],
                i as int,
            ),
        decreases kept.len() - i,
    {
        let k = kept[i];
        assert(kept@[i as int] < hits.len());
        if hits[k].chunk_id == hit.chunk_id && same(
            chars_of(hits[k].alias.as_str()).as_slice(),
            alias.as_slice(),
        ) {
            return Some(i);
        }
        i += 1;
    }
    None
}

/// Merges the hits of several stores, given one behind the other: of each chunk
/// of a repository the hit with the highest score is kept, and the kept hits
/// stand from the highest score down. The result lists their places.
pub fn merge_store_hits(hits: &Vec<StoreHit>) -> (r: Vec<usize>)
    requires
        hits_ok(hits@),
    ensures
        r@ == merge_order(hits@),
        forall|a: int| 0 <= a < r@.len() ==> (#[trigger] r@[a]) < hits@.len(),
{
    let mut kept: Vec<usize> = Vec::new();
    let mut n: usize = 0;
    while n < hits.len()
        invariant
            n <= hits.len(),
            kept@ == kept_of(hits@, n as int),
            forall|a: int| 0 <= a < kept@.len() ==> (#[trigger] kept@[a]) < n,
        decreases hits.len() - n,
    {
        match find_kept(hits, &kept, n) {
            Some(i) => {
                if hits[kept[i]].score.less(hits[n].score) {
                    kept.set(i, n);
                }
            },
            None => {
                kept.push(n);
            },
        }
        n += 1;
    }
    let mut scores: Vec<Score> = Vec::new();
    let mut i: usize = 0;
    while i < kept.len()
        invariant
            i <= kept.len(),
            hits_ok(hits@),
            forall|a: int| 0 <= a < kept@.len() ==> (#[trigger] kept@[a]) < hits.len(),
            scores@ == kept_scores(hits@, kept@).take(i as int),
            score::all_numbers(scores@),
        decreases kept.len() - i,
    {
        let k = kept[i];
        assert(kept@[i as int] < hits.len());
        assert(!hits@[k as int].score.is_nan());
        scores.push(hits[k].score);
        i += 1;
    }
    proof {
        assert(scores@ =~= kept_scores(hits@, kept@));
    }
    let order = rank(&scores);
    let ghost all = merge_order(hits@);
    let mut out: Vec<usize> = Vec::new();
    let mut a: usize = 0;
    while a < order.len()
        invariant
            a <= order.len(),
            kept@ == kept_of(hits@, hits@.len() as int),
            scores@ == kept_scores(hits@, kept@),
            sorting::is_sorting(scores@, order@),
            order@ == score::ranking(scores@),
            all == merge_order(hits@),
            out@ == all.take(a as int),
            forall|x: int| 0 <= x < kept@.len() ==> (#[trigger] kept@[x]) < hits.len(),
            forall|x: int| 0 <= x < out@.len() ==> (#[trigger] out@[x]) < hits.len(),
        decreases order.len() - a,
    {
        let p = order[a];
        assert(order@[a as int] < scores@.len());
        out.push(kept[p]);
        a += 1;
    }
    proof {
        assert(all.take(all.len() as int) =~= all);
    }
    out
}

// ---------------------------------------------------------------------------
// Laws
// ---------------------------------------------------------------------------

/// A list in which no chunk stands twice gives a chunk one summand where it
/// holds the chunk, at the rank of the chunk, and none where it does not.
pub proof fn law_one_summand_per_list(list: Seq<FtsResult>, id: u32, source: Source)
    requires
        distinct(list),
        list.len() <= usize::MAX,
    ensures
        ranks_in(list, id, source) == (match rank_in(list, id) {
            Some(rank) => seq![Contribution { source, rank }],
            None => Seq::empty(),
        }),
        rank_in(list, id) is Some == has_id(list, id),
    decreases list.len(),
{
    lemma_last_place(list, id);
    if list.len() > 0 {
        let front = list.drop_last();
        assert(distinct(front)) by {
            assert forall|i: int, j: int| 0 <= i < j < front.len() implies (
            #[trigger] front[i]).chunk_id != (#[trigger] front[j]).chunk_id by {
                assert(list[i].chunk_id != list[j].chunk_id);
            }
        }
        law_one_summand_per_list(front, id, source);
        lemma_last_place(front, id);
        if list.last().chunk_id == id {
            if has_id(front, id) {
                let i = choose|i: int|
                    0 <= i < front.len() && (#[trigger] front[i]).chunk_id == id;
                assert(list[i].chunk_id != list[list.len() - 1].chunk_id);
            }
            assert(ranks_in(list, id, source) =~= seq![
                Contribution { source, rank: list.len() as usize },
            ]);
        }
    }
}

proof fn lemma_kept_place(hits: Seq<StoreHit>, kept: Seq<usize>, hit: StoreHit, i: int)
    requires
        0 <= i <= kept.len(),
    ensures
        match kept_place(hits, kept, hit, i) {
            Some(p) => i <= p < kept.len() && same_chunk(hits[kept[p] as int], hit),
            None => forall|j: int|
                i <= j < kept.len() ==> !same_chunk(hits[#[trigger] kept[j] as int], hit),
        },
    decreases kept.len() - i,
{
    if i < kept.len() && !same_chunk(hits[kept[i] as int], hit) {
        lemma_kept_place(hits, kept, hit, i + 1);
    }
}

/// A kept hit is of the chunk of hit `i`, and its score is no lower.
pub open spec fn stands_for(hits: Seq<StoreHit>, kept: Seq<usize>, a: int, i: int) -> bool {
    0 <= a < kept.len() && same_chunk(hits[kept[a] as int], hits[i]) && hits[i].score.key()
        <= hits[kept[a] as int].score.key()
}

/// Some kept hit stands for hit `i`.
pub open spec fn represented(hits: Seq<StoreHit>, kept: Seq<usize>, i: int) -> bool {
    exists|a: int| stands_for(hits, kept, a, i)
}

proof fn lemma_kept(hits: Seq<StoreHit>, n: int)
    requires
        0 <= n <= hits.len(),
        hits.len() <= usize::MAX,
        hits_ok(hits),
    ensures
        forall|a: int| 0 <= a < kept_of(hits, n).len() ==> (#[trigger] kept_of(hits, n)[a]) < n,
        forall|a: int, b: int|
            0 <= a < b < kept_of(hits, n).len() ==> !same_chunk(
                hits[#[trigger] kept_of(hits, n)[a] as int],
                hits[#[trigger] kept_of(hits, n)[b] as int],
            ),
        forall|i: int| 0 <= i < n ==> #[trigger] represented(hits, kept_of(hits, n), i),
    decreases n,
{
    if n > 0 {
        lemma_kept(hits, n - 1);
        let before = kept_of(hits, n - 1);
        let after = kept_of(hits, n);
        let hit = hits[n - 1];
        lemma_kept_place(hits, before, hit, 0);
        match kept_place(hits, before, hit, 0) {
            Some(p) => {
                assert forall|a: int, b: int| 0 <= a < b < after.len() implies !same_chunk(
                    hits[#[trigger] after[a] as int],
                    hits[#[trigger] after[b] as int],
                ) by {
                    assert(!same_chunk(hits[before[a] as int], hits[before[b] as int]));
                }
                assert forall|i: int| 0 <= i < n implies #[trigger] represented(hits, after, i) by {
                    if i < n - 1 {
                        assert(represented(hits, before, i));
                        let a = choose|a: int| stands_for(hits, before, a, i);
                        assert(stands_for(hits, after, a, i));
                    } else {
                        assert(stands_for(hits, after, p, i));
                    }
                }
            },
            None => {
                assert forall|a: int, b: int| 0 <= a < b < after.len() implies !same_chunk(
                    hits[#[trigger] after[a] as int],
                    hits[#[trigger] after[b] as int],
                ) by {
                    if b < before.len() {
                        assert(!same_chunk(hits[before[a] as int], hits[before[b] as int]));
                    } else {
                        assert(!same_chunk(hits[before[a] as int], hit));
                    }
                }
                assert forall|i: int| 0 <= i < n implies #[trigger] represented(hits, after, i) by {
                    if i < n - 1 {
                        assert(represented(hits, before, i));
                        let a = choose|a: int| stands_for(hits, before, a, i);
                        assert(stands_for(hits, after, a, i));
                    } else {
                        assert(stands_for(hits, after, before.len() as int, i));
                    }
                }
            },
        }
    }
}

/// Merging the answers of several stores keeps each chunk of each repository
/// once, with its highest score, and puts the higher scores first.
pub proof fn law_store_merge(hits: Seq<StoreHit>)
    requires
        hits_ok(hits),
        hits.len() <= usize::MAX,
    ensures
        forall|a: int, b: int|
            0 <= a < b < merge_order(hits).len() ==> {
                let x = hits[#[trigger] merge_order(hits)[a] as int];
                let y = hits[#[trigger] merge_order(hits)[b] as int];
                !same_chunk(x, y) && y.score.key() <= x.score.key()
            },
        forall|i: int| 0 <= i < hits.len() ==> #[trigger] represented(hits, merge_order(hits), i),
{
    let n = hits.len() as int;
    lemma_kept(hits, n);
    let kept = kept_of(hits, n);
    let scores = kept_scores(hits, kept);
    assert forall|i: int| 0 <= i < scores.len() implies !(#[trigger] scores[i]).is_nan() by {
        assert(kept[i] < n);
    }
    lemma_kept_len(hits, n);
    sorting::lemma_sorting_exists(scores);
    let order = score::ranking(scores);
    assert(sorting::is_sorting(scores, order));
    sorting::lemma_sorting_covers(scores, order);
    let merged = merge_order(hits);
    assert forall|a: int, b: int| 0 <= a < b < merged.len() implies ({
        let x = hits[#[trigger] merged[a] as int];
        let y = hits[#[trigger] merged[b] as int];
        !same_chunk(x, y) && y.score.key() <= x.score.key()
    }) by {
        assert(sorting::comes_before(scores, order[a] as int, order[b] as int));
        let p = order[a] as int;
        let q = order[b] as int;
        assert(0 <= p < kept.len() && 0 <= q < kept.len() && p != q);
        if p < q {
            assert(!same_chunk(hits[kept[p] as int], hits[kept[q] as int]));
        } else {
            assert(!same_chunk(hits[kept[q] as int], hits[kept[p] as int]));
        }
    }
    assert forall|i: int| 0 <= i < hits.len() implies #[trigger] represented(hits, merged, i) by {
        assert(represented(hits, kept, i));
        let a = choose|a: int| stands_for(hits, kept, a, i);
        assert(sorting::lists(order, a));
        let c = choose|c: int| 0 <= c < order.len() && order[c] == a;
        assert(stands_for(hits, merged, c, i));
    }
}

proof fn lemma_kept_len(hits: Seq<StoreHit>, n: int)
    requires
        0 <= n <= hits.len(),
    ensures
        kept_of(hits, n).len() <= n,
    decreases n,
{
    if n > 0 {
        lemma_kept_len(hits, n - 1);
        lemma_kept_place(hits, kept_of(hits, n - 1), hits[n - 1], 0);
    }
}

/// Fused lists hold every chunk that one of the lists holds, each once.
pub proof fn law_fusion_is_union(list: Seq<FtsResult>, id: u32)
    ensures
        distinct_ids(list).no_duplicates(),
        distinct_ids(list).contains(id) <==> has_id(list, id),
    decreases list.len(),
{
    if list.len() > 0 {
        let front = list.drop_last();
        let last = list.last().chunk_id;
        law_fusion_is_union(front, id);
        let before = distinct_ids(front);
        let all = distinct_ids(list);
        if has_id(front, id) {
            let i = choose|i: int| 0 <= i < front.len() && (#[trigger] front[i]).chunk_id == id;
            assert(list[i].chunk_id == id);
        }
        if has_id(list, id) && id != last {
            let i = choose|i: int| 0 <= i < list.len() && (#[trigger] list[i]).chunk_id == id;
            assert(front[i].chunk_id == id);
        }
        assert(list[list.len() - 1].chunk_id == last);
        if !before.contains(last) {
            assert(all[before.len() as int] == last);
            assert forall|i: int, j: int| 0 <= i < all.len() && 0 <= j < all.len() && i
                != j implies all[i] != all[j] by {
                if i < before.len() && j < before.len() {
                    assert(before[i] != before[j]);
                } else if i < before.len() {
                    assert(before.contains(before[i]));
                } else {
                    assert(before.contains(before[j]));
                }
            }
            if before.contains(id) {
                let i = choose|i: int| 0 <= i < before.len() && before[i] == id;
                assert(all[i] == id);
            }
            if all.contains(id) && id != last {
                let i = choose|i: int| 0 <= i < all.len() && all[i] == id;
                assert(before[i] == id);
            }
        }
    }
}

/// Ranking puts the higher fused scores first, and brings every entry once.
pub proof fn law_ranking_keeps_entries(
    entries: Seq<FusedEntry>,
    scores: Seq<Score>,
    means: Seq<Score>,
)
    requires
        scores.len() == entries.len(),
        means.len() == entries.len(),
        entries.len() <= usize::MAX,
        entry_ids(entries).no_duplicates(),
    ensures
        ranked(entries, scores, means).len() == entries.len(),
        forall|a: int, b: int|
            0 <= a < b < entries.len() ==> {
                let x = #[trigger] ranked(entries, scores, means)[a];
                let y = #[trigger] ranked(entries, scores, means)[b];
                x.chunk_id != y.chunk_id && y.rrf_score.key() <= x.rrf_score.key()
            },
        forall|i: int|
            0 <= i < entries.len() ==> ranked(entries, scores, means).contains(
                fused_of(#[trigger] entries[i], scores[i], means[i]),
            ),
{
    sorting::lemma_sorting_exists(scores);
    let order = score::ranking(scores);
    assert(sorting::is_sorting(scores, order));
    sorting::lemma_sorting_covers(scores, order);
    let all = ranked(entries, scores, means);
    let ids = entry_ids(entries);
    assert forall|a: int, b: int| 0 <= a < b < entries.len() implies ({
        let x = #[trigger] all[a];
        let y = #[trigger] all[b];
        x.chunk_id != y.chunk_id && y.rrf_score.key() <= x.rrf_score.key()
    }) by {
        let p = order[a] as int;
        let q = order[b] as int;
        assert(sorting::comes_before(scores, p, q));
        assert(p != q);
        assert(ids[p] != ids[q]);
    }
    assert forall|i: int| 0 <= i < entries.len() implies all.contains(
        fused_of(#[trigger] entries[i], scores[i], means[i]),
    ) by {
        assert(sorting::lists(order, i));
        let a = choose|a: int| 0 <= a < order.len() && order[a] == i;
        assert(all[a] == fused_of(entries[i], scores[i], means[i]));
    }
}

/// A list gives a chunk one summand for each place at which the chunk stands, at
/// the rank of that place, counted from 1.
pub proof fn law_summands_are_ranks(list: Seq<FtsResult>, id: u32, source: Source) -> (places: Seq<
    int,
>)
    requires
        list.len() <= usize::MAX,
    ensures
        sorting::selects(places, list.len() as int, |i: int| list[i].chunk_id == id),
        ranks_in(list, id, source).len() == places.len(),
        forall|k: int|
            0 <= k < places.len() ==> {
                let c = #[trigger] ranks_in(list, id, source)[k];
                c.source == source && c.rank == places[k] + 1
            },
    decreases list.len(),
{
    if list.len() == 0 {
        Seq::empty()
    } else {
        let front = list.drop_last();
        let before = law_summands_are_ranks(front, id, source);
        sorting::lemma_selects_step(
            before,
            list.len() - 1,
            |i: int| front[i].chunk_id == id,
            |i: int| list[i].chunk_id == id,
        )
    }
}

/// The rank and the score of a chunk in a list are those of its last place; a
/// chunk that the list does not hold has neither.
pub proof fn law_rank_is_the_place(list: Seq<FtsResult>, id: u32, i: int)
    requires
        list.len() <= usize::MAX,
        -1 <= i < list.len(),
        i >= 0 ==> list[i].chunk_id == id,
        forall|j: int| i < j < list.len() ==> (#[trigger] list[j]).chunk_id != id,
    ensures
        i >= 0 ==> rank_in(list, id) == Some((i + 1) as usize) && score_in(list, id) == Some(
            list[i].score,
        ),
        i < 0 ==> rank_in(list, id) is None && score_in(list, id) is None,
    decreases list.len(),
{
    if list.len() > 0 && i < list.len() - 1 {
        let front = list.drop_last();
        assert(list[list.len() - 1].chunk_id != id);
        assert forall|j: int| i < j < front.len() implies (#[trigger] front[j]).chunk_id != id by {
            assert(list[j].chunk_id != id);
        }
        law_rank_is_the_place(front, id, i);
        lemma_last_place(front, id);
    }
}

/// An entry has the rank and the score that each list gives its chunk, and the
/// summands of the vector results, of the full-text results and of the exact
/// hits, in this order.
pub proof fn law_entry_has_every_rank(
    entry: FusedEntry,
    vector: Seq<FtsResult>,
    fts: Seq<FtsResult>,
    exact: Seq<FtsResult>,
    v: int,
    f: int,
    e: int,
)
    requires
        vector.len() <= usize::MAX,
        fts.len() <= usize::MAX,
        exact.len() <= usize::MAX,
        entry.is_of(vector, fts, exact),
        distinct(vector),
        distinct(fts),
        distinct(exact),
        0 <= v < vector.len() && vector[v].chunk_id == entry.chunk_id,
        0 <= f < fts.len() && fts[f].chunk_id == entry.chunk_id,
        0 <= e < exact.len() && exact[e].chunk_id == entry.chunk_id,
    ensures
        entry.contributions@ == seq![
            Contribution { source: Source::Vector, rank: (v + 1) as usize },
            Contribution { source: Source::Fts, rank: (f + 1) as usize },
            Contribution { source: Source::Exact, rank: (e + 1) as usize },
        ],
        entry.vector_rank == Some((v + 1) as usize),
        entry.fts_rank == Some((f + 1) as usize),
        entry.exact_rank == Some((e + 1) as usize),
        entry.vector_score == Some(vector[v].score),
        entry.fts_score == Some(fts[f].score),
        entry.exact_score == Some(exact[e].score),
{
    let id = entry.chunk_id;
    law_one_summand_per_list(vector, id, Source::Vector);
    law_one_summand_per_list(fts, id, Source::Fts);
    law_one_summand_per_list(exact, id, Source::Exact);
    law_rank_is_the_place(vector, id, v);
    law_rank_is_the_place(fts, id, f);
    law_rank_is_the_place(exact, id, e);
    assert(entry.contributions@ =~= seq![
        Contribution { source: Source::Vector, rank: (v + 1) as usize },
        Contribution { source: Source::Fts, rank: (f + 1) as usize },
        Contribution { source: Source::Exact, rank: (e + 1) as usize },
    ]);
}

/// A list that does not hold the chunk of an entry adds nothing to it.
pub proof fn law_entry_without_a_list(
    entry: FusedEntry,
    vector: Seq<FtsResult>,
    fts: Seq<FtsResult>,
    exact: Seq<FtsResult>,
)
    requires
        vector.len() <= usize::MAX,
        fts.len() <= usize::MAX,
        exact.len() <= usize::MAX,
        entry.is_of(vector, fts, exact),
        distinct(vector),
        distinct(fts),
        distinct(exact),
    ensures
        !has_id(vector, entry.chunk_id) ==> entry.vector_rank is None && entry.vector_score is None,
        !has_id(fts, entry.chunk_id) ==> entry.fts_rank is None && entry.fts_score is None,
        !has_id(exact, entry.chunk_id) ==> entry.exact_rank is None && entry.exact_score is None,
        entry.contributions@.len() == (if has_id(vector, entry.chunk_id) {
            1nat
        } else {
            0
        }) + (if has_id(fts, entry.chunk_id) {
            1nat
        } else {
            0
        }) + (if has_id(exact, entry.chunk_id) {
            1nat
        } else {
            0
        }),
{
    let id = entry.chunk_id;
    law_one_summand_per_list(vector, id, Source::Vector);
    law_one_summand_per_list(fts, id, Source::Fts);
    law_one_summand_per_list(exact, id, Source::Exact);
    lemma_last_place(vector, id);
    lemma_last_place(fts, id);
    lemma_last_place(exact, id);
}

/// A ranked result is that of an entry: its chunk, its fused score, what the
/// vector search says, and the full-text rank or else that of the exact hits.
/// Its text score is the mean where the entry has two, and else the one that it
/// has.
pub proof fn law_ranked_result(
    entries: Seq<FusedEntry>,
    scores: Seq<Score>,
    means: Seq<Score>,
    a: int,
) -> (i: int)
    requires
        scores.len() == entries.len(),
        means.len() == entries.len(),
        entries.len() <= usize::MAX,
        0 <= a < entries.len(),
    ensures
        0 <= i < entries.len(),
        ({
            let r = ranked(entries, scores, means)[a];
            let e = entries[i];
            &&& r.chunk_id == e.chunk_id
            &&& r.rrf_score == scores[i]
            &&& r.vector_score == e.vector_score
            &&& r.vector_rank == e.vector_rank
            &&& e.fts_rank is Some ==> r.fts_rank == e.fts_rank
            &&& e.fts_rank is None ==> r.fts_rank == e.exact_rank
            &&& e.fts_score is Some && e.exact_score is Some ==> r.fts_score == Some(means[i])
            &&& e.fts_score is Some && e.exact_score is None ==> r.fts_score == e.fts_score
            &&& e.fts_score is None ==> r.fts_score == e.exact_score
        }),
{
    sorting::lemma_sorting_exists(scores);
    let order = score::ranking(scores);
    assert(0 <= order[a] < scores.len());
    order[a] as int
}

/// Vector results alone keep their order and their scores, and their ranks are
/// their places.
pub proof fn law_vector_results_as_fused(results: Seq<SearchResult>, i: int)
    requires
        0 <= i < results.len(),
        results.len() <= usize::MAX,
    ensures
        as_fused(results).len() == results.len(),
        as_fused(results)[i].chunk_id == results[i].id,
        as_fused(results)[i].rrf_score == results[i].score,
        as_fused(results)[i].vector_score == Some(results[i].score),
        as_fused(results)[i].vector_rank == Some((i + 1) as usize),
        as_fused(results)[i].fts_score is None,
        as_fused(results)[i].fts_rank is None,
        hits_of_results(results).len() == results.len(),
        hits_of_results(results)[i].chunk_id == results[i].id,
        hits_of_results(results)[i].score == results[i].score,
{
}

/// One more hit is merged into hits: where its chunk is there, only the score at
/// its place changes, to the higher of the two; a new chunk goes to the end.
pub proof fn law_merge_one_more(list: Seq<FtsResult>, hits: Seq<FtsResult>, hit: FtsResult, i: int)
    requires
        distinct(list),
        0 <= i < merged(list, hits).len(),
    ensures
        merged(list, Seq::empty()) == list,
        ({
            let before = merged(list, hits);
            let after = merged(list, hits.push(hit));
            &&& has_id(before, hit.chunk_id) ==> after.len() == before.len()
            &&& !has_id(before, hit.chunk_id) ==> after.len() == before.len() + 1 && after.last()
                == hit
            &&& before[i].chunk_id != hit.chunk_id ==> after[i] == before[i]
            &&& before[i].chunk_id == hit.chunk_id ==> after[i].chunk_id == hit.chunk_id
            &&& before[i].chunk_id == hit.chunk_id && !before[i].score.is_nan()
                && !hit.score.is_nan() ==> {
                &&& after[i].score == before[i].score || after[i].score == hit.score
                &&& before[i].score.key() <= after[i].score.key()
                &&& hit.score.key() <= after[i].score.key()
            }
        }),
{
    let before = merged(list, hits);
    assert(hits.push(hit).drop_last() =~= hits);
    law_merge_is_union(list, hits, hit.chunk_id);
    lemma_last_place(before, hit.chunk_id);
    if before[i].chunk_id == hit.chunk_id {
        let p = last_place(before, hit.chunk_id)->0;
        if p < i {
            assert(before[p].chunk_id != before[i].chunk_id);
        } else if i < p {
            assert(before[i].chunk_id != before[p].chunk_id);
        }
    }
}

/// Of the hits of several lists the first of each chunk is kept, and they keep
/// their order.
pub proof fn law_first_of_each(hits: Seq<FtsResult>) -> (places: Seq<int>)
    ensures
        sorting::selects(
            places,
            hits.len() as int,
            |i: int| forall|j: int| 0 <= j < i ==> (#[trigger] hits[j]).chunk_id != hits[i].chunk_id,
        ),
        first_of_each(hits).len() == places.len(),
        forall|k: int|
            0 <= k < places.len() ==> #[trigger] first_of_each(hits)[k] == hits[places[k]],
        forall|id: u32| #[trigger] has_id(first_of_each(hits), id) <==> has_id(hits, id),
    decreases hits.len(),
{
    if hits.len() == 0 {
        Seq::empty()
    } else {
        let front = hits.drop_last();
        let n = hits.len() - 1;
        let before = law_first_of_each(front);
        let first = first_of_each(front);
        let all = first_of_each(hits);
        let old_first = |i: int|
            forall|j: int| 0 <= j < i ==> (#[trigger] front[j]).chunk_id != front[i].chunk_id;
        let new_first = |i: int|
            forall|j: int| 0 <= j < i ==> (#[trigger] hits[j]).chunk_id != hits[i].chunk_id;
        assert forall|k: int| 0 <= k < n implies old_first(k) == #[trigger] new_first(k) by {
            if old_first(k) {
                assert forall|j: int| 0 <= j < k implies (#[trigger] hits[j]).chunk_id
                    != hits[k].chunk_id by {
                    assert(front[j].chunk_id != front[k].chunk_id);
                }
            }
            if new_first(k) {
                assert forall|j: int| 0 <= j < k implies (#[trigger] front[j]).chunk_id
                    != front[k].chunk_id by {
                    assert(hits[j].chunk_id != hits[k].chunk_id);
                }
            }
        }
        let last = hits.last().chunk_id;
        lemma_last_place(first, last);
        assert(has_id(first, last) <==> has_id(front, last));
        assert(new_first(n) <==> !has_id(front, last)) by {
            if has_id(front, last) {
                let j = choose|j: int| 0 <= j < front.len() && (#[trigger] front[j]).chunk_id == last;
                assert(hits[j].chunk_id == hits[n].chunk_id);
            } else {
                assert forall|j: int| 0 <= j < n implies (#[trigger] hits[j]).chunk_id
                    != hits[n].chunk_id by {
                    assert(front[j].chunk_id != last);
                }
            }
        }
        let places = sorting::lemma_selects_step(before, n, old_first, new_first);
        assert forall|k: int| 0 <= k < places.len() implies #[trigger] all[k] == hits[places[k]] by {
            if k < before.len() {
                assert(first[k] == front[before[k]]);
            }
        }
        assert forall|id: u32| #[trigger] has_id(all, id) <==> has_id(hits, id) by {
            assert(has_id(first, id) <==> has_id(front, id));
            if has_id(front, id) {
                let j = choose|j: int| 0 <= j < front.len() && (#[trigger] front[j]).chunk_id == id;
                assert(hits[j].chunk_id == id);
                let k = choose|k: int| 0 <= k < first.len() && (#[trigger] first[k]).chunk_id == id;
                assert(all[k].chunk_id == id);
            }
            if has_id(hits, id) && id != last {
                let j = choose|j: int| 0 <= j < hits.len() && (#[trigger] hits[j]).chunk_id == id;
                assert(front[j].chunk_id == id);
            }
            if id == last {
                assert(hits[n].chunk_id == id);
                if !has_id(first, id) {
                    assert(all[first.len() as int].chunk_id == id);
                }
            }
            if has_id(all, id) && !has_id(first, id) {
                let k = choose|k: int| 0 <= k < all.len() && (#[trigger] all[k]).chunk_id == id;
                if k < first.len() {
                    assert(first[k].chunk_id == id);
                }
            }
        }
        places
    }
}

/// The lists stand one behind the other, each whole.
pub proof fn law_lists_in_a_row(a: Seq<Vec<FtsResult>>, b: Seq<Vec<FtsResult>>, list: Vec<FtsResult>)
    ensures
        all_hits(a + b) == all_hits(a) + all_hits(b),
        all_hits(seq![list]) == list@,
        all_hits(Seq::empty()) == Seq::<FtsResult>::empty(),
    decreases b.len(),
{
    let one = seq![list];
    assert(one.drop_last() =~= Seq::empty());
    assert(all_hits(one.drop_last()) =~= Seq::empty());
    assert(one.last() == list);
    assert(all_hits(one) =~= list@);
    if b.len() == 0 {
        assert(a + b =~= a);
        assert(all_hits(a) + all_hits(b) =~= all_hits(a));
    } else {
        law_lists_in_a_row(a, b.drop_last(), list);
        assert((a + b).drop_last() =~= a + b.drop_last());
        assert(all_hits(a + b) =~= all_hits(a) + all_hits(b));
    }
}

/// A hit stays in the merged answer where no other hit is of the same chunk of
/// the same repository; hits of different repositories do not displace each
/// other.
pub proof fn law_repositories_are_apart(hits: Seq<StoreHit>, i: int)
    requires
        hits_ok(hits),
        hits.len() <= usize::MAX,
        0 <= i < hits.len(),
        forall|j: int|
            0 <= j < hits.len() && j != i ==> (#[trigger] hits[j]).alias@ != hits[i].alias@
                || hits[j].chunk_id != hits[i].chunk_id,
    ensures
        merge_order(hits).contains(i as usize),
{
    law_store_merge(hits);
    let merged = merge_order(hits);
    assert(represented(hits, merged, i));
    let a = choose|a: int| stands_for(hits, merged, a, i);
    lemma_merged_places(hits, a);
    assert(merged[a] == i as usize);
}

/// The merged places are places of hits.
pub proof fn lemma_merged_places(hits: Seq<StoreHit>, a: int)
    requires
        hits_ok(hits),
        hits.len() <= usize::MAX,
        0 <= a < merge_order(hits).len(),
    ensures
        merge_order(hits)[a] < hits.len(),
{
    let n = hits.len() as int;
    lemma_kept(hits, n);
    lemma_kept_len(hits, n);
    let kept = kept_of(hits, n);
    let scores = kept_scores(hits, kept);
    sorting::lemma_sorting_exists(scores);
    let order = score::ranking(scores);
    assert(0 <= order[a] < scores.len());
    assert(kept[order[a] as int] < n);
}

/// Of two hits of the same chunk of the same repository no more than one stays,
/// and one with the highest score does.
pub proof fn law_best_hit_stays(hits: Seq<StoreHit>, i: int, j: int)
    requires
        hits_ok(hits),
        hits.len() <= usize::MAX,
        0 <= i < hits.len(),
        0 <= j < hits.len(),
        i != j,
        hits[i].alias@ == hits[j].alias@,
        hits[i].chunk_id == hits[j].chunk_id,
    ensures
        !merge_order(hits).contains(i as usize) || !merge_order(hits).contains(j as usize),
        hits[i].score.key() < hits[j].score.key() ==> !merge_order(hits).contains(i as usize),
{
    law_store_merge(hits);
    let merged = merge_order(hits);
    if merged.contains(i as usize) && merged.contains(j as usize) {
        let a = choose|a: int| 0 <= a < merged.len() && merged[a] == i as usize;
        let b = choose|b: int| 0 <= b < merged.len() && merged[b] == j as usize;
        if a < b {
            assert(!same_chunk(hits[merged[a] as int], hits[merged[b] as int]));
        } else {
            assert(!same_chunk(hits[merged[b] as int], hits[merged[a] as int]));
        }
    }
    if merged.contains(i as usize) && hits[i].score.key() < hits[j].score.key() {
        let a = choose|a: int| 0 <= a < merged.len() && merged[a] == i as usize;
        assert(represented(hits, merged, j));
        let c = choose|c: int| stands_for(hits, merged, c, j);
        assert(same_chunk(hits[merged[c] as int], hits[j]));
        if a < c {
            assert(!same_chunk(hits[merged[a] as int], hits[merged[c] as int]));
        } else if c < a {
            assert(!same_chunk(hits[merged[c] as int], hits[merged[a] as int]));
        }
    }
}

/// A fused hit says of its chunk what each list says, and the text score of both
/// is their mean, of one its own.
pub proof fn law_fused_hit(
    vector: Seq<FtsResult>,
    fts: Seq<FtsResult>,
    exact: Seq<FtsResult>,
    id: u32,
    rrf: Score,
    mean: Score,
)
    ensures
        ({
            let r = fused_for(vector, fts, exact, id, rrf, mean);
            &&& r.chunk_id == id
            &&& r.rrf_score == rrf
            &&& r.vector_score == score_in(vector, id)
            &&& r.vector_rank == rank_in(vector, id)
            &&& rank_in(fts, id) is Some ==> r.fts_rank == rank_in(fts, id)
            &&& rank_in(fts, id) is None ==> r.fts_rank == rank_in(exact, id)
            &&& score_in(fts, id) is Some && score_in(exact, id) is Some ==> r.fts_score == Some(mean)
            &&& score_in(exact, id) is None ==> r.fts_score == score_in(fts, id)
            &&& score_in(fts, id) is None ==> r.fts_score == score_in(exact, id)
        }),
{
}

/// The fused hits are those of all chunks that a list names, each once, from the
/// highest fused score down.
pub proof fn law_fused_list(
    vector: Seq<FtsResult>,
    fts: Seq<FtsResult>,
    exact: Seq<FtsResult>,
    scores: Seq<Score>,
    means: Seq<Score>,
    a: int,
    b: int,
)
    requires
        scores.len() == distinct_ids(vector + fts + exact).len(),
        scores.len() <= usize::MAX,
        0 <= a < b < scores.len(),
    ensures
        fused_list(vector, fts, exact, scores, means).len() == scores.len(),
        ({
            let list = fused_list(vector, fts, exact, scores, means);
            &&& list[b].rrf_score.key() <= list[a].rrf_score.key()
            &&& distinct_ids(vector + fts + exact).contains(list[a].chunk_id)
        }),
{
    let order = sorting::law_sorted_items(scores, scores);
    sorting::law_sorting(scores);
    let ranking = score::ranking(scores);
    let ids = distinct_ids(vector + fts + exact);
    let list = fused_list(vector, fts, exact, scores, means);
    assert(0 <= ranking[a] < scores.len() && 0 <= ranking[b] < scores.len());
    assert(list[a] == fused_for(
        vector,
        fts,
        exact,
        ids[ranking[a] as int],
        scores[ranking[a] as int],
        means[ranking[a] as int],
    ));
    assert(list[b].rrf_score == scores[ranking[b] as int]);
    assert(sorting::SortKey::upto(scores[ranking[a] as int], scores[ranking[b] as int]));
    assert(ids.contains(ids[ranking[a] as int]));
}

} // verus!
