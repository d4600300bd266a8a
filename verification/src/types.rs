//! Requests, responses and the records that the searches pass around.
use vstd::prelude::*;

use crate::score::Score;
use crate::text;

verus! {

// ---------------------------------------------------------------------------
// Optional text
// ---------------------------------------------------------------------------

/// The characters of an optional string.
pub open spec fn opt_text(s: Option<String>) -> Option<Seq<char>> {
    match s {
        Some(t) => Some(t@),
        None => None,
    }
}

/// A copy of an optional string.
pub fn copy_opt(s: &Option<String>) -> (r: Option<String>)
    ensures
        opt_text(r) == opt_text(*s),
        r == *s,
{
    match s {
        Some(t) => Some(t.clone()),
        None => None,
    }
}

/// An optional string, or a text of its own where there is none.
pub open spec fn text_or(s: Option<String>, other: Seq<char>) -> Seq<char> {
    match s {
        Some(t) => t@,
        None => other,
    }
}

/// The first `n` elements, or all.
pub open spec fn at_most<T>(s: Seq<T>, n: int) -> Seq<T> {
    if s.len() <= n {
        s
    } else {
        s.take(n)
    }
}

// ---------------------------------------------------------------------------
// Stored records
// ---------------------------------------------------------------------------

/// A chunk as the store keeps it.
#[derive(Debug)]
pub struct ChunkMeta {
    pub content: String,
    pub path: String,
    pub start_line: usize,
    pub end_line: usize,
    pub kind: String,
    pub signature: Option<String>,
    pub docstring: Option<String>,
    pub context: Option<String>,
    pub hash: String,
    pub context_prev: Option<String>,
    pub context_next: Option<String>,
    /// The name of the language of the file.
    pub language: String,
}

impl ChunkMeta {
    /// The lines of the chunk can be numbered.
    pub open spec fn wf(&self) -> bool {
        self.start_line + text::text_lines(self.content@).len() <= usize::MAX
    }

    /// A copy of the chunk.
    pub fn copy(&self) -> (r: ChunkMeta)
        ensures
            r == *self,
    {
        ChunkMeta {
            content: self.content.clone(),
            path: self.path.clone(),
            start_line: self.start_line,
            end_line: self.end_line,
            kind: self.kind.clone(),
            signature: copy_opt(&self.signature),
            docstring: copy_opt(&self.docstring),
            context: copy_opt(&self.context),
            hash: self.hash.clone(),
            context_prev: copy_opt(&self.context_prev),
            context_next: copy_opt(&self.context_next),
            language: self.language.clone(),
        }
    }
}

/// A hit of the full-text search.
#[derive(Clone, Copy, PartialEq, Eq, Structural, Debug)]
pub struct FtsResult {
    pub chunk_id: u32,
    pub score: Score,
}

/// A hit of the vector search, or a chunk that was found in another way.
#[derive(Debug)]
pub struct SearchResult {
    pub id: u32,
    pub content: String,
    pub path: String,
    pub start_line: usize,
    pub end_line: usize,
    pub kind: String,
    pub signature: Option<String>,
    pub docstring: Option<String>,
    pub context: Option<String>,
    pub hash: String,
    pub distance: Score,
    pub score: Score,
    pub context_prev: Option<String>,
    pub context_next: Option<String>,
}

impl SearchResult {
    /// The result with another score.
    pub open spec fn scored(self, score: Score) -> SearchResult {
        SearchResult { score, ..self }
    }

    /// A copy of the result with a score of its own.
    pub fn copy_scored(&self, score: Score) -> (r: SearchResult)
        ensures
            r == (*self).scored(score),
    {
        SearchResult {
            id: self.id,
            content: self.content.clone(),
            path: self.path.clone(),
            start_line: self.start_line,
            end_line: self.end_line,
            kind: self.kind.clone(),
            signature: copy_opt(&self.signature),
            docstring: copy_opt(&self.docstring),
            context: copy_opt(&self.context),
            hash: self.hash.clone(),
            distance: self.distance,
            score,
            context_prev: copy_opt(&self.context_prev),
            context_next: copy_opt(&self.context_next),
        }
    }

    /// What becomes of a stored chunk that was found with a score.
    pub open spec fn of_chunk(id: u32, chunk: ChunkMeta, score: Score) -> SearchResult {
        SearchResult {
            id,
            content: chunk.content,
            path: chunk.path,
            start_line: chunk.start_line,
            end_line: chunk.end_line,
            kind: chunk.kind,
            signature: chunk.signature,
            docstring: chunk.docstring,
            context: chunk.context,
            hash: chunk.hash,
            distance: Score { bits: 0 },
            score,
            context_prev: chunk.context_prev,
            context_next: chunk.context_next,
        }
    }

    /// The result for a stored chunk that was found with a score.
    pub fn from_chunk(id: u32, chunk: &ChunkMeta, score: Score) -> (r: SearchResult)
        ensures
            r == SearchResult::of_chunk(id, *chunk, score),
    {
        SearchResult {
            id,
            content: chunk.content.clone(),
            path: chunk.path.clone(),
            start_line: chunk.start_line,
            end_line: chunk.end_line,
            kind: chunk.kind.clone(),
            signature: copy_opt(&chunk.signature),
            docstring: copy_opt(&chunk.docstring),
            context: copy_opt(&chunk.context),
            hash: chunk.hash.clone(),
            distance: Score::zero(),
            score,
            context_prev: copy_opt(&chunk.context_prev),
            context_next: copy_opt(&chunk.context_next),
        }
    }
}

/// A hit of the full-text search, with what each store holds under its chunk
/// id.
#[derive(Debug)]
pub struct Candidate {
    pub chunk_id: u32,
    pub score: Score,
    pub chunks: Vec<Option<ChunkMeta>>,
}

impl Candidate {
    /// The lines of the chunks can be numbered.
    pub open spec fn wf(&self) -> bool {
        forall|k: int|
            0 <= k < self.chunks@.len() && (#[trigger] self.chunks@[k]) is Some
                ==> self.chunks@[k]->0.wf()
    }

    /// The chunk of the first store, from the `k`th on, that holds one.
    pub open spec fn found_from(self, k: int) -> Option<ChunkMeta>
        decreases self.chunks@.len() - k,
    {
        if k < 0 || k >= self.chunks@.len() {
            None
        } else if self.chunks@[k] is Some {
            self.chunks@[k]
        } else {
            self.found_from(k + 1)
        }
    }

    /// The chunk of the first store that holds one.
    pub open spec fn found(self) -> Option<ChunkMeta> {
        self.found_from(0)
    }

    /// The chunk of the first store that holds one.
    pub fn find_chunk(&self) -> (r: Option<&ChunkMeta>)
        ensures
            match r {
                Some(c) => self.found() == Some(*c),
                None => self.found() is None,
            },
            self.wf() && r is Some ==> r->0.wf(),
    {
        let mut k: usize = 0;
        while k < self.chunks.len()
            invariant
                k <= self.chunks.len(),
                self.found() == self.found_from(k as int),
            decreases self.chunks.len() - k,
        {
            match &self.chunks[k] {
                Some(c) => {
                    assert(self.chunks@[k as int] is Some);
                    return Some(c);
                },
                None => {},
            }
            k += 1;
        }
        None
    }
}

/// The lines of all chunks can be numbered.
pub open spec fn candidates_wf(candidates: Seq<Candidate>) -> bool {
    forall|i: int| 0 <= i < candidates.len() ==> (#[trigger] candidates[i]).wf()
}

/// The chunks of the candidates, place by place: of each the one of the first
/// store that holds one.
pub fn first_chunks(candidates: &Vec<Candidate>) -> (r: Vec<Option<ChunkMeta>>)
    ensures
        r@ == candidates@.map_values(|c: Candidate| c.found()),
{
    let ghost all = candidates@.map_values(|c: Candidate| c.found());
    let mut out: Vec<Option<ChunkMeta>> = Vec::new();
    let mut i: usize = 0;
    while i < candidates.len()
        invariant
            i <= candidates.len(),
            all == candidates@.map_values(|c: Candidate| c.found()),
            out@ == all.take(i as int),
        decreases candidates.len() - i,
    {
        let chunk = match candidates[i].find_chunk() {
            Some(c) => Some(c.copy()),
            None => None,
        };
        out.push(chunk);
        i += 1;
    }
    proof {
        assert(all.take(all.len() as int) =~= all);
    }
    out
}

// ---------------------------------------------------------------------------
// Requests
// ---------------------------------------------------------------------------

/// Request for a search in either mode.
#[derive(Debug)]
pub struct SearchRequest {
    pub query: String,
    /// `semantic` (default) or `literal`.
    pub mode: Option<String>,
    pub limit: Option<usize>,
    pub compact: Option<bool>,
    pub filter_path: Option<String>,
    /// `auto` (default), `semantic`, `lexical` or `hybrid`.
    pub semantic_mode: Option<String>,
    pub regex: Option<bool>,
    pub phrase: Option<bool>,
    pub file_glob: Option<String>,
    pub language: Option<String>,
    pub format: Option<String>,
    pub project: Option<String>,
    pub group: Option<String>,
}

/// Request for semantic search
#[derive(Debug)]
pub struct SemanticSearchRequest {
    /// The search query (natural language or code snippet)
    pub query: String,
    /// Maximum number of results to return (default: 10)
    pub limit: Option<usize>,
    /// Return compact results, without code (default: true)
    pub compact: Option<bool>,
    /// Only return results from files under this path prefix
    pub filter_path: Option<String>,
    /// `auto` (default), `semantic`, `lexical` or `hybrid`
    pub mode: Option<String>,
    pub project: Option<String>,
    pub group: Option<String>,
}

/// Request for literal search.
#[derive(Debug)]
pub struct LiteralSearchRequest {
    pub query: String,
    pub regex: Option<bool>,
    pub phrase: Option<bool>,
    pub limit: Option<usize>,
    pub file_glob: Option<String>,
    pub language: Option<String>,
    /// `json` (default) or `grep`.
    pub format: Option<String>,
    pub project: Option<String>,
    pub group: Option<String>,
}

/// Request to get file chunks
#[derive(Debug)]
pub struct GetFileChunksRequest {
    /// Path to the file (relative to project root)
    pub path: String,
    /// Return compact results, without code (default: true)
    pub compact: Option<bool>,
}

/// Request to find references/call sites of a symbol.
#[derive(Debug)]
pub struct FindReferencesRequest {
    /// The symbol name to find references for
    pub symbol: String,
    /// Maximum number of references to return (default: 20)
    pub limit: Option<usize>,
}

/// Request for symbol navigation.
#[derive(Debug)]
pub struct FindRequest {
    /// A symbol, or a file path where `kind` is `imports`.
    pub symbol: String,
    /// `definition` (default), `usages`, `imports` or `dependents`.
    pub kind: Option<String>,
    pub definition_kind: Option<String>,
    pub limit: Option<usize>,
    pub project: Option<String>,
    pub group: Option<String>,
}

/// Request for the definitions of a symbol.
#[derive(Debug)]
pub struct FindDefinitionRequest {
    pub symbol: String,
    pub kind: Option<String>,
    pub limit: Option<usize>,
    pub project: Option<String>,
    pub group: Option<String>,
}

/// Request for the usages of a symbol.
#[derive(Debug)]
pub struct FindUsagesRequest {
    pub symbol: String,
    pub limit: Option<usize>,
    pub project: Option<String>,
    pub group: Option<String>,
}

/// Request for the imports of a file.
#[derive(Debug)]
pub struct FindImportsRequest {
    pub path: String,
    pub project: Option<String>,
    pub group: Option<String>,
}

/// Request for the files that depend on a symbol or a path.
#[derive(Debug)]
pub struct FindDependentsRequest {
    pub symbol_or_path: String,
    pub limit: Option<usize>,
    pub project: Option<String>,
    pub group: Option<String>,
}

/// Request for exploration.
#[derive(Debug)]
pub struct ExploreRequest {
    /// A file path, or a chunk id where `kind` is `similar`.
    pub target: String,
    /// `outline` (default) or `similar`.
    pub kind: Option<String>,
    pub limit: Option<usize>,
    pub project: Option<String>,
    pub group: Option<String>,
}

/// Request for the outline of a file.
#[derive(Debug)]
pub struct FileOutlineRequest {
    pub path: String,
    pub project: Option<String>,
    pub group: Option<String>,
}

/// Request for the chunks that resemble a chunk.
#[derive(Debug)]
pub struct SimilarChunksRequest {
    pub chunk_id: u32,
    pub limit: Option<usize>,
    pub project: Option<String>,
    pub group: Option<String>,
}

/// Request for one chunk with the lines around it.
#[derive(Debug)]
pub struct GetChunkRequest {
    pub chunk_id: u32,
    pub context_lines: Option<usize>,
    pub project: Option<String>,
    pub group: Option<String>,
}

/// Request for status.
#[derive(Debug)]
pub struct StatusRequest {
    /// `index` (default) or `projects`.
    pub kind: Option<String>,
    pub project: Option<String>,
    pub group: Option<String>,
}

// ---------------------------------------------------------------------------
// Responses
// ---------------------------------------------------------------------------

/// What a tool answers: items, or a message in their place.
#[derive(Debug)]
pub enum Reply<T> {
    Items(Vec<T>),
    Message(String),
}

/// Search result item
#[derive(Debug)]
pub struct SearchResultItem {
    pub chunk_id: u32,
    pub path: String,
    pub start_line: usize,
    pub end_line: usize,
    pub kind: String,
    pub score: Score,
    pub signature: Option<String>,
    pub content: Option<String>,
    pub context_prev: Option<String>,
    pub context_next: Option<String>,
}

/// A search result item, without its containers.
#[verifier::ext_equal]
pub struct ResultView {
    pub chunk_id: u32,
    pub path: Seq<char>,
    pub start_line: int,
    pub end_line: int,
    pub kind: Seq<char>,
    pub score: Score,
    pub signature: Option<Seq<char>>,
    pub content: Option<Seq<char>>,
    pub context_prev: Option<Seq<char>>,
    pub context_next: Option<Seq<char>>,
}

/// What an item says.
pub open spec fn result_view(item: SearchResultItem) -> ResultView {
    ResultView {
        chunk_id: item.chunk_id,
        path: item.path@,
        start_line: item.start_line as int,
        end_line: item.end_line as int,
        kind: item.kind@,
        score: item.score,
        signature: opt_text(item.signature),
        content: opt_text(item.content),
        context_prev: opt_text(item.context_prev),
        context_next: opt_text(item.context_next),
    }
}

/// What the items say.
pub open spec fn result_views(items: Seq<SearchResultItem>) -> Seq<ResultView> {
    Seq::new(items.len(), |i: int| result_view(items[i]))
}

/// What is reported of a result under a path; without code where it is compact.
pub open spec fn reported(r: SearchResult, path: Seq<char>, compact: bool) -> ResultView {
    ResultView {
        chunk_id: r.id,
        path,
        start_line: r.start_line as int,
        end_line: r.end_line as int,
        kind: r.kind@,
        score: r.score,
        signature: opt_text(r.signature),
        content: if compact {
            None
        } else {
            Some(r.content@)
        },
        context_prev: if compact {
            None
        } else {
            opt_text(r.context_prev)
        },
        context_next: if compact {
            None
        } else {
            opt_text(r.context_next)
        },
    }
}

/// The item that reports a result under a path; without code where it is
/// compact.
pub fn report(r: &SearchResult, path: String, compact: bool) -> (item: SearchResultItem)
    ensures
        result_view(item) == reported(*r, path@, compact),
{
    SearchResultItem {
        chunk_id: r.id,
        path,
        start_line: r.start_line,
        end_line: r.end_line,
        kind: r.kind.clone(),
        score: r.score,
        signature: copy_opt(&r.signature),
        content: if compact {
            None
        } else {
            Some(r.content.clone())
        },
        context_prev: if compact {
            None
        } else {
            copy_opt(&r.context_prev)
        },
        context_next: if compact {
            None
        } else {
            copy_opt(&r.context_next)
        },
    }
}

/// Reference/call site item
#[derive(Debug)]
pub struct ReferenceItem {
    pub chunk_id: u32,
    /// File path containing the reference
    pub path: String,
    /// Line number of the reference
    pub line: usize,
    /// The kind of chunk containing the reference
    pub kind: String,
    /// Signature of the containing function/method
    pub signature: Option<String>,
    /// FTS relevance score
    pub score: Score,
}

/// One match of a literal search.
#[derive(Debug)]
pub struct LiteralSearchResultItem {
    pub path: String,
    pub start_line: usize,
    pub end_line: usize,
    pub snippet: String,
    pub score: Score,
    pub kind: Option<String>,
    pub signature: Option<String>,
}

/// Index status response
#[derive(Debug)]
pub struct IndexStatusResponse {
    pub indexed: bool,
    /// Index status: "not_indexed", "building", "ready", "error"
    pub status: String,
    /// Human-readable status message
    pub status_message: String,
    pub total_chunks: usize,
    pub total_files: usize,
    pub model: String,
    pub dimensions: usize,
    pub max_chunk_id: u32,
    pub db_path: String,
    pub project_path: String,
    pub error_message: Option<String>,
    /// How the server runs.
    pub mode: Option<String>,
}

/// Database info response
#[derive(Debug)]
pub struct DatabaseInfoResponse {
    pub database_path: String,
    pub project_path: String,
    pub is_current_directory: bool,
    pub depth_from_current: usize,
    pub total_chunks: usize,
    pub total_files: usize,
    pub model: String,
}

/// Find databases response
#[derive(Debug)]
pub struct FindDatabasesResponse {
    pub databases: Vec<DatabaseInfoResponse>,
    pub message: String,
    pub current_directory: String,
}

/// Response of a semantic search.
#[derive(Debug)]
pub struct SemanticSearchResponse {
    pub results: Vec<SearchResultItem>,
    pub low_confidence: Option<bool>,
    pub suggested_tool: Option<String>,
}

/// Response of a literal search.
#[derive(Debug)]
pub struct LiteralSearchResponse {
    pub results: Vec<LiteralSearchResultItem>,
    pub auto_promoted_to_regex: Option<bool>,
    pub note: Option<String>,
    pub low_confidence: Option<bool>,
    pub suggested_tool: Option<String>,
}

/// The chunk of a candidate is that of the first store that holds one; there is
/// none where no store does.
pub proof fn law_found_chunk(c: Candidate, k: int)
    requires
        0 <= k <= c.chunks@.len(),
        forall|j: int| 0 <= j < k ==> (#[trigger] c.chunks@[j]) is None,
    ensures
        k < c.chunks@.len() && c.chunks@[k] is Some ==> c.found() == c.chunks@[k],
        k == c.chunks@.len() ==> c.found() is None,
{
    lemma_found_from(c, 0, k);
}

proof fn lemma_found_from(c: Candidate, i: int, k: int)
    requires
        0 <= i <= k <= c.chunks@.len(),
        forall|j: int| 0 <= j < k ==> (#[trigger] c.chunks@[j]) is None,
    ensures
        c.found_from(i) == c.found_from(k),
    decreases k - i,
{
    if i < k {
        lemma_found_from(c, i + 1, k);
    }
}

/// Of more than `n` elements the first `n` are taken, and of fewer all.
pub proof fn law_at_most<T>(s: Seq<T>, n: nat, i: int)
    ensures
        s.len() <= n ==> at_most(s, n as int) == s,
        s.len() > n ==> at_most(s, n as int).len() == n,
        0 <= i < at_most(s, n as int).len() ==> at_most(s, n as int)[i] == s[i],
{
}

/// A stored chunk becomes a result with everything that the store keeps of it.
pub proof fn law_result_of_a_chunk(id: u32, chunk: ChunkMeta, score: Score)
    ensures
        ({
            let r = SearchResult::of_chunk(id, chunk, score);
            &&& r.id == id
            &&& r.score == score
            &&& r.path == chunk.path
            &&& r.content == chunk.content
            &&& r.start_line == chunk.start_line
            &&& r.end_line == chunk.end_line
            &&& r.kind == chunk.kind
            &&& r.signature == chunk.signature
            &&& r.docstring == chunk.docstring
            &&& r.context == chunk.context
            &&& r.hash == chunk.hash
            &&& r.context_prev == chunk.context_prev
            &&& r.context_next == chunk.context_next
            &&& r.distance.bits == 0
        }),
{
}

/// A word that is not given is the usual one.
pub proof fn law_text_or(word: String, default: Seq<char>)
    ensures
        text_or(Some(word), default) == word@,
        text_or(None, default) == default,
        opt_text(Some(word)) == Some(word@),
        opt_text(None) is None,
{
}

} // verus!
