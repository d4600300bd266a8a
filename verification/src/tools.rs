//! The tools that a client sees, and the searches that they stand for.
use vstd::prelude::*;

use crate::chars;
use crate::chars::to_lowercase;
use crate::numbers;
use crate::numbers::parse_number;
use crate::text::{chars_of, concat, owned, str_eq};
use crate::types;
use crate::types::{
    ExploreRequest, FileOutlineRequest, FindDefinitionRequest, FindDependentsRequest,
    FindImportsRequest, FindRequest, FindUsagesRequest, LiteralSearchRequest, SearchRequest,
    SemanticSearchRequest, SimilarChunksRequest, StatusRequest,
};

verus! {

/// What a tool is told to do with a word that it does not know.
pub open spec fn unknown_text(before: Seq<char>, word: Seq<char>, after: Seq<char>) -> Seq<char> {
    before + word + after
}

fn unknown(before: &str, word: &str, after: &str) -> (r: String)
    ensures
        r@ == unknown_text(before@, word@, after@),
{
    concat(concat(before, word).as_str(), after)
}

fn lowered(word: &Option<String>, default: &str) -> (r: String)
    ensures
        r@ == chars::in_lower_case(types::text_or(*word, default@)),
{
    match word {
        Some(w) => to_lowercase(w.as_str()),
        None => to_lowercase(default),
    }
}

// ---------------------------------------------------------------------------
// search
// ---------------------------------------------------------------------------

/// What the tool `search` does.
#[derive(Debug)]
pub enum SearchAction {
    Semantic(SemanticSearchRequest),
    Literal(LiteralSearchRequest),
    Unknown(String),
}

/// The action that belongs to a request and a mode in lower case.
pub open spec fn search_action_of(mode: Seq<char>, q: SearchRequest, r: SearchAction) -> bool {
    if mode == "semantic"@ {
        r == SearchAction::Semantic(
            SemanticSearchRequest {
                query: q.query,
                limit: q.limit,
                compact: q.compact,
                filter_path: q.filter_path,
                mode: q.semantic_mode,
                project: q.project,
                group: q.group,
            },
        )
    } else if mode == "literal"@ {
        r == SearchAction::Literal(
            LiteralSearchRequest {
                query: q.query,
                regex: q.regex,
                phrase: q.phrase,
                limit: q.limit,
                file_glob: q.file_glob,
                language: q.language,
                format: q.format,
                project: q.project,
                group: q.group,
            },
        )
    } else {
        r matches SearchAction::Unknown(m) && m@ == unknown_text(
            "Unknown search mode '"@,
            mode,
            "'. Use `semantic` or `literal`."@,
        )
    }
}

/// The search that a request with a mode in lower case stands for.
pub fn search_action(mode: &str, request: SearchRequest) -> (r: SearchAction)
    ensures
        search_action_of(mode@, request, r),
{
    if str_eq(mode, "semantic") {
        SearchAction::Semantic(
            SemanticSearchRequest {
                query: request.query,
                limit: request.limit,
                compact: request.compact,
                filter_path: request.filter_path,
                mode: request.semantic_mode,
                project: request.project,
                group: request.group,
            },
        )
    } else if str_eq(mode, "literal") {
        SearchAction::Literal(
            LiteralSearchRequest {
                query: request.query,
                regex: request.regex,
                phrase: request.phrase,
                limit: request.limit,
                file_glob: request.file_glob,
                language: request.language,
                format: request.format,
                project: request.project,
                group: request.group,
            },
        )
    } else {
        SearchAction::Unknown(
            unknown("Unknown search mode '", mode, "'. Use `semantic` or `literal`."),
        )
    }
}

/// The search that a request stands for; a semantic one where it names no mode.
pub fn dispatch_search(request: SearchRequest) -> (r: SearchAction)
    ensures
        search_action_of(
            chars::in_lower_case(types::text_or(request.mode, "semantic"@)),
            request,
            r,
        ),
{
    let mode = lowered(&request.mode, "semantic");
    search_action(mode.as_str(), request)
}

// ---------------------------------------------------------------------------
// find
// ---------------------------------------------------------------------------

/// What the tool `find` does.
#[derive(Debug)]
pub enum FindAction {
    Definition(FindDefinitionRequest),
    Usages(FindUsagesRequest),
    Imports(FindImportsRequest),
    Dependents(FindDependentsRequest),
    Unknown(String),
}

/// The action that belongs to a request and a kind in lower case.
pub open spec fn find_action_of(kind: Seq<char>, q: FindRequest, r: FindAction) -> bool {
    if kind == "definition"@ {
        r == FindAction::Definition(
            FindDefinitionRequest {
                symbol: q.symbol,
                kind: q.definition_kind,
                limit: q.limit,
                project: q.project,
                group: q.group,
            },
        )
    } else if kind == "usages"@ {
        r == FindAction::Usages(
            FindUsagesRequest {
                symbol: q.symbol,
                limit: q.limit,
                project: q.project,
                group: q.group,
            },
        )
    } else if kind == "imports"@ {
        r == FindAction::Imports(
            FindImportsRequest { path: q.symbol, project: q.project, group: q.group },
        )
    } else if kind == "dependents"@ {
        r == FindAction::Dependents(
            FindDependentsRequest {
                symbol_or_path: q.symbol,
                limit: q.limit,
                project: q.project,
                group: q.group,
            },
        )
    } else {
        r matches FindAction::Unknown(m) && m@ == unknown_text(
            "Unknown find kind '"@,
            kind,
            "'. Use `definition`, `usages`, `imports`, or `dependents`."@,
        )
    }
}

/// The navigation that a request with a kind in lower case stands for.
pub fn find_action(kind: &str, request: FindRequest) -> (r: FindAction)
    ensures
        find_action_of(kind@, request, r),
{
    if str_eq(kind, "definition") {
        FindAction::Definition(
            FindDefinitionRequest {
                symbol: request.symbol,
                kind: request.definition_kind,
                limit: request.limit,
                project: request.project,
                group: request.group,
            },
        )
    } else if str_eq(kind, "usages") {
        FindAction::Usages(
            FindUsagesRequest {
                symbol: request.symbol,
                limit: request.limit,
                project: request.project,
                group: request.group,
            },
        )
    } else if str_eq(kind, "imports") {
        FindAction::Imports(
            FindImportsRequest {
                path: request.symbol,
                project: request.project,
                group: request.group,
            },
        )
    } else if str_eq(kind, "dependents") {
        FindAction::Dependents(
            FindDependentsRequest {
                symbol_or_path: request.symbol,
                limit: request.limit,
                project: request.project,
                group: request.group,
            },
        )
    } else {
        FindAction::Unknown(
            unknown(
                "Unknown find kind '",
                kind,
                "'. Use `definition`, `usages`, `imports`, or `dependents`.",
            ),
        )
    }
}

/// The navigation that a request stands for; to the definition where it names
/// no kind.
pub fn dispatch_find(request: FindRequest) -> (r: FindAction)
    ensures
        find_action_of(
            chars::in_lower_case(types::text_or(request.kind, "definition"@)),
            request,
            r,
        ),
{
    let kind = lowered(&request.kind, "definition");
    find_action(kind.as_str(), request)
}

// ---------------------------------------------------------------------------
// explore
// ---------------------------------------------------------------------------

/// What the tool `explore` does.
#[derive(Debug)]
pub enum ExploreAction {
    Outline(FileOutlineRequest),
    Similar(SimilarChunksRequest),
    Unknown(String),
}

/// The action that belongs to a request and a kind in lower case.
pub open spec fn explore_action_of(kind: Seq<char>, q: ExploreRequest, r: ExploreAction) -> bool {
    if kind == "outline"@ {
        r == ExploreAction::Outline(
            FileOutlineRequest { path: q.target, project: q.project, group: q.group },
        )
    } else if kind == "similar"@ {
        match numbers::parsed(q.target@, u32::MAX as nat) {
            Some(id) => r == ExploreAction::Similar(
                SimilarChunksRequest {
                    chunk_id: id as u32,
                    limit: q.limit,
                    project: q.project,
                    group: q.group,
                },
            ),
            None => r matches ExploreAction::Unknown(m) && m@ == unknown_text(
                "For similar mode, `target` must be a numeric chunk_id, got: '"@,
                q.target@,
                "'"@,
            ),
        }
    } else {
        r matches ExploreAction::Unknown(m) && m@ == unknown_text(
            "Unknown explore kind '"@,
            kind,
            "'. Use `outline` or `similar`."@,
        )
    }
}

/// The exploration that a request with a kind in lower case stands for.
pub fn explore_action(kind: &str, request: ExploreRequest) -> (r: ExploreAction)
    ensures
        explore_action_of(kind@, request, r),
{
    if str_eq(kind, "outline") {
        ExploreAction::Outline(
            FileOutlineRequest {
                path: request.target,
                project: request.project,
                group: request.group,
            },
        )
    } else if str_eq(kind, "similar") {
        let digits = chars_of(request.target.as_str());
        match parse_number(digits.as_slice(), u32::MAX as u64) {
            Some(id) => ExploreAction::Similar(
                SimilarChunksRequest {
                    chunk_id: id as u32,
                    limit: request.limit,
                    project: request.project,
                    group: request.group,
                },
            ),
            None => ExploreAction::Unknown(
                unknown(
                    "For similar mode, `target` must be a numeric chunk_id, got: '",
                    request.target.as_str(),
                    "'",
                ),
            ),
        }
    } else {
        ExploreAction::Unknown(
            unknown("Unknown explore kind '", kind, "'. Use `outline` or `similar`."),
        )
    }
}

/// The exploration that a request stands for; an outline where it names no kind.
pub fn dispatch_explore(request: ExploreRequest) -> (r: ExploreAction)
    ensures
        explore_action_of(
            chars::in_lower_case(types::text_or(request.kind, "outline"@)),
            request,
            r,
        ),
{
    let kind = lowered(&request.kind, "outline");
    explore_action(kind.as_str(), request)
}

// ---------------------------------------------------------------------------
// status
// ---------------------------------------------------------------------------

/// What the tool `status` does.
#[derive(Debug)]
pub enum StatusAction {
    Index { project: Option<String>, group: Option<String> },
    Projects,
    Unknown(String),
}

/// The action that belongs to a request and a kind in lower case.
pub open spec fn status_action_of(kind: Seq<char>, q: StatusRequest, r: StatusAction) -> bool {
    if kind == "index"@ {
        r == (StatusAction::Index { project: q.project, group: q.group })
    } else if kind == "projects"@ {
        r is Projects
    } else {
        r matches StatusAction::Unknown(m) && m@ == unknown_text(
            "Unknown status kind '"@,
            kind,
            "'. Use `index` or `projects`."@,
        )
    }
}

/// The report that a request with a kind in lower case stands for.
pub fn status_action(kind: &str, request: StatusRequest) -> (r: StatusAction)
    ensures
        status_action_of(kind@, request, r),
{
    if str_eq(kind, "index") {
        StatusAction::Index { project: request.project, group: request.group }
    } else if str_eq(kind, "projects") {
        StatusAction::Projects
    } else {
        StatusAction::Unknown(
            unknown("Unknown status kind '", kind, "'. Use `index` or `projects`."),
        )
    }
}

/// The report that a request stands for; on the index where it names no kind.
pub fn dispatch_status(request: StatusRequest) -> (r: StatusAction)
    ensures
        status_action_of(
            chars::in_lower_case(types::text_or(request.kind, "index"@)),
            request,
            r,
        ),
{
    let kind = lowered(&request.kind, "index");
    status_action(kind.as_str(), request)
}

// ---------------------------------------------------------------------------
// Requests that are not served
// ---------------------------------------------------------------------------

/// Why a tool answers with a message at once: the request names no repository
/// that can be used, or it would go to the local database and there is none.
pub fn refusal(
    routing_error: Option<String>,
    needs_local_db: bool,
    database_error: Option<String>,
) -> (r: Option<String>)
    ensures
        r == (match routing_error {
            Some(e) => Some(e),
            None => if needs_local_db {
                database_error
            } else {
                None
            },
        }),
{
    match routing_error {
        Some(e) => Some(e),
        None => if needs_local_db {
            database_error
        } else {
            None
        },
    }
}

/// Why an outline is refused: it is of one repository only.
pub fn outline_refusal(is_multi: bool) -> (r: Option<String>)
    ensures
        r is Some == is_multi,
        r matches Some(m) ==> m@
            == "Tool 'explore' operates on a single repo. Use 'project' instead of 'group'."@,
{
    if is_multi {
        Some(owned("Tool 'explore' operates on a single repo. Use 'project' instead of 'group'."))
    } else {
        None
    }
}

/// What a tool could not do.
#[derive(Clone, Copy, PartialEq, Eq, Structural, Debug)]
pub enum ToolStep {
    Search,
    OpenDatabase,
    ReadOutline,
    ReadImports,
    ResolveDependents,
    FindSimilar,
}

impl ToolStep {
    /// How the message of a failure begins.
    pub open spec fn failure(self) -> Seq<char> {
        match self {
            ToolStep::Search => "Error searching: "@,
            ToolStep::OpenDatabase => "Error opening database: "@,
            ToolStep::ReadOutline => "Error reading outline: "@,
            ToolStep::ReadImports => "Error reading imports: "@,
            ToolStep::ResolveDependents => "Error resolving dependents: "@,
            ToolStep::FindSimilar => "Error finding similar chunks: "@,
        }
    }
}

/// What a tool answers where a step fails in a single repository.
pub fn tool_failure(step: ToolStep, error: &str) -> (r: String)
    ensures
        r@ == step.failure() + error@,
{
    match step {
        ToolStep::Search => concat("Error searching: ", error),
        ToolStep::OpenDatabase => concat("Error opening database: ", error),
        ToolStep::ReadOutline => concat("Error reading outline: ", error),
        ToolStep::ReadImports => concat("Error reading imports: ", error),
        ToolStep::ResolveDependents => concat("Error resolving dependents: ", error),
        ToolStep::FindSimilar => concat("Error finding similar chunks: ", error),
    }
}

/// A semantic search is asked with the query, the limit, the form, the filter, the
/// semantic mode and the scope of the request, a literal one with the query, how
/// it is to be read, the limit, the filters, the format and the scope. Any other
/// mode is named in the answer.
pub proof fn law_search_is_dispatched(mode: Seq<char>, q: SearchRequest, r: SearchAction)
    requires
        search_action_of(mode, q, r),
    ensures
        r is Semantic <==> mode == "semantic"@,
        r is Literal <==> mode == "literal"@,
        r matches SearchAction::Semantic(s) ==> s.query == q.query && s.limit == q.limit && s.compact
            == q.compact && s.filter_path == q.filter_path && s.mode == q.semantic_mode && s.project
            == q.project && s.group == q.group,
        r matches SearchAction::Literal(s) ==> s.query == q.query && s.regex == q.regex && s.phrase
            == q.phrase && s.limit == q.limit && s.file_glob == q.file_glob && s.language
            == q.language && s.format == q.format && s.project == q.project && s.group == q.group,
        r matches SearchAction::Unknown(m) ==> m@ == "Unknown search mode '"@ + mode
            + "'. Use `semantic` or `literal`."@,
{
    reveal_strlit("semantic");
    reveal_strlit("literal");
    assert("semantic"@.len() != "literal"@.len());
}

/// Each kind of find is asked for the symbol of the request, or the path that
/// stands in its place, within its limit and scope. Any other kind is named in the
/// answer.
pub proof fn law_find_is_dispatched(kind: Seq<char>, q: FindRequest, r: FindAction)
    requires
        find_action_of(kind, q, r),
    ensures
        r is Definition <==> kind == "definition"@,
        r is Usages <==> kind == "usages"@,
        r is Imports <==> kind == "imports"@,
        r is Dependents <==> kind == "dependents"@,
        r matches FindAction::Definition(s) ==> s.symbol == q.symbol && s.kind == q.definition_kind
            && s.limit == q.limit && s.project == q.project && s.group == q.group,
        r matches FindAction::Usages(s) ==> s.symbol == q.symbol && s.limit == q.limit && s.project
            == q.project && s.group == q.group,
        r matches FindAction::Imports(s) ==> s.path == q.symbol && s.project == q.project && s.group
            == q.group,
        r matches FindAction::Dependents(s) ==> s.symbol_or_path == q.symbol && s.limit == q.limit
            && s.project == q.project && s.group == q.group,
        r matches FindAction::Unknown(m) ==> m@ == "Unknown find kind '"@ + kind
            + "'. Use `definition`, `usages`, `imports`, or `dependents`."@,
{
    reveal_strlit("definition");
    reveal_strlit("usages");
    reveal_strlit("imports");
    reveal_strlit("dependents");
    assert("definition"@[1] == 'e');
    assert("definition"@[2] == 'f' && "dependents"@[2] == 'p');
    assert("usages"@.len() == 6 && "imports"@.len() == 7 && "definition"@.len() == 10
        && "dependents"@.len() == 10);
}

/// An outline is of the file that is the target, and similar chunks are those of
/// the chunk whose id is the target in decimal. A target that is no such number,
/// and any other kind, is named in the answer.
pub proof fn law_explore_is_dispatched(kind: Seq<char>, q: ExploreRequest, r: ExploreAction)
    requires
        explore_action_of(kind, q, r),
    ensures
        r is Outline <==> kind == "outline"@,
        r is Similar <==> kind == "similar"@ && numbers::parsed(q.target@, u32::MAX as nat) is Some,
        r matches ExploreAction::Outline(s) ==> s.path == q.target && s.project == q.project
            && s.group == q.group,
        r matches ExploreAction::Similar(s) ==> numbers::parsed(q.target@, u32::MAX as nat)
            == Some(s.chunk_id as nat) && s.limit == q.limit && s.project == q.project && s.group
            == q.group,
        r matches ExploreAction::Unknown(m) ==> if kind == "similar"@ {
            m@ == "For similar mode, `target` must be a numeric chunk_id, got: '"@ + q.target@ + "'"@
        } else {
            m@ == "Unknown explore kind '"@ + kind + "'. Use `outline` or `similar`."@
        },
{
    reveal_strlit("outline");
    reveal_strlit("similar");
    assert("outline"@[0] != "similar"@[0]);
}

/// A status of the index is within the scope of the request, and any other kind
/// than that and the projects is named in the answer.
pub proof fn law_status_is_dispatched(kind: Seq<char>, q: StatusRequest, r: StatusAction)
    requires
        status_action_of(kind, q, r),
    ensures
        r is Index <==> kind == "index"@,
        r is Projects <==> kind == "projects"@,
        r is Index ==> r->project == q.project && r->group == q.group,
        r matches StatusAction::Unknown(m) ==> m@ == "Unknown status kind '"@ + kind
            + "'. Use `index` or `projects`."@,
{
    reveal_strlit("index");
    reveal_strlit("projects");
    assert("index"@.len() != "projects"@.len());
}

/// A failure says what was done.
pub proof fn law_failures()
    ensures
        ToolStep::Search.failure() == "Error searching: "@,
        ToolStep::OpenDatabase.failure() == "Error opening database: "@,
        ToolStep::ReadOutline.failure() == "Error reading outline: "@,
        ToolStep::ReadImports.failure() == "Error reading imports: "@,
        ToolStep::ResolveDependents.failure() == "Error resolving dependents: "@,
        ToolStep::FindSimilar.failure() == "Error finding similar chunks: "@,
{
}

/// A tool without a kind is asked for the usual one, and the case of a kind does
/// not matter.
pub proof fn law_usual_kinds(
    search: SearchRequest,
    s: SearchAction,
    find: FindRequest,
    f: FindAction,
    explore: ExploreRequest,
    e: ExploreAction,
    status: StatusRequest,
    t: StatusAction,
)
    requires
        call_ensures(dispatch_search, (search,), s),
        call_ensures(dispatch_find, (find,), f),
        call_ensures(dispatch_explore, (explore,), e),
        call_ensures(dispatch_status, (status,), t),
    ensures
        search.mode is None ==> s is Semantic && s->Semantic_0.query == search.query,
        search.mode is Some && chars::in_lower_case(search.mode->0@) == "literal"@ ==> s is Literal
            && s->Literal_0.query == search.query,
        find.kind is None ==> f is Definition && f->Definition_0.symbol == find.symbol,
        find.kind is Some && chars::in_lower_case(find.kind->0@) == "usages"@ ==> f is Usages
            && f->Usages_0.symbol == find.symbol,
        explore.kind is None ==> e is Outline && e->Outline_0.path == explore.target,
        status.kind is None ==> t is Index && t->project == status.project,
        status.kind is Some && chars::in_lower_case(status.kind->0@) == "projects"@ ==> t is Projects,
{
    reveal_strlit("semantic");
    reveal_strlit("definition");
    reveal_strlit("outline");
    reveal_strlit("index");
    lemma_lower("semantic"@);
    lemma_lower("definition"@);
    lemma_lower("outline"@);
    lemma_lower("index"@);
    law_search_is_dispatched(
        chars::in_lower_case(types::text_or(search.mode, "semantic"@)),
        search,
        s,
    );
    law_find_is_dispatched(chars::in_lower_case(types::text_or(find.kind, "definition"@)), find, f);
    law_explore_is_dispatched(
        chars::in_lower_case(types::text_or(explore.kind, "outline"@)),
        explore,
        e,
    );
    law_status_is_dispatched(chars::in_lower_case(types::text_or(status.kind, "index"@)), status, t);
}

/// A word of the letters `a` to `z` is its own lower case.
proof fn lemma_lower(s: Seq<char>)
    requires
        s.len() > 0,
        forall|i: int| 0 <= i < s.len() ==> 'a' <= #[trigger] s[i] <= 'z',
    ensures
        chars::in_lower_case(s) == s,
{
    assert forall|i: int| 0 <= i < s.len() implies (#[trigger] s[i]) as u32 <= 0x7f by {}
    let l = chars::in_lower_case(s);
    assert forall|i: int| 0 <= i < s.len() implies l.len() == s.len() && l[i] == s[i] by {
        assert('a' <= s[i] <= 'z');
        chars::law_ascii(s, i);
    }
    chars::law_ascii(s, 0);
    assert(l =~= s);
}

/// A tool is refused for its route first, and for its database only where it
/// needs the local one. An outline is refused for several repositories.
pub proof fn law_refusals(
    routing_error: Option<String>,
    needs_local_db: bool,
    database_error: Option<String>,
    r: Option<String>,
    is_multi: bool,
    o: Option<String>,
)
    requires
        call_ensures(refusal, (routing_error, needs_local_db, database_error), r),
        call_ensures(outline_refusal, (is_multi,), o),
    ensures
        routing_error is Some ==> r == routing_error,
        routing_error is None && needs_local_db ==> r == database_error,
        routing_error is None && !needs_local_db ==> r is None,
        o is Some <==> is_multi,
{
}

} // verus!
