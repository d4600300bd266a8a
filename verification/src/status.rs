//! The state of indexes and repositories, as the status tool reports it.
use vstd::prelude::*;

use crate::numbers;
use crate::numbers::to_decimal;
use crate::paths;
use crate::paths::join;
use crate::text::{concat, owned, string_of};
use crate::types;
use crate::types::IndexStatusResponse;

verus! {

/// The name of the database directory of a project.
pub const DB_DIR_NAME: &'static str = ".codesearch.db";

/// The dimensions of an embedding, where nothing else is known.
pub const DEFAULT_EMBEDDING_DIMENSIONS: usize = 384;

/// A number as text.
pub fn number(n: usize) -> (r: String)
    ensures
        r@ == numbers::decimal(n as nat),
{
    string_of(to_decimal(n as u64).as_slice())
}

/// How the server runs, for diagnostics.
pub fn mcp_mode(serving: bool) -> (r: Option<String>)
    ensures
        types::opt_text(r) == Some(
            if serving {
                "serve_hub"@
            } else {
                "stdio"@
            },
        ),
{
    if serving {
        Some(owned("serve_hub"))
    } else {
        Some(owned("stdio"))
    }
}

// ---------------------------------------------------------------------------
// The status of an index
// ---------------------------------------------------------------------------

/// Whether the database of a repository is in use.
#[derive(Clone, Copy, PartialEq, Eq, Structural, Debug)]
pub enum RepoState {
    Open,
    Warm,
    Closed,
}

/// How many of the states are `s`.
pub open spec fn count_of(states: Seq<RepoState>, s: RepoState) -> nat
    decreases states.len(),
{
    if states.len() == 0 {
        0
    } else {
        count_of(states.drop_last(), s) + (if states.last() == s {
            1nat
        } else {
            0
        })
    }
}

fn count(states: &Vec<RepoState>, s: RepoState) -> (r: usize)
    ensures
        r == count_of(states@, s),
        r <= states.len(),
{
    let mut n: usize = 0;
    let mut i: usize = 0;
    while i < states.len()
        invariant
            i <= states.len(),
            n <= i,
            n == count_of(states@.take(i as int), s),
        decreases states.len() - i,
    {
        proof {
            assert(states@.take(i + 1).drop_last() =~= states@.take(i as int));
        }
        if states[i] == s {
            n += 1;
        }
        i += 1;
    }
    proof {
        assert(states@.take(states@.len() as int) =~= states@);
    }
    n
}

/// The word is one of those that tell the state of an index.
pub open spec fn is_status_word(word: Seq<char>) -> bool {
    word == "not_indexed"@ || word == "building"@ || word == "ready"@ || word == "error"@
}

/// The counts of a server in words.
pub open spec fn serve_message(repos: nat, groups: nat, open: nat, warm: nat, closed: nat) -> Seq<
    char,
> {
    numbers::decimal(repos) + " repo(s) registered, "@ + numbers::decimal(groups)
        + " group(s). Open: "@ + numbers::decimal(open) + ", Warm: "@ + numbers::decimal(warm)
        + ", Closed: "@ + numbers::decimal(closed) + "."@
}

/// The status of a server with many repositories, without opening any of them.
pub fn serve_status(
    repo_count: usize,
    group_count: usize,
    states: &Vec<RepoState>,
    model: &str,
) -> (r: IndexStatusResponse)
    ensures
        ({
            let open = count_of(states@, RepoState::Open);
            let warm = count_of(states@, RepoState::Warm);
            &&& r.indexed == (open + warm > 0)
            &&& r.status@ == (if open + warm > 0 {
                "ready"@
            } else {
                "not_indexed"@
            })
            &&& r.status_message@ == serve_message(
                repo_count as nat,
                group_count as nat,
                open,
                warm,
                count_of(states@, RepoState::Closed),
            )
        }),
        r.total_chunks == 0,
        r.total_files == 0,
        r.model@ == model@,
        r.dimensions == 0,
        r.max_chunk_id == 0,
        r.db_path@ == "("@ + numbers::decimal(repo_count as nat) + " repos)"@,
        r.project_path@ == "serve mode — "@ + numbers::decimal(repo_count as nat) + " repo(s)"@,
        r.error_message is None,
        types::opt_text(r.mode) == Some("serve_hub"@),
        is_status_word(r.status@),
{
    let open = count(states, RepoState::Open);
    let warm = count(states, RepoState::Warm);
    let closed = count(states, RepoState::Closed);
    let active = open > 0 || warm > 0;
    let status = if active {
        owned("ready")
    } else {
        owned("not_indexed")
    };
    let repos = number(repo_count);
    let a = concat(repos.as_str(), " repo(s) registered, ");
    let b = concat(a.as_str(), number(group_count).as_str());
    let c = concat(b.as_str(), " group(s). Open: ");
    let d = concat(c.as_str(), number(open).as_str());
    let e = concat(d.as_str(), ", Warm: ");
    let f = concat(e.as_str(), number(warm).as_str());
    let g = concat(f.as_str(), ", Closed: ");
    let h = concat(g.as_str(), number(closed).as_str());
    let message = concat(h.as_str(), ".");
    IndexStatusResponse {
        indexed: active,
        status,
        status_message: message,
        total_chunks: 0,
        total_files: 0,
        model: owned(model),
        dimensions: 0,
        max_chunk_id: 0,
        db_path: concat(concat("(", repos.as_str()).as_str(), " repos)"),
        project_path: concat(concat("serve mode — ", repos.as_str()).as_str(), " repo(s)"),
        error_message: None,
        mode: mcp_mode(true),
    }
}

/// What a store says of itself.
#[derive(Clone, Copy, PartialEq, Eq, Structural, Debug)]
pub struct StoreStats {
    pub total_chunks: usize,
    pub total_files: usize,
    pub max_chunk_id: u32,
    pub dimensions: usize,
    pub indexed: bool,
}

/// The chunks of all stores that answered.
pub open spec fn sum_chunks(stats: Seq<Option<StoreStats>>) -> nat
    decreases stats.len(),
{
    if stats.len() == 0 {
        0
    } else {
        sum_chunks(stats.drop_last()) + (match stats.last() {
            Some(s) => s.total_chunks as nat,
            None => 0,
        })
    }
}

/// The files of all stores that answered.
pub open spec fn sum_files(stats: Seq<Option<StoreStats>>) -> nat
    decreases stats.len(),
{
    if stats.len() == 0 {
        0
    } else {
        sum_files(stats.drop_last()) + (match stats.last() {
            Some(s) => s.total_files as nat,
            None => 0,
        })
    }
}

/// The highest chunk id of all stores that answered.
pub open spec fn max_id(stats: Seq<Option<StoreStats>>) -> u32
    decreases stats.len(),
{
    if stats.len() == 0 {
        0
    } else {
        let before = max_id(stats.drop_last());
        match stats.last() {
            Some(s) => if s.max_chunk_id > before {
                s.max_chunk_id
            } else {
                before
            },
            None => before,
        }
    }
}

/// The dimensions that the last store reports that knows them.
pub open spec fn last_dimensions(stats: Seq<Option<StoreStats>>) -> usize
    decreases stats.len(),
{
    if stats.len() == 0 {
        0
    } else {
        match stats.last() {
            Some(s) => if s.dimensions > 0 {
                s.dimensions
            } else {
                last_dimensions(stats.drop_last())
            },
            None => last_dimensions(stats.drop_last()),
        }
    }
}

/// Every store answered, and is indexed.
pub open spec fn all_indexed(stats: Seq<Option<StoreStats>>) -> bool {
    forall|i: int| 0 <= i < stats.len() ==> (#[trigger] stats[i]) is Some && stats[i]->0.indexed
}

proof fn lemma_sums_grow(stats: Seq<Option<StoreStats>>, n: int)
    requires
        0 <= n <= stats.len(),
    ensures
        sum_chunks(stats.take(n)) <= sum_chunks(stats),
        sum_files(stats.take(n)) <= sum_files(stats),
    decreases stats.len() - n,
{
    if n == stats.len() {
        assert(stats.take(n) =~= stats);
    } else {
        lemma_sums_grow(stats, n + 1);
        assert(stats.take(n + 1).drop_last() =~= stats.take(n));
    }
}

/// The status of the stores of a group, taken together; `None` stands for a
/// store that gave no answer.
pub fn group_status(stats: &Vec<Option<StoreStats>>, model: &str, serving: bool) -> (r:
    IndexStatusResponse)
    requires
        sum_chunks(stats@) <= usize::MAX,
        sum_files(stats@) <= usize::MAX,
    ensures
        r.indexed == all_indexed(stats@),
        r.total_chunks == sum_chunks(stats@),
        r.total_files == sum_files(stats@),
        r.max_chunk_id == max_id(stats@),
        r.dimensions == last_dimensions(stats@),
        r.model@ == model@,
        r.status@ == (if sum_chunks(stats@) == 0 {
            "building"@
        } else {
            "ready"@
        }),
        r.status_message@ == (if sum_chunks(stats@) == 0 {
            "Index is being built across "@ + numbers::decimal(stats@.len())
                + " repo(s). Searches may fail until indexing completes."@
        } else {
            "Index is ready for searching across "@ + numbers::decimal(stats@.len())
                + " repo(s)."@
        }),
        r.db_path@ == "("@ + numbers::decimal(stats@.len()) + " repos)"@,
        r.project_path@ == "group with "@ + numbers::decimal(stats@.len()) + " repo(s)"@,
        r.error_message is None,
        types::opt_text(r.mode) == Some(
            if serving {
                "serve_hub"@
            } else {
                "stdio"@
            },
        ),
        is_status_word(r.status@),
{
    let mut total_chunks: usize = 0;
    let mut total_files: usize = 0;
    let mut max_chunk_id: u32 = 0;
    let mut dimensions: usize = 0;
    let mut indexed = true;
    let mut i: usize = 0;
    while i < stats.len()
        invariant
            i <= stats.len(),
            sum_chunks(stats@) <= usize::MAX,
            sum_files(stats@) <= usize::MAX,
            total_chunks == sum_chunks(stats@.take(i as int)),
            total_files == sum_files(stats@.take(i as int)),
            max_chunk_id == max_id(stats@.take(i as int)),
            dimensions == last_dimensions(stats@.take(i as int)),
            indexed == (forall|j: int|
                0 <= j < i ==> (#[trigger] stats@[j]) is Some && stats@[j]->0.indexed),
        decreases stats.len() - i,
    {
        proof {
            assert(stats@.take(i + 1).drop_last() =~= stats@.take(i as int));
            assert(stats@.take(i + 1).last() == stats@[i as int]);
            lemma_sums_grow(stats@, i + 1);
        }
        match stats[i] {
            Some(s) => {
                total_chunks += s.total_chunks;
                total_files += s.total_files;
                if s.max_chunk_id > max_chunk_id {
                    max_chunk_id = s.max_chunk_id;
                }
                if s.dimensions > 0 {
                    dimensions = s.dimensions;
                }
                if !s.indexed {
                    assert(!(stats@[i as int]->0.indexed));
                    indexed = false;
                }
            },
            None => {
                assert(stats@[i as int] is None);
                indexed = false;
            },
        }
        i += 1;
    }
    proof {
        assert(stats@.take(stats@.len() as int) =~= stats@);
    }
    let n = number(stats.len());
    let building = total_chunks == 0;
    let message = if building {
        concat(
            concat("Index is being built across ", n.as_str()).as_str(),
            " repo(s). Searches may fail until indexing completes.",
        )
    } else {
        concat(concat("Index is ready for searching across ", n.as_str()).as_str(), " repo(s).")
    };
    IndexStatusResponse {
        indexed,
        status: if building {
            owned("building")
        } else {
            owned("ready")
        },
        status_message: message,
        total_chunks,
        total_files,
        model: owned(model),
        dimensions,
        max_chunk_id,
        db_path: concat(concat("(", n.as_str()).as_str(), " repos)"),
        project_path: concat(concat("group with ", n.as_str()).as_str(), " repo(s)"),
        error_message: None,
        mode: mcp_mode(serving),
    }
}

/// What is known of a single index.
#[derive(Debug)]
pub enum IndexProbe {
    /// There is no database.
    Missing,
    /// The database cannot be read; with the reason.
    Failed(String),
    /// The database says this of itself.
    Read(StoreStats),
}

/// The status of a single index.
pub fn single_status(
    probe: &IndexProbe,
    model: &str,
    db_path: &str,
    project_path: &str,
    serving: bool,
) -> (r: IndexStatusResponse)
    ensures
        match *probe {
            IndexProbe::Missing => !r.indexed && r.status@ == "not_indexed"@
                && r.status_message@
                == "No index found. Run 'codesearch index' or start with --create-index=true to automatically create one."@
                && r.total_chunks == 0 && r.total_files == 0 && r.model@ == "none"@ && r.dimensions
                == 0 && r.max_chunk_id == 0 && r.error_message is None,
            IndexProbe::Failed(e) => !r.indexed && r.status@ == "error"@ && r.status_message@ == e@
                && r.total_chunks == 0 && r.total_files == 0 && r.model@ == model@ && r.dimensions
                == 0 && r.max_chunk_id == 0 && types::opt_text(r.error_message) == Some(e@),
            IndexProbe::Read(s) => r.indexed == s.indexed && r.status@ == (if s.total_chunks == 0 {
                "building"@
            } else {
                "ready"@
            }) && r.status_message@ == (if s.total_chunks == 0 {
                "Index is being built in the background. Searches may fail until indexing completes. Please check back in a few minutes."@
            } else {
                "Index is ready for searching."@
            }) && r.total_chunks == s.total_chunks && r.total_files == s.total_files && r.model@
                == model@ && r.dimensions == s.dimensions && r.max_chunk_id == s.max_chunk_id
                && r.error_message is None,
        },
        r.db_path@ == db_path@,
        r.project_path@ == project_path@,
        types::opt_text(r.mode) == Some(
            if serving {
                "serve_hub"@
            } else {
                "stdio"@
            },
        ),
        is_status_word(r.status@),
{
    match probe {
        IndexProbe::Missing => IndexStatusResponse {
            indexed: false,
            status: owned("not_indexed"),
            status_message: owned(
                "No index found. Run 'codesearch index' or start with --create-index=true to automatically create one.",
            ),
            total_chunks: 0,
            total_files: 0,
            model: owned("none"),
            dimensions: 0,
            max_chunk_id: 0,
            db_path: owned(db_path),
            project_path: owned(project_path),
            error_message: None,
            mode: mcp_mode(serving),
        },
        IndexProbe::Failed(e) => IndexStatusResponse {
            indexed: false,
            status: owned("error"),
            status_message: e.clone(),
            total_chunks: 0,
            total_files: 0,
            model: owned(model),
            dimensions: 0,
            max_chunk_id: 0,
            db_path: owned(db_path),
            project_path: owned(project_path),
            error_message: Some(e.clone()),
            mode: mcp_mode(serving),
        },
        IndexProbe::Read(s) => IndexStatusResponse {
            indexed: s.indexed,
            status: if s.total_chunks == 0 {
                owned("building")
            } else {
                owned("ready")
            },
            status_message: if s.total_chunks == 0 {
                owned(
                    "Index is being built in the background. Searches may fail until indexing completes. Please check back in a few minutes.",
                )
            } else {
                owned("Index is ready for searching.")
            },
            total_chunks: s.total_chunks,
            total_files: s.total_files,
            model: owned(model),
            dimensions: s.dimensions,
            max_chunk_id: s.max_chunk_id,
            db_path: owned(db_path),
            project_path: owned(project_path),
            error_message: None,
            mode: mcp_mode(serving),
        },
    }
}

/// What a request is told whose database does not exist.
pub fn missing_database_message(db_path: &str, project_path: &str) -> (r: String)
    ensures
        r@ == "❌ No index database found at: "@ + db_path@
            + "\n\n⚠️  IMPORTANT: This MCP server cannot index the codebase itself. Indexing takes 30-60 seconds and must be done manually.\n\nTo fix this, run the following command in your terminal:\n$ cd "@
            + project_path@
            + "\n$ codesearch index\n\nFor more information about database locations, use the `status` tool with `kind=\"projects\"`."@,
{
    let a = concat("❌ No index database found at: ", db_path);
    let b = concat(
        a.as_str(),
        "\n\n⚠️  IMPORTANT: This MCP server cannot index the codebase itself. Indexing takes 30-60 seconds and must be done manually.\n\nTo fix this, run the following command in your terminal:\n$ cd ",
    );
    let c = concat(b.as_str(), project_path);
    concat(
        c.as_str(),
        "\n$ codesearch index\n\nFor more information about database locations, use the `status` tool with `kind=\"projects\"`.",
    )
}

// ---------------------------------------------------------------------------
// Models
// ---------------------------------------------------------------------------

/// The model and the dimensions that the metadata of a database name.
///
/// `name` and `dimensions` are what the metadata hold, and `inferred` are the
/// dimensions of the named model, where it is known; `readable` says whether
/// there are metadata at all.
pub fn model_metadata(
    readable: bool,
    name: Option<String>,
    dimensions: Option<usize>,
    inferred: Option<usize>,
) -> (r: (String, usize))
    ensures
        r.0@ == (if readable && name is Some {
            name->0@
        } else {
            "unknown"@
        }),
        r.1 == (if readable && dimensions is Some && dimensions->0 > 0 {
            dimensions->0
        } else if readable && inferred is Some {
            inferred->0
        } else {
            DEFAULT_EMBEDDING_DIMENSIONS
        }),
{
    if !readable {
        return (owned("unknown"), DEFAULT_EMBEDDING_DIMENSIONS);
    }
    let model = match name {
        Some(n) => n,
        None => owned("unknown"),
    };
    let dims: usize = match dimensions {
        Some(d) => d,
        None => 0,
    };
    if dims > 0 {
        (model, dims)
    } else {
        match inferred {
            Some(d) => (model, d),
            None => (model, DEFAULT_EMBEDDING_DIMENSIONS),
        }
    }
}

/// The model with which a search runs.
#[derive(Debug)]
pub struct ModelChoice {
    /// The model by its name; the default model where there is none.
    pub name: Option<String>,
    /// The dimensions; those of the model where there are none.
    pub dimensions: Option<usize>,
    pub language: Option<String>,
    /// The metadata name a model that is not known.
    pub unknown: bool,
}

/// What the metadata of a database say of its model.
#[derive(Debug)]
pub struct ModelMetadata {
    pub name: String,
    pub dimensions: usize,
    pub language: Option<String>,
    /// Whether the model is known.
    pub known: bool,
}

/// Chooses the model with which a search runs: the one the user names, or else
/// the one of the index. A name that is not known stands for the default model.
pub fn choose_model(
    wanted: Option<String>,
    wanted_known: bool,
    metadata: Option<ModelMetadata>,
) -> (r: ModelChoice)
    ensures
        match (wanted, metadata) {
            (Some(w), _) => r.name == (if wanted_known {
                Some(w)
            } else {
                None
            }) && r.dimensions is None && r.language is None && !r.unknown,
            (None, Some(m)) => if m.known {
                r.name == Some(m.name) && r.dimensions == Some(m.dimensions) && r.language
                    == m.language && !r.unknown
            } else {
                r.name is None && r.dimensions == Some(DEFAULT_EMBEDDING_DIMENSIONS)
                    && r.language is None && r.unknown
            },
            (None, None) => r.name is None && r.dimensions == Some(DEFAULT_EMBEDDING_DIMENSIONS)
                && r.language is None && !r.unknown,
        },
{
    match wanted {
        Some(w) => ModelChoice {
            name: if wanted_known {
                Some(w)
            } else {
                None
            },
            dimensions: None,
            language: None,
            unknown: false,
        },
        None => match metadata {
            Some(m) => if m.known {
                ModelChoice {
                    name: Some(m.name),
                    dimensions: Some(m.dimensions),
                    language: m.language,
                    unknown: false,
                }
            } else {
                ModelChoice {
                    name: None,
                    dimensions: Some(DEFAULT_EMBEDDING_DIMENSIONS),
                    language: None,
                    unknown: true,
                }
            },
            None => ModelChoice {
                name: None,
                dimensions: Some(DEFAULT_EMBEDDING_DIMENSIONS),
                language: None,
                unknown: false,
            },
        },
    }
}

// ---------------------------------------------------------------------------
// Projects
// ---------------------------------------------------------------------------

/// A registered repository and its index.
#[derive(Debug)]
pub struct RepoInfo {
    pub alias: String,
    pub project_path: String,
    pub database_path: String,
    pub total_chunks: usize,
    pub total_files: usize,
    pub model: String,
    pub lock_status: String,
}

/// What could be learned of the database of a repository.
#[derive(Debug)]
pub enum RepoProbe {
    /// There is no database.
    NotIndexed,
    /// The server has it open; with what it says of itself, where it does, and
    /// the lock that the server reports.
    Served { model: String, stats: Option<StoreStats>, lock: Option<String> },
    /// The server has not opened it.
    Unopened { model: String, locked: bool },
    /// It was opened here; with what it says of itself, where it does.
    Opened { model: String, stats: Option<StoreStats>, locked: bool },
    /// It could not be opened here.
    Unreadable { model: String },
}

impl RepoProbe {
    /// The model, and how the database is locked.
    pub open spec fn summary(&self) -> (Seq<char>, Seq<char>) {
        match *self {
            RepoProbe::NotIndexed => ("not indexed"@, "unknown"@),
            RepoProbe::Served { model, stats, lock } => (
                model@,
                match lock {
                    Some(l) => l@,
                    None => "unknown"@,
                },
            ),
            RepoProbe::Unopened { model, locked } => (
                model@,
                if locked {
                    "locked-externally"@
                } else {
                    "available"@
                },
            ),
            RepoProbe::Opened { model, stats, locked } => (
                model@,
                if locked {
                    "conflicted"@
                } else {
                    "available"@
                },
            ),
            RepoProbe::Unreadable { model } => (model@, "readonly"@),
        }
    }

    /// The chunks and files of the database, where they are known.
    pub open spec fn totals(&self) -> (usize, usize) {
        match *self {
            RepoProbe::Served { model, stats: Some(s), lock } => (s.total_chunks, s.total_files),
            RepoProbe::Opened { model, stats: Some(s), locked } => (s.total_chunks, s.total_files),
            _ => (0, 0),
        }
    }
}

/// What is reported of a repository.
pub fn repo_info(alias: &str, path: &str, probe: &RepoProbe) -> (r: RepoInfo)
    ensures
        r.alias@ == alias@,
        r.project_path@ == path@,
        r.database_path@ == paths::joined(path@, DB_DIR_NAME@),
        r.model@ == probe.summary().0,
        r.lock_status@ == probe.summary().1,
        r.total_chunks == probe.totals().0,
        r.total_files == probe.totals().1,
{
    let (model, lock_status) = match probe {
        RepoProbe::NotIndexed => (owned("not indexed"), owned("unknown")),
        RepoProbe::Served { model, stats, lock } => (
            model.clone(),
            match lock {
                Some(l) => l.clone(),
                None => owned("unknown"),
            },
        ),
        RepoProbe::Unopened { model, locked } => (
            model.clone(),
            if *locked {
                owned("locked-externally")
            } else {
                owned("available")
            },
        ),
        RepoProbe::Opened { model, stats, locked } => (
            model.clone(),
            if *locked {
                owned("conflicted")
            } else {
                owned("available")
            },
        ),
        RepoProbe::Unreadable { model } => (model.clone(), owned("readonly")),
    };
    let stats = match probe {
        RepoProbe::Served { model, stats, lock } => *stats,
        RepoProbe::Opened { model, stats, locked } => *stats,
        _ => None,
    };
    let (total_chunks, total_files) = match stats {
        Some(s) => (s.total_chunks, s.total_files),
        None => (0, 0),
    };
    RepoInfo {
        alias: owned(alias),
        project_path: owned(path),
        database_path: join(path, DB_DIR_NAME),
        total_chunks,
        total_files,
        model,
        lock_status,
    }
}

/// The number of repositories in a state grows by one with each of them, and by
/// nothing with any other.
pub proof fn law_count_of_states(states: Seq<RepoState>, s: RepoState, other: RepoState)
    requires
        other != s,
    ensures
        count_of(Seq::empty(), s) == 0,
        count_of(states.push(s), s) == count_of(states, s) + 1,
        count_of(states.push(other), s) == count_of(states, s),
        count_of(states, RepoState::Open) + count_of(states, RepoState::Warm) + count_of(
            states,
            RepoState::Closed,
        ) == states.len(),
    decreases states.len(),
{
    assert(states.push(s).drop_last() =~= states);
    assert(states.push(other).drop_last() =~= states);
    if states.len() > 0 {
        law_count_of_states(states.drop_last(), s, other);
    }
}

/// The totals of a group are the sums over its stores that could be read.
pub proof fn law_totals_of_a_group(stats: Seq<Option<StoreStats>>, s: StoreStats)
    ensures
        sum_chunks(Seq::empty()) == 0,
        sum_files(Seq::empty()) == 0,
        sum_chunks(stats.push(Some(s))) == sum_chunks(stats) + s.total_chunks,
        sum_files(stats.push(Some(s))) == sum_files(stats) + s.total_files,
        sum_chunks(stats.push(None)) == sum_chunks(stats),
        sum_files(stats.push(None)) == sum_files(stats),
{
    assert(stats.push(Some(s)).drop_last() =~= stats);
    assert(stats.push(None).drop_last() =~= stats);
}

/// The highest id of a group is at least that of each store, and one of theirs or
/// zero.
pub proof fn law_highest_id(stats: Seq<Option<StoreStats>>, i: int)
    ensures
        0 <= i < stats.len() && stats[i] is Some ==> stats[i]->0.max_chunk_id <= max_id(stats),
        max_id(stats) == 0 || exists|j: int|
            0 <= j < stats.len() && (#[trigger] stats[j]) is Some && stats[j]->0.max_chunk_id
                == max_id(stats),
    decreases stats.len(),
{
    if stats.len() > 0 {
        let front = stats.drop_last();
        law_highest_id(front, i);
        if 0 <= i < front.len() {
            assert(front[i] == stats[i]);
        }
        assert(stats[stats.len() - 1] == stats.last());
        if max_id(front) != 0 {
            let j = choose|j: int|
                0 <= j < front.len() && (#[trigger] front[j]) is Some && front[j]->0.max_chunk_id
                    == max_id(front);
            assert(stats[j] is Some && stats[j]->0.max_chunk_id == max_id(front));
        }
    }
}

/// The dimensions of a group are those of its last store that has some.
pub proof fn law_dimensions_of_a_group(stats: Seq<Option<StoreStats>>, i: int)
    requires
        -1 <= i < stats.len(),
        forall|j: int|
            i < j < stats.len() ==> (#[trigger] stats[j]) is None || stats[j]->0.dimensions == 0,
    ensures
        0 <= i && stats[i] is Some && stats[i]->0.dimensions > 0 ==> last_dimensions(stats)
            == stats[i]->0.dimensions,
        i == -1 ==> last_dimensions(stats) == 0,
    decreases stats.len(),
{
    if i < stats.len() - 1 {
        let front = stats.drop_last();
        assert(stats[stats.len() - 1] is None || stats[stats.len() - 1]->0.dimensions == 0);
        assert forall|j: int| i < j < front.len() implies (#[trigger] front[j]) is None
            || front[j]->0.dimensions == 0 by {
            assert(front[j] == stats[j]);
        }
        law_dimensions_of_a_group(front, i);
        if 0 <= i {
            assert(front[i] == stats[i]);
        }
    }
}

/// A group is indexed only where every store could be read and is indexed.
pub proof fn law_indexed_group(stats: Seq<Option<StoreStats>>, i: int)
    requires
        0 <= i < stats.len(),
    ensures
        stats[i] is None ==> !all_indexed(stats),
        stats[i] is Some && !stats[i]->0.indexed ==> !all_indexed(stats),
        (forall|j: int| 0 <= j < stats.len() ==> (#[trigger] stats[j]) is Some && stats[j]->0.indexed)
            ==> all_indexed(stats),
{
}

/// What is said of a repository: its model, and a word for its lock. A repository
/// that was opened or is served has the totals of its store, any other none.
pub proof fn law_repository_summary(
    model: String,
    stats: StoreStats,
    lock: String,
    any: Option<StoreStats>,
)
    ensures
        RepoProbe::NotIndexed.summary() == ("not indexed"@, "unknown"@),
        (RepoProbe::Served { model, stats: any, lock: Some(lock) }).summary() == (model@, lock@),
        (RepoProbe::Served { model, stats: any, lock: None }).summary() == (model@, "unknown"@),
        (RepoProbe::Unopened { model, locked: true }).summary() == (model@, "locked-externally"@),
        (RepoProbe::Unopened { model, locked: false }).summary() == (model@, "available"@),
        (RepoProbe::Opened { model, stats: any, locked: true }).summary() == (
            model@,
            "conflicted"@,
        ),
        (RepoProbe::Opened { model, stats: any, locked: false }).summary() == (
            model@,
            "available"@,
        ),
        (RepoProbe::Unreadable { model }).summary() == (model@, "readonly"@),
        (RepoProbe::Served { model, stats: Some(stats), lock: Some(lock) }).totals() == (
            stats.total_chunks,
            stats.total_files,
        ),
        (RepoProbe::Served { model, stats: Some(stats), lock: None }).totals() == (
            stats.total_chunks,
            stats.total_files,
        ),
        (RepoProbe::Opened { model, stats: Some(stats), locked: true }).totals() == (
            stats.total_chunks,
            stats.total_files,
        ),
        (RepoProbe::Opened { model, stats: Some(stats), locked: false }).totals() == (
            stats.total_chunks,
            stats.total_files,
        ),
        (RepoProbe::Unopened { model, locked: true }).totals() == (0usize, 0usize),
        RepoProbe::NotIndexed.totals() == (0usize, 0usize),
        (RepoProbe::Unreadable { model }).totals() == (0usize, 0usize),
{
}

/// The message of a server gives the numbers of its repositories and groups and
/// of the repositories in each state.
pub proof fn law_message_of_a_server(repos: nat, groups: nat, open: nat, warm: nat, closed: nat)
    ensures
        ({
            let m = serve_message(repos, groups, open, warm, closed);
            let head = numbers::decimal(repos) + " repo(s) registered, "@ + numbers::decimal(groups)
                + " group(s). Open: "@ + numbers::decimal(open);
            let tail = ", Warm: "@ + numbers::decimal(warm) + ", Closed: "@ + numbers::decimal(closed)
                + "."@;
            m == head + tail
        }),
        DB_DIR_NAME@ == ".codesearch.db"@,
        DEFAULT_EMBEDDING_DIMENSIONS == 384,
        is_status_word("not_indexed"@) && is_status_word("building"@) && is_status_word("ready"@)
            && is_status_word("error"@),
{
    assert(serve_message(repos, groups, open, warm, closed) =~= (numbers::decimal(repos)
        + " repo(s) registered, "@ + numbers::decimal(groups) + " group(s). Open: "@
        + numbers::decimal(open)) + (", Warm: "@ + numbers::decimal(warm) + ", Closed: "@
        + numbers::decimal(closed) + "."@));
}

/// The status of a server: it is ready where a repository is open or warm.
pub proof fn law_status_of_a_server(
    repo_count: usize,
    group_count: usize,
    states: &Vec<RepoState>,
    model: &str,
    r: IndexStatusResponse,
)
    requires
        call_ensures(serve_status, (repo_count, group_count, states, model), r),
    ensures
        r.indexed <==> count_of(states@, RepoState::Closed) < states@.len(),
        r.indexed ==> r.status@ == "ready"@,
        !r.indexed ==> r.status@ == "not_indexed"@,
        r.model@ == model@,
        r.mode is Some && r.mode->0@ == "serve_hub"@,
        r.status_message@ == serve_message(
            repo_count as nat,
            group_count as nat,
            count_of(states@, RepoState::Open),
            count_of(states@, RepoState::Warm),
            count_of(states@, RepoState::Closed),
        ),
{
    law_count_of_states(states@, RepoState::Open, RepoState::Warm);
}

/// The status of one index: none, an error, one that is being built or one that
/// is ready, with what was read of it.
pub proof fn law_status_of_an_index(
    probe: &IndexProbe,
    model: &str,
    db_path: &str,
    project_path: &str,
    serving: bool,
    r: IndexStatusResponse,
)
    requires
        call_ensures(single_status, (probe, model, db_path, project_path, serving), r),
    ensures
        probe is Missing ==> r.status@ == "not_indexed"@ && !r.indexed && r.error_message is None,
        probe is Failed ==> r.status@ == "error"@ && !r.indexed && r.error_message is Some,
        *probe matches IndexProbe::Failed(e) ==> r.error_message->0@ == e@ && r.status_message@ == e@,
        *probe matches IndexProbe::Read(s) ==> r.indexed == s.indexed && r.total_chunks
            == s.total_chunks && r.total_files == s.total_files && r.dimensions == s.dimensions
            && r.max_chunk_id == s.max_chunk_id && r.model@ == model@,
        *probe matches IndexProbe::Read(s) ==> (s.total_chunks == 0 ==> r.status@ == "building"@) && (
        s.total_chunks > 0 ==> r.status@ == "ready"@),
        r.db_path@ == db_path@,
        r.project_path@ == project_path@,
        serving ==> r.mode is Some && r.mode->0@ == "serve_hub"@,
        !serving ==> r.mode is Some && r.mode->0@ == "stdio"@,
{
}

/// The model of a search: the one that is wanted where it is known, else the one
/// of the index where that is, else the default with 384 dimensions.
pub proof fn law_model_of_a_search(
    wanted: Option<String>,
    wanted_known: bool,
    metadata: Option<ModelMetadata>,
    r: ModelChoice,
)
    requires
        call_ensures(choose_model, (wanted, wanted_known, metadata), r),
    ensures
        wanted is Some && wanted_known ==> r.name == wanted,
        wanted is Some && !wanted_known ==> r.name is None,
        wanted is None && metadata is Some && metadata->0.known ==> r.name == Some(metadata->0.name)
            && r.dimensions == Some(metadata->0.dimensions) && r.language == metadata->0.language,
        wanted is None && metadata is Some && !metadata->0.known ==> r.name is None && r.dimensions
            == Some(384usize),
        wanted is None && metadata is None ==> r.name is None && r.dimensions == Some(384usize),
        r.unknown <==> wanted is None && metadata is Some && !metadata->0.known,
{
}

/// The model that metadata name, with the dimensions that they give, those that
/// follow from the name, or 384.
pub proof fn law_model_of_the_index(
    readable: bool,
    name: Option<String>,
    dimensions: Option<usize>,
    inferred: Option<usize>,
    r: (String, usize),
)
    requires
        call_ensures(model_metadata, (readable, name, dimensions, inferred), r),
    ensures
        !readable ==> r.0@ == "unknown"@ && r.1 == 384,
        readable && name is Some ==> r.0@ == name->0@,
        readable && name is None ==> r.0@ == "unknown"@,
        readable && dimensions is Some && dimensions->0 > 0 ==> r.1 == dimensions->0,
        readable && dimensions is None && inferred is Some ==> r.1 == inferred->0,
        readable && dimensions == Some(0usize) && inferred is Some ==> r.1 == inferred->0,
        readable && dimensions is None && inferred is None ==> r.1 == 384,
{
}

/// The status of a group: the totals of its stores, being built while there are
/// no chunks.
pub proof fn law_status_of_a_group(
    stats: &Vec<Option<StoreStats>>,
    model: &str,
    serving: bool,
    r: IndexStatusResponse,
)
    requires
        sum_chunks(stats@) <= usize::MAX,
        sum_files(stats@) <= usize::MAX,
        call_ensures(group_status, (stats, model, serving), r),
    ensures
        r.total_chunks == sum_chunks(stats@) && r.total_files == sum_files(stats@),
        r.max_chunk_id == max_id(stats@) && r.dimensions == last_dimensions(stats@),
        r.indexed == all_indexed(stats@),
        r.status@ == "building"@ <==> r.total_chunks == 0,
        r.status@ == "ready"@ <==> r.total_chunks > 0,
        r.error_message is None,
{
    reveal_strlit("building");
    reveal_strlit("ready");
    assert("building"@.len() != "ready"@.len());
}

/// A repository is listed under its alias and path, with its database below it.
pub proof fn law_listed_repository(alias: &str, path: &str, probe: &RepoProbe, r: RepoInfo)
    requires
        call_ensures(repo_info, (alias, path, probe), r),
    ensures
        r.alias@ == alias@,
        r.project_path@ == path@,
        r.database_path@ == paths::joined(path@, ".codesearch.db"@),
        (r.model@, r.lock_status@) == probe.summary(),
        (r.total_chunks, r.total_files) == probe.totals(),
{
}

} // verus!
