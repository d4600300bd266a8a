//! How the server starts: its mode, its database, and its background work.
use vstd::prelude::*;

use crate::chars;
use crate::chars::to_lowercase;
use crate::paths;
use crate::paths::join;
use crate::status::{DB_DIR_NAME, DEFAULT_EMBEDDING_DIMENSIONS};
use crate::text;
use crate::text::{concat, owned, str_eq};

verus! {

// ---------------------------------------------------------------------------
// The mode
// ---------------------------------------------------------------------------

/// How the server reaches the index.
#[derive(Clone, Copy, PartialEq, Eq, Structural, Debug)]
pub enum McpMode {
    /// Through a running `codesearch serve` if there is one, else locally.
    Auto,
    /// Always through `codesearch serve`.
    Client,
    /// Always locally.
    Local,
}

impl Default for McpMode {
    fn default() -> (r: McpMode)
        ensures
            r == McpMode::Auto,
    {
        McpMode::Auto
    }
}

/// The name of a mode.
pub open spec fn mode_name(mode: McpMode) -> Seq<char> {
    match mode {
        McpMode::Auto => "auto"@,
        McpMode::Client => "client"@,
        McpMode::Local => "local"@,
    }
}

impl McpMode {
    /// The name of the mode.
    pub fn to_string(&self) -> (r: String)
        ensures
            r@ == mode_name(*self),
    {
        match self {
            McpMode::Auto => owned("auto"),
            McpMode::Client => owned("client"),
            McpMode::Local => owned("local"),
        }
    }
}

/// What is answered to a word that names no mode.
pub open spec fn bad_mode_text(word: Seq<char>) -> Seq<char> {
    "invalid MCP mode '"@ + word + "': must be 'auto', 'client', or 'local'"@
}

/// The mode with a name in lower case.
pub fn mode_of_name(name: &str) -> (r: Result<McpMode, String>)
    ensures
        match r {
            Ok(m) => mode_name(m) == name@,
            Err(e) => e@ == bad_mode_text(name@) && forall|m: McpMode| #[trigger]
                mode_name(m) != name@,
        },
{
    proof {
        reveal_strlit("auto");
        reveal_strlit("client");
        reveal_strlit("local");
    }
    if str_eq(name, "auto") {
        Ok(McpMode::Auto)
    } else if str_eq(name, "client") {
        Ok(McpMode::Client)
    } else if str_eq(name, "local") {
        Ok(McpMode::Local)
    } else {
        Err(
            concat(
                concat("invalid MCP mode '", name).as_str(),
                "': must be 'auto', 'client', or 'local'",
            ),
        )
    }
}

/// The mode that a text names, in any mix of cases.
pub fn parse_mode(s: &str) -> (r: Result<McpMode, String>)
    ensures
        match r {
            Ok(m) => mode_name(m) == chars::in_lower_case(s@),
            Err(e) => e@ == bad_mode_text(chars::in_lower_case(s@)) && forall|m: McpMode| #[trigger]
                mode_name(m) != chars::in_lower_case(s@),
        },
{
    mode_of_name(to_lowercase(s).as_str())
}

impl std::str::FromStr for McpMode {
    type Err = String;

    fn from_str(s: &str) -> Result<McpMode, String> {
        parse_mode(s)
    }
}

/// The names of the modes are all different: a name says which mode it is.
pub proof fn law_mode_names_differ(a: McpMode, b: McpMode)
    ensures
        mode_name(a) == mode_name(b) ==> a == b,
{
    reveal_strlit("auto");
    reveal_strlit("client");
    reveal_strlit("local");
    assert("auto"@[0] == 'a');
    assert("client"@[0] == 'c');
    assert("local"@[0] == 'l');
}

// ---------------------------------------------------------------------------
// Starting
// ---------------------------------------------------------------------------

/// What the server does when it starts.
#[derive(Debug)]
pub enum Startup {
    /// Forward everything to the running server.
    Client,
    /// Open the local database.
    Local,
    /// Give up with this message.
    Fail(String),
}

/// Whether the mode asks for a running server to be looked for.
pub fn needs_probe(mode: McpMode) -> (r: bool)
    ensures
        r == (mode != McpMode::Local),
{
    match mode {
        McpMode::Local => false,
        _ => true,
    }
}

/// What a client is told whose server is not running.
pub open spec fn not_running_text(url: Seq<char>) -> Seq<char> {
    "codesearch serve is not running at "@ + url
        + ". Start it with `codesearch serve` or use --mode auto/local."@
}

/// What the server does when it starts; `alive` tells whether a running server
/// answered at the address.
pub fn choose_startup(mode: McpMode, alive: bool, url: &str) -> (r: Startup)
    ensures
        match mode {
            McpMode::Client => if alive {
                r is Client
            } else {
                r matches Startup::Fail(m) && m@ == not_running_text(url@)
            },
            McpMode::Auto => if alive {
                r is Client
            } else {
                r is Local
            },
            McpMode::Local => r is Local,
        },
{
    match mode {
        McpMode::Client => {
            if alive {
                Startup::Client
            } else {
                Startup::Fail(
                    concat(
                        concat("codesearch serve is not running at ", url).as_str(),
                        ". Start it with `codesearch serve` or use --mode auto/local.",
                    ),
                )
            }
        },
        McpMode::Auto => {
            if alive {
                Startup::Client
            } else {
                Startup::Local
            }
        },
        McpMode::Local => Startup::Local,
    }
}

/// A project and its database.
#[derive(Debug)]
pub struct Database {
    pub project_path: String,
    pub db_path: String,
}

/// The database that the local server uses.
#[derive(Debug)]
pub enum LocalDatabase {
    /// One that exists.
    Existing(Database),
    /// One that is created first, empty, so that the server can start at once.
    Create(Database),
    /// There is none, and none may be created.
    Missing(String),
}

/// What is said where there is no database and none may be created.
pub open spec fn no_database_text() -> Seq<char> {
    "No database found in current directory, parent directories, or globally tracked repositories. Run 'codesearch index' first to index the codebase, or use --create-index=true flag to automatically create it."@
}

/// The database that the local server uses: one that was found, or a new one at
/// the root of the repository, or in the directory itself outside any.
pub fn local_database(
    found: Option<Database>,
    create_index: bool,
    path: &str,
    git_root: &Option<String>,
) -> (r: LocalDatabase)
    ensures
        match found {
            Some(d) => r matches LocalDatabase::Existing(e) && e == d,
            None => if create_index {
                r matches LocalDatabase::Create(e) && e.project_path@ == path@ && e.db_path@
                    == paths::joined(
                    match *git_root {
                        Some(g) => g@,
                        None => path@,
                    },
                    DB_DIR_NAME@,
                )
            } else {
                r matches LocalDatabase::Missing(m) && m@ == no_database_text()
            },
        },
{
    match found {
        Some(d) => LocalDatabase::Existing(d),
        None => {
            if create_index {
                let db_path = match git_root {
                    Some(g) => join(g.as_str(), DB_DIR_NAME),
                    None => join(path, DB_DIR_NAME),
                };
                LocalDatabase::Create(Database { project_path: owned(path), db_path })
            } else {
                LocalDatabase::Missing(
                    owned(
                        "No database found in current directory, parent directories, or globally tracked repositories. Run 'codesearch index' first to index the codebase, or use --create-index=true flag to automatically create it.",
                    ),
                )
            }
        },
    }
}

/// The database that a server of tools opens: without one there is no server.
pub fn service_database(found: Option<Database>) -> (r: Result<Database, String>)
    ensures
        match found {
            Some(d) => r == Ok::<Database, String>(d),
            None => r matches Err(m) && m@
                == "No database found in current directory, parent directories, or globally tracked repositories. Run 'codesearch index' first to index the codebase."@,
        },
{
    match found {
        Some(d) => Ok(d),
        None => Err(
            owned(
                "No database found in current directory, parent directories, or globally tracked repositories. Run 'codesearch index' first to index the codebase.",
            ),
        ),
    }
}

/// The dimensions of the stored vectors: what the metadata say, or the default
/// where they say nothing that can be read.
pub fn dimensions_or_default(recorded: Option<usize>) -> (r: usize)
    ensures
        r == (match recorded {
            Some(d) => d,
            None => DEFAULT_EMBEDDING_DIMENSIONS,
        }),
{
    match recorded {
        Some(d) => d,
        None => DEFAULT_EMBEDDING_DIMENSIONS,
    }
}

// ---------------------------------------------------------------------------
// Background work
// ---------------------------------------------------------------------------

/// A piece of background work. All of them write to the stores, so one runs
/// after the other.
#[derive(Clone, Copy, PartialEq, Eq, Structural, Debug)]
pub enum Background {
    /// Collect the events of the file system, so that no change is missed while
    /// the refresh runs.
    CollectEvents,
    /// Bring the index up to date.
    Refresh,
    /// Follow the changes of the files.
    Watch,
    /// Nothing is left to do.
    Idle,
}

/// The first piece of background work. A server without write access has none.
pub fn first_work(readonly: bool) -> (r: Background)
    ensures
        r == (if readonly {
            Background::Idle
        } else {
            Background::CollectEvents
        }),
{
    if readonly {
        Background::Idle
    } else {
        Background::CollectEvents
    }
}

/// The work that follows a piece of work.
pub open spec fn work_after(done: Background, ok: bool, cancelled: bool) -> Background {
    match done {
        Background::CollectEvents => Background::Refresh,
        Background::Refresh => if ok && !cancelled {
            Background::Watch
        } else {
            Background::Idle
        },
        _ => Background::Idle,
    }
}

/// The work that follows a piece of work: `ok` tells whether it succeeded,
/// `cancelled` whether the server is to stop.
pub fn next_work(done: Background, ok: bool, cancelled: bool) -> (r: Background)
    ensures
        r == work_after(done, ok, cancelled),
{
    match done {
        Background::CollectEvents => Background::Refresh,
        Background::Refresh => {
            if ok && !cancelled {
                Background::Watch
            } else {
                Background::Idle
            }
        },
        _ => Background::Idle,
    }
}

/// The files are followed only after a refresh that succeeded, in a server that
/// is not to stop.
pub proof fn law_watch_follows_refresh(done: Background, ok: bool, cancelled: bool)
    ensures
        work_after(done, ok, cancelled) == Background::Watch <==> (done == Background::Refresh && ok
            && !cancelled),
{
}

/// The names of the modes, and what is said of another word.
pub proof fn law_mode_names(word: Seq<char>)
    ensures
        mode_name(McpMode::Auto) == "auto"@,
        mode_name(McpMode::Client) == "client"@,
        mode_name(McpMode::Local) == "local"@,
        bad_mode_text(word) == "invalid MCP mode '"@ + word
            + "': must be 'auto', 'client', or 'local'"@,
        text::has_text(not_running_text(word), word),
{
    text::law_text_is_found(
        "codesearch serve is not running at "@,
        word,
        ". Start it with `codesearch serve` or use --mode auto/local."@,
    );
}

/// Events are collected before the index is refreshed, it is watched after that,
/// and nothing follows the watch.
pub proof fn law_order_of_work(ok: bool, cancelled: bool)
    ensures
        work_after(Background::CollectEvents, ok, cancelled) == Background::Refresh,
        work_after(Background::Refresh, true, false) == Background::Watch,
        work_after(Background::Refresh, false, cancelled) == Background::Idle,
        work_after(Background::Refresh, ok, true) == Background::Idle,
        work_after(Background::Watch, ok, cancelled) == Background::Idle,
        work_after(Background::Idle, ok, cancelled) == Background::Idle,
{
}

/// In the client mode a server must run, in the local mode none is asked, and else
/// a running one is used.
pub proof fn law_startup(mode: McpMode, alive: bool, url: &str, r: Startup)
    requires
        call_ensures(choose_startup, (mode, alive, url), r),
    ensures
        mode == McpMode::Local ==> r is Local,
        mode == McpMode::Auto ==> (r is Client <==> alive) && (r is Local <==> !alive),
        mode == McpMode::Client ==> (r is Client <==> alive) && (r is Fail <==> !alive),
{
}

/// A database that was found is used. Without one the server makes one in the
/// root of the repository where it may, and else says that none was found.
pub proof fn law_local_database(
    found: Option<Database>,
    create_index: bool,
    path: &str,
    git_root: &Option<String>,
    r: LocalDatabase,
)
    requires
        call_ensures(local_database, (found, create_index, path, git_root), r),
    ensures
        r is Existing <==> found is Some,
        r is Existing ==> r->Existing_0 == found->0,
        r is Create <==> found is None && create_index,
        r is Create && git_root is Some ==> r->Create_0.db_path@ == paths::joined(
            git_root->0@,
            ".codesearch.db"@,
        ),
        r is Create && git_root is None ==> r->Create_0.db_path@ == paths::joined(
            path@,
            ".codesearch.db"@,
        ),
        r is Create ==> r->Create_0.project_path@ == path@,
        r is Missing <==> found is None && !create_index,
{
}

/// A service needs a database; a server that only reads does no work in the
/// background; dimensions that are not recorded are 384.
pub proof fn law_service(
    found: Option<Database>,
    d: Result<Database, String>,
    readonly: bool,
    w: Background,
    recorded: Option<usize>,
    n: usize,
    mode: McpMode,
    p: bool,
)
    requires
        call_ensures(service_database, (found,), d),
        call_ensures(first_work, (readonly,), w),
        call_ensures(dimensions_or_default, (recorded,), n),
        call_ensures(needs_probe, (mode,), p),
    ensures
        d is Ok <==> found is Some,
        d is Ok ==> d->Ok_0 == found->0,
        w == Background::Idle <==> readonly,
        w == Background::CollectEvents <==> !readonly,
        recorded is Some ==> n == recorded->0,
        recorded is None ==> n == 384,
        p <==> mode != McpMode::Local,
{
}

} // verus!
