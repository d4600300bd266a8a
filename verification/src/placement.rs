//! Where the database of a project lies, so that each project has only one.
use vstd::prelude::*;

use crate::paths;
use crate::paths::{join, normalize_path_str};
use crate::server::Database;
use crate::status::DB_DIR_NAME;
use crate::sorting;
use crate::text;
use crate::text::{chars_of, concat, copy_of, owned, same, split, str_eq, string_of};

verus! {

// ---------------------------------------------------------------------------
// The parts of a path
// ---------------------------------------------------------------------------

/// The parts of a path that count: no empty ones, and no `.` after the first.
pub open spec fn counted(pieces: Seq<Seq<char>>) -> Seq<Seq<char>>
    decreases pieces.len(),
{
    if pieces.len() == 0 {
        Seq::empty()
    } else {
        let before = counted(pieces.drop_last());
        let p = pieces.last();
        if p.len() == 0 || (p == "."@ && pieces.len() > 1) {
            before
        } else {
            before.push(p)
        }
    }
}

/// The components of a path.
pub open spec fn components(path: Seq<char>) -> Seq<Seq<char>> {
    counted(text::split_char(path, '/'))
}

/// The components of a path.
pub fn path_components(path: &[char]) -> (r: Vec<Vec<char>>)
    ensures
        text::views(r@) == components(path@),
{
    let pieces = split(path, '/');
    let dot = chars_of(".");
    let ghost ps = text::split_char(path@, '/');
    let mut out: Vec<Vec<char>> = Vec::new();
    let mut i: usize = 0;
    proof {
        assert(text::views(out@) =~= counted(ps.take(0)));
    }
    while i < pieces.len()
        invariant
            i <= pieces.len(),
            text::views(pieces@) == ps,
            dot@ == "."@,
            text::views(out@) == counted(ps.take(i as int)),
        decreases pieces.len() - i,
    {
        let ghost before = text::views(out@);
        let p = &pieces[i];
        proof {
            assert(ps.take(i + 1).drop_last() =~= ps.take(i as int));
            assert(ps.take(i + 1).last() == p@);
        }
        if p.len() > 0 && !(i > 0 && same(p.as_slice(), dot.as_slice())) {
            out.push(copy_of(p.as_slice()));
            proof {
                assert(text::views(out@) =~= before.push(p@));
            }
        }
        i += 1;
    }
    proof {
        assert(ps.take(ps.len() as int) =~= ps);
    }
    out
}

/// A path lies at or below another one, component by component.
pub open spec fn lies_below(path: Seq<char>, base: Seq<char>) -> bool {
    &&& paths::is_absolute(path) == paths::is_absolute(base)
    &&& components(base).len() <= components(path).len()
    &&& components(path).take(components(base).len() as int) == components(base)
}

/// Whether a path lies at or below another one, component by component.
pub fn is_below(path: &str, base: &str) -> (r: bool)
    ensures
        r == lies_below(path@, base@),
{
    let p = chars_of(path);
    let b = chars_of(base);
    let absolute_p = p.len() > 0 && p[0] == '/';
    let absolute_b = b.len() > 0 && b[0] == '/';
    if absolute_p != absolute_b {
        return false;
    }
    let ps = path_components(p.as_slice());
    let bs = path_components(b.as_slice());
    let ghost pv = components(path@);
    let ghost bv = components(base@);
    proof {
        assert(pv.len() == ps@.len() && bv.len() == bs@.len());
    }
    if bs.len() > ps.len() {
        return false;
    }
    let mut i: usize = 0;
    while i < bs.len()
        invariant
            i <= bs.len() <= ps.len(),
            text::views(ps@) == pv,
            text::views(bs@) == bv,
            pv == components(path@),
            bv == components(base@),
            forall|j: int| 0 <= j < i ==> pv[j] == bv[j],
        decreases bs.len() - i,
    {
        if !same(ps[i].as_slice(), bs[i].as_slice()) {
            proof {
                assert(pv[i as int] == ps@[i as int]@);
                assert(bv[i as int] == bs@[i as int]@);
                assert(pv.take(bv.len() as int)[i as int] != bv[i as int]);
            }
            return false;
        }
        proof {
            assert(pv[i as int] == ps@[i as int]@);
            assert(bv[i as int] == bs@[i as int]@);
        }
        i += 1;
    }
    proof {
        assert(pv.take(bv.len() as int) =~= bv);
    }
    true
}

/// The last component of a path, where it is the name of a file.
pub open spec fn file_name_of(path: Seq<char>) -> Option<Seq<char>> {
    let parts = components(path);
    if parts.len() == 0 || parts.last() == ".."@ || parts.last() == "."@ {
        None
    } else {
        Some(parts.last())
    }
}

/// The last component of a path, where it is the name of a file.
pub fn file_name(path: &str) -> (r: Option<String>)
    ensures
        match r {
            Some(n) => file_name_of(path@) == Some(n@),
            None => file_name_of(path@) is None,
        },
{
    let parts = path_components(chars_of(path).as_slice());
    let ghost pv = components(path@);
    proof {
        assert(pv.len() == parts@.len());
    }
    if parts.len() == 0 {
        return None;
    }
    let last = &parts[parts.len() - 1];
    proof {
        assert(pv.last() == last@);
    }
    if same(last.as_slice(), chars_of("..").as_slice()) || same(
        last.as_slice(),
        chars_of(".").as_slice(),
    ) {
        None
    } else {
        Some(string_of(last.as_slice()))
    }
}

// ---------------------------------------------------------------------------
// The root of a repository
// ---------------------------------------------------------------------------

/// The first place that is marked.
pub open spec fn first_marked(marks: Seq<bool>) -> int
    decreases marks.len(),
{
    if marks.len() == 0 {
        0
    } else if first_marked(marks.drop_last()) < marks.len() - 1 {
        first_marked(marks.drop_last())
    } else if marks.last() {
        marks.len() - 1
    } else {
        marks.len() as int
    }
}

/// Lines, each but the first below the one before and two columns in.
pub open spec fn indented(names: Seq<Seq<char>>) -> Seq<char>
    decreases names.len(),
{
    if names.len() == 0 {
        Seq::empty()
    } else if names.len() == 1 {
        names[0]
    } else {
        indented(names.drop_last()) + "\n  "@ + names.last()
    }
}

/// What is said where several repositories lie below a directory.
pub open spec fn several_repositories_text(children: Seq<Seq<char>>) -> Seq<char> {
    "❌ Multiple git repositories found in subdirectories:\n  "@ + indented(children)
        + "\n\nCannot create a single index spanning multiple repos.\nRun 'codesearch index' inside each repository separately."@
}

/// Lines, each but the first below the one before and two columns in.
fn indent_lines(names: &Vec<String>) -> (r: String)
    ensures
        r@ == indented(text::views(names@)),
{
    let ghost ns = text::views(names@);
    if names.len() == 0 {
        proof {
            reveal_strlit("");
            assert(""@ =~= Seq::<char>::empty());
        }
        return owned("");
    }
    let mut out = owned(names[0].as_str());
    let mut i: usize = 1;
    proof {
        assert(ns.take(1).len() == 1);
        assert(ns.take(1)[0] == names@[0]@);
    }
    while i < names.len()
        invariant
            1 <= i <= names.len(),
            ns == text::views(names@),
            out@ == indented(ns.take(i as int)),
        decreases names.len() - i,
    {
        proof {
            assert(ns.take(i + 1).drop_last() =~= ns.take(i as int));
            assert(ns.take(i + 1).last() == names@[i as int]@);
        }
        out = concat(concat(out.as_str(), "\n  ").as_str(), names[i].as_str());
        i += 1;
    }
    proof {
        assert(ns.take(ns.len() as int) =~= ns);
    }
    out
}

/// The first place that is marked, or the number of the places.
fn find_marked(marks: &Vec<bool>) -> (r: usize)
    ensures
        r == first_marked(marks@),
        r <= marks.len(),
{
    let mut i: usize = 0;
    while i < marks.len()
        invariant
            i <= marks.len(),
            first_marked(marks@.take(i as int)) == i,
        decreases marks.len() - i,
    {
        proof {
            assert(marks@.take(i + 1).drop_last() =~= marks@.take(i as int));
        }
        if marks[i] {
            proof {
                lemma_first_marked_prefix(marks@, i as int);
            }
            return i;
        }
        i += 1;
    }
    proof {
        assert(marks@.take(marks@.len() as int) =~= marks@);
    }
    i
}

/// A mark at the end of a prefix without marks is the first one of all.
proof fn lemma_first_marked_prefix(marks: Seq<bool>, i: int)
    requires
        0 <= i < marks.len(),
        first_marked(marks.take(i)) == i,
        marks[i],
    ensures
        first_marked(marks) == i,
    decreases marks.len(),
{
    if marks.len() == i + 1 {
        assert(marks.drop_last() =~= marks.take(i));
    } else {
        assert(marks.drop_last().take(i) =~= marks.take(i));
        lemma_first_marked_prefix(marks.drop_last(), i);
    }
}

/// The root of the repository around a directory. The directory comes first
/// among `dirs`, then what is above it, one by one; `has_git` tells which of
/// them hold a `.git`. Where none does, `children` are those directories below
/// that do: one of them is the root, and several are refused.
pub fn find_git_root(dirs: &Vec<String>, has_git: &Vec<bool>, children: &Vec<String>) -> (r: Result<
    Option<String>,
    String,
>)
    requires
        has_git.len() == dirs.len(),
    ensures
        ({
            let i = first_marked(has_git@);
            if i < dirs.len() {
                r matches Ok(Some(root)) && root@ == dirs@[i]@
            } else if children.len() == 0 {
                r matches Ok(None)
            } else if children.len() == 1 {
                r matches Ok(Some(root)) && root@ == children@[0]@
            } else {
                r matches Err(m) && m@ == several_repositories_text(text::views(children@))
            }
        }),
{
    let i: usize = find_marked(has_git);
    if i < dirs.len() {
        return Ok(Some(owned(dirs[i].as_str())));
    }
    if children.len() == 0 {
        Ok(None)
    } else if children.len() == 1 {
        Ok(Some(owned(children[0].as_str())))
    } else {
        let x = concat(
            "❌ Multiple git repositories found in subdirectories:\n  ",
            indent_lines(children).as_str(),
        );
        Err(
            concat(
                x.as_str(),
                "\n\nCannot create a single index spanning multiple repos.\nRun 'codesearch index' inside each repository separately.",
            ),
        )
    }
}

/// The directory whose branch is watched: the root of the git repository, or the
/// project itself where no root is known.
pub fn head_watch_root(git_root: Result<Option<String>, String>, project: &str) -> (r: String)
    ensures
        r@ == (match git_root {
            Ok(Some(root)) => root@,
            _ => project@,
        }),
{
    match git_root {
        Ok(Some(root)) => root,
        _ => owned(project),
    }
}

/// The innermost directory with a `.git` is the root, however many more lie
/// above it.
pub proof fn law_innermost_root(has_git: Seq<bool>, i: int)
    requires
        0 <= i < has_git.len(),
        has_git[i],
        forall|j: int| 0 <= j < i ==> !has_git[j],
    ensures
        first_marked(has_git) == i,
{
    lemma_no_marks(has_git.take(i));
    lemma_first_marked_prefix(has_git, i);
}

/// Without marks there is no first one.
proof fn lemma_no_marks(marks: Seq<bool>)
    requires
        forall|j: int| 0 <= j < marks.len() ==> !marks[j],
    ensures
        first_marked(marks) == marks.len(),
    decreases marks.len(),
{
    if marks.len() > 0 {
        lemma_no_marks(marks.drop_last());
    }
}

/// The entry marks the root of a project.
pub open spec fn marks_project(name: Seq<char>) -> bool {
    ||| name == ".git"@
    ||| name == ".hg"@
    ||| name == ".svn"@
    ||| name == "Cargo.toml"@
    ||| name == "package.json"@
    ||| name == "pyproject.toml"@
    ||| name == "go.mod"@
    ||| text::finishes_with(name, ".sln"@)
}

/// Whether an entry of a directory marks the root of a project.
pub fn is_project_marker(name: &str) -> (r: bool)
    ensures
        r == marks_project(name@),
{
    str_eq(name, ".git") || str_eq(name, ".hg") || str_eq(name, ".svn") || str_eq(
        name,
        "Cargo.toml",
    ) || str_eq(name, "package.json") || str_eq(name, "pyproject.toml") || str_eq(name, "go.mod")
        || text::ends_with(chars_of(name).as_slice(), chars_of(".sln").as_slice())
}

/// One of the entries marks the root of a project.
pub open spec fn holds_marker(entries: Seq<Seq<char>>) -> bool {
    exists|i: int| 0 <= i < entries.len() && marks_project(#[trigger] entries[i])
}

/// Whether one of the entries marks the root of a project.
fn has_marker(entries: &Vec<String>) -> (r: bool)
    ensures
        r == holds_marker(text::views(entries@)),
{
    let ghost es = text::views(entries@);
    let mut i: usize = 0;
    while i < entries.len()
        invariant
            i <= entries.len(),
            es == text::views(entries@),
            forall|j: int| 0 <= j < i ==> !marks_project(#[trigger] es[j]),
        decreases entries.len() - i,
    {
        proof {
            assert(es[i as int] == entries@[i as int]@);
        }
        if is_project_marker(entries[i].as_str()) {
            return true;
        }
        i += 1;
    }
    false
}

/// A directory and the names of its entries.
#[derive(Debug)]
pub struct Listing {
    pub dir: String,
    pub entries: Vec<String>,
}

/// The root of the project around a directory: the first of the directories
/// that holds a marker.
pub fn find_project_root(dirs: &Vec<Listing>) -> (r: Option<String>)
    ensures
        match r {
            Some(root) => exists|i: int|
                0 <= i < dirs.len() && root@ == #[trigger] dirs@[i].dir@ && holds_marker(
                    text::views(dirs@[i].entries@),
                ) && forall|j: int|
                    0 <= j < i ==> !holds_marker(#[trigger] text::views(dirs@[j].entries@)),
            None => forall|j: int|
                0 <= j < dirs.len() ==> !holds_marker(#[trigger] text::views(dirs@[j].entries@)),
        },
{
    let mut i: usize = 0;
    while i < dirs.len()
        invariant
            i <= dirs.len(),
            forall|j: int|
                0 <= j < i ==> !holds_marker(#[trigger] text::views(dirs@[j].entries@)),
        decreases dirs.len() - i,
    {
        if has_marker(&dirs[i].entries) {
            let root = owned(dirs[i].dir.as_str());
            proof {
                assert(root@ == dirs@[i as int].dir@);
            }
            return Some(root);
        }
        i += 1;
    }
    None
}

// ---------------------------------------------------------------------------
// The database
// ---------------------------------------------------------------------------

/// A database that was found for a directory.
#[derive(Debug)]
pub struct FoundDatabase {
    pub db_path: String,
    pub project_path: String,
    /// It lies among the databases of the user, and not in the project.
    pub is_global: bool,
}

/// The database belongs to the project in a directory, or to one around it.
pub open spec fn belongs_to(found: FoundDatabase, dir: Seq<char>) -> bool {
    let project = paths::normal(found.project_path@);
    project == paths::normal(dir) || lies_below(dir, project)
}

/// Whether a database belongs to the project in a directory, or to one around
/// it.
pub fn is_database_of(found: &FoundDatabase, dir: &str) -> (r: bool)
    ensures
        r == belongs_to(*found, dir@),
{
    let project = normalize_path_str(found.project_path.as_str());
    str_eq(project.as_str(), normalize_path_str(dir).as_str()) || is_below(dir, project.as_str())
}

/// What is said where the database of another project would be deleted.
pub open spec fn refusal_text(found: FoundDatabase, dir: Seq<char>) -> Seq<char> {
    "Found database at "@ + found.db_path@ + " for project '"@ + paths::normal(
        found.project_path@,
    ) + "', but you are indexing '"@ + paths::normal(dir)
        + "'. Cowardly refusing to delete another project's database. If the database is stale, delete it manually or run from the correct directory."@
}

/// What is said where the database of another project would be deleted.
fn refusal(found: &FoundDatabase, dir: &str) -> (r: String)
    ensures
        r@ == refusal_text(*found, dir@),
{
    let a = concat("Found database at ", found.db_path.as_str());
    let b = concat(a.as_str(), " for project '");
    let c = concat(b.as_str(), normalize_path_str(found.project_path.as_str()).as_str());
    let d = concat(c.as_str(), "', but you are indexing '");
    let e = concat(d.as_str(), normalize_path_str(dir).as_str());
    concat(
        e.as_str(),
        "'. Cowardly refusing to delete another project's database. If the database is stale, delete it manually or run from the correct directory.",
    )
}

/// Where the database of a project lies, or is to lie.
#[derive(Debug)]
pub enum Place {
    /// At a place that is known.
    At(Database),
    /// Among the databases of the user.
    Global,
}

/// What is done before a project is indexed.
#[derive(Debug)]
pub struct DatabasePlan {
    /// A database that is deleted first.
    pub delete: Option<String>,
    /// Where the index goes.
    pub place: Place,
}

/// Whether existing databases are looked for: not where the local one is to be
/// deleted anyway.
pub fn needs_search(force: bool, local_exists: bool) -> (r: bool)
    ensures
        r == !(force && local_exists),
{
    !(force && local_exists)
}

/// Whether the root of the repository decides where the database lies.
pub fn needs_git_root(force: bool, global: bool, found: &Option<FoundDatabase>) -> (r: bool)
    ensures
        r == (!global && (force || found is None)),
{
    !global && (force || found.is_none())
}

/// The database that is deleted before a project is indexed.
pub open spec fn deleted(
    dir: Seq<char>,
    global: bool,
    force: bool,
    local_exists: bool,
    found: Option<FoundDatabase>,
) -> Option<Seq<char>> {
    if force && local_exists {
        Some(paths::joined(dir, DB_DIR_NAME@))
    } else {
        match found {
            Some(f) => if force || (global && !f.is_global) {
                Some(f.db_path@)
            } else {
                None
            },
            None => None,
        }
    }
}

/// The index goes where the plan says.
pub open spec fn placed(
    place: Place,
    dir: Seq<char>,
    global: bool,
    force: bool,
    found: Option<FoundDatabase>,
    git_root: Option<Seq<char>>,
) -> bool {
    if found is Some && !force && (!global || found->Some_0.is_global) {
        place matches Place::At(d) && d.db_path@ == found->Some_0.db_path@ && d.project_path@
            == found->Some_0.project_path@
    } else if global {
        place is Global
    } else {
        let root = match git_root {
            Some(g) => g,
            None => dir,
        };
        place matches Place::At(d) && d.db_path@ == paths::joined(root, DB_DIR_NAME@)
            && d.project_path@ == root
    }
}

/// What is done before the project in a directory is indexed, so that it has
/// one database only.
///
/// `force` deletes the database that is there, but never that of another
/// project; `global` moves a local database among those of the user. Else an
/// existing database stays where it is, and a new one goes to the root of the
/// repository.
pub fn plan_database(
    dir: &str,
    global: bool,
    force: bool,
    local_exists: bool,
    found: &Option<FoundDatabase>,
    git_root: &Option<String>,
) -> (r: Result<DatabasePlan, String>)
    ensures
        if force && !local_exists && found is Some && !belongs_to(found->Some_0, dir@) {
            r matches Err(m) && m@ == refusal_text(found->Some_0, dir@)
        } else {
            r matches Ok(plan) && crate::types::opt_text(plan.delete) == deleted(
                dir@,
                global,
                force,
                local_exists,
                *found,
            ) && placed(
                plan.place,
                dir@,
                global,
                force,
                *found,
                crate::types::opt_text(*git_root),
            )
        },
{
    let mut delete: Option<String> = None;
    if force {
        if local_exists {
            delete = Some(join(dir, DB_DIR_NAME));
        } else {
            match found {
                Some(f) => {
                    if !is_database_of(f, dir) {
                        return Err(refusal(f, dir));
                    }
                    delete = Some(owned(f.db_path.as_str()));
                },
                None => {},
            }
        }
    } else {
        match found {
            Some(f) => {
                if !global || f.is_global {
                    let d = Database {
                        project_path: owned(f.project_path.as_str()),
                        db_path: owned(f.db_path.as_str()),
                    };
                    return Ok(DatabasePlan { delete: None, place: Place::At(d) });
                }
                delete = Some(owned(f.db_path.as_str()));
            },
            None => {},
        }
    }
    if global {
        return Ok(DatabasePlan { delete, place: Place::Global });
    }
    let root = match git_root {
        Some(g) => owned(g.as_str()),
        None => owned(dir),
    };
    let db_path = join(root.as_str(), DB_DIR_NAME);
    Ok(DatabasePlan { delete, place: Place::At(Database { project_path: root, db_path }) })
}

/// Whether the work is offered to a server first: a dry run asks no server.
pub fn offers_to_server(dry_run: bool) -> (r: bool)
    ensures
        r == !dry_run,
{
    !dry_run
}

/// What a run does to databases.
#[derive(Debug)]
pub struct IndexWork {
    /// A database that is deleted first.
    pub delete: Option<String>,
    /// Whether a database is created or written to.
    pub write: bool,
    /// Where the index lies, or would lie.
    pub place: Place,
}

/// The work is what the plan says; of a dry run, only where the index would lie.
pub open spec fn is_work_of(work: IndexWork, plan: DatabasePlan, dry_run: bool) -> bool {
    &&& work.place == plan.place
    &&& work.write == !dry_run
    &&& work.delete == (if dry_run {
        None
    } else {
        plan.delete
    })
}

/// What a run does to databases. A dry run deletes, creates and changes none.
pub fn work_of(plan: DatabasePlan, dry_run: bool) -> (r: IndexWork)
    ensures
        is_work_of(r, plan, dry_run),
{
    let DatabasePlan { delete, place } = plan;
    IndexWork {
        delete: if dry_run {
            None
        } else {
            delete
        },
        write: !dry_run,
        place,
    }
}

/// The database of a project among those of the user.
pub open spec fn global_db_path(home: Seq<char>, dir: Seq<char>) -> Seq<char> {
    let name = match file_name_of(dir) {
        Some(n) => n,
        None => "unknown"@,
    };
    paths::joined(paths::joined(paths::joined(home, ".codesearch.dbs"@), name), DB_DIR_NAME@)
}

/// The database of a project among those of the user.
pub fn get_global_db_path(home: &Option<String>, dir: &str) -> (r: Result<Database, String>)
    ensures
        match *home {
            Some(h) => r matches Ok(d) && d.project_path@ == dir@ && d.db_path@ == global_db_path(
                h@,
                dir@,
            ),
            None => r matches Err(m) && m@ == "No home directory found"@,
        },
{
    match home {
        Some(h) => {
            let name = match file_name(dir) {
                Some(n) => n,
                None => owned("unknown"),
            };
            let all = join(h.as_str(), ".codesearch.dbs");
            let own = join(all.as_str(), name.as_str());
            Ok(Database { project_path: owned(dir), db_path: join(own.as_str(), DB_DIR_NAME) })
        },
        None => Err(owned("No home directory found")),
    }
}

/// Two directories of one repository that have no database yet get the same
/// one, at its root.
pub proof fn law_one_database_per_repository(
    a: Place,
    b: Place,
    dir_a: Seq<char>,
    dir_b: Seq<char>,
    root: Seq<char>,
)
    requires
        placed(a, dir_a, false, false, None, Some(root)),
        placed(b, dir_b, false, false, None, Some(root)),
    ensures
        a matches Place::At(d) && b matches Place::At(e) && d.db_path@ == e.db_path@
            && d.project_path@ == e.project_path@,
{
}

/// Where a local database is wanted among those of the user, it does not stay
/// in the project: never both.
pub proof fn law_never_both(dir: Seq<char>, place: Place, found: FoundDatabase)
    requires
        !found.is_global,
        placed(place, dir, true, false, Some(found), None),
    ensures
        place is Global,
        deleted(dir, true, false, false, Some(found)) == Some(found.db_path@),
{
}

/// The components of a path are its pieces between slashes but for the empty ones
/// and for dots that do not stand first.
pub proof fn law_components(pieces: Seq<Seq<char>>) -> (places: Seq<int>)
    ensures
        sorting::selects(
            places,
            pieces.len() as int,
            |i: int| pieces[i].len() > 0 && (i == 0 || pieces[i] != seq!['.']),
        ),
        counted(pieces).len() == places.len(),
        forall|k: int|
            0 <= k < places.len() ==> #[trigger] counted(pieces)[k] == pieces[places[k]],
    decreases pieces.len(),
{
    reveal_strlit(".");
    assert("."@ =~= seq!['.']);
    if pieces.len() == 0 {
        Seq::empty()
    } else {
        let front = pieces.drop_last();
        let before = law_components(front);
        let first = counted(front);
        let all = counted(pieces);
        let places = sorting::lemma_selects_step(
            before,
            pieces.len() - 1,
            |i: int| front[i].len() > 0 && (i == 0 || front[i] != seq!['.']),
            |i: int| pieces[i].len() > 0 && (i == 0 || pieces[i] != seq!['.']),
        );
        assert forall|k: int| 0 <= k < places.len() implies #[trigger] all[k] == pieces[places[k]] by {
            if k < before.len() {
                assert(all[k] == first[k]);
                assert(front[before[k]] == pieces[places[k]]);
            }
        }
        places
    }
}

/// A path lies below a base, and a base below itself, where both are absolute or
/// neither is and the base's components are the path's first ones.
pub proof fn law_below(path: Seq<char>, base: Seq<char>, i: int)
    ensures
        lies_below(path, path),
        lies_below(path, base) && 0 <= i < components(base).len() ==> i < components(path).len()
            && components(path)[i] == components(base)[i],
        lies_below(path, base) ==> (path.len() > 0 && path[0] == '/' <==> base.len() > 0 && base[0]
            == '/'),
        components(path).len() < components(base).len() ==> !lies_below(path, base),
        0 <= i < components(base).len() && i < components(path).len() && components(path)[i]
            != components(base)[i] ==> !lies_below(path, base),
{
    assert(components(path).take(components(path).len() as int) =~= components(path));
    if lies_below(path, base) && 0 <= i < components(base).len() {
        assert(components(path).take(components(base).len() as int)[i] == components(path)[i]);
    }
}

/// The path of a file in a directory lies below the directory, and the name of
/// the file is its last component.
pub proof fn law_file_in_a_directory(dir: Seq<char>, name: Seq<char>)
    requires
        name.len() > 0,
        !name.contains('/'),
        name != seq!['.'],
        name != seq!['.', '.'],
        dir.len() > 0,
    ensures
        components(dir + seq!['/'] + name) == components(dir).push(name),
        file_name_of(dir + seq!['/'] + name) == Some(name),
        lies_below(dir + seq!['/'] + name, dir),
{
    let s = dir + seq!['/'] + name;
    lemma_split_last(dir, name);
    let d = text::split_char(dir, '/');
    text::lemma_split_nonempty(dir, '/');
    reveal_strlit(".");
    reveal_strlit("..");
    assert("."@ =~= seq!['.']);
    assert(".."@ =~= seq!['.', '.']);
    assert(d.push(name).drop_last() =~= d);
    assert(components(s) =~= components(dir).push(name));
    assert(components(s).take(components(dir).len() as int) =~= components(dir));
    assert(s[0] == dir[0]);
}

proof fn lemma_split_last(dir: Seq<char>, name: Seq<char>)
    requires
        !name.contains('/'),
    ensures
        text::split_char(dir + seq!['/'] + name, '/') == text::split_char(dir, '/').push(name),
    decreases name.len(),
{
    let s = dir + seq!['/'] + name;
    let t = s.drop_last();
    let d = text::split_char(dir, '/');
    if name.len() == 0 {
        assert(t =~= dir);
        assert(s.last() == '/');
        assert(name =~= Seq::empty());
    } else {
        let less = name.drop_last();
        assert(t =~= dir + seq!['/'] + less);
        assert(name.contains(name.last()));
        if less.contains('/') {
            let i = choose|i: int| 0 <= i < less.len() && less[i] == '/';
            assert(name[i] == '/');
        }
        lemma_split_last(dir, less);
        assert(s.last() == name.last());
        assert(less.push(name.last()) =~= name);
        assert(d.push(less).drop_last() =~= d);
    }
}

/// Without a mark the place is behind the last one.
pub proof fn law_no_mark(marks: Seq<bool>)
    requires
        forall|i: int| 0 <= i < marks.len() ==> !marks[i],
    ensures
        first_marked(marks) == marks.len(),
    decreases marks.len(),
{
    if marks.len() > 0 {
        let front = marks.drop_last();
        assert forall|i: int| 0 <= i < front.len() implies !front[i] by {
            assert(front[i] == marks[i]);
        }
        law_no_mark(front);
        assert(!marks[marks.len() - 1]);
    }
}

/// Names stand one on a line, indented by two spaces.
pub proof fn law_indented_names(names: Seq<Seq<char>>, last: Seq<char>)
    ensures
        indented(Seq::empty()).len() == 0,
        indented(seq![last]) == last,
        names.len() > 0 ==> indented(names.push(last)) == indented(names) + seq!['\n', ' ', ' ']
            + last,
        text::has_text(several_repositories_text(names), indented(names)),
{
    reveal_strlit("\n  ");
    assert("\n  "@ =~= seq!['\n', ' ', ' ']);
    assert(names.push(last).drop_last() =~= names);
    text::law_text_is_found(
        "❌ Multiple git repositories found in subdirectories:\n  "@,
        indented(names),
        "\n\nCannot create a single index spanning multiple repos.\nRun 'codesearch index' inside each repository separately."@,
    );
}

/// The files that mark a project, a solution whatever its name.
pub proof fn law_project_markers(name: Seq<char>, entries: Seq<Seq<char>>, i: int)
    ensures
        marks_project(".git"@),
        marks_project(".hg"@),
        marks_project(".svn"@),
        marks_project("Cargo.toml"@),
        marks_project("package.json"@),
        marks_project("pyproject.toml"@),
        marks_project("go.mod"@),
        marks_project(name + ".sln"@),
        0 <= i < entries.len() && marks_project(entries[i]) ==> holds_marker(entries),
        holds_marker(entries) ==> exists|k: int|
            0 <= k < entries.len() && marks_project(#[trigger] entries[k]),
{
    let s = name + ".sln"@;
    text::law_ends_of_text(s, ".sln"@);
    assert(s.skip(s.len() - ".sln"@.len()) =~= ".sln"@);
}

/// A database belongs to a directory that is its project or lies below it.
pub proof fn law_owner_of_a_database(found: FoundDatabase, dir: Seq<char>)
    ensures
        paths::normal(found.project_path@) == paths::normal(dir) ==> belongs_to(found, dir),
        lies_below(dir, paths::normal(found.project_path@)) ==> belongs_to(found, dir),
        paths::normal(found.project_path@) != paths::normal(dir) && !lies_below(
            dir,
            paths::normal(found.project_path@),
        ) ==> !belongs_to(found, dir),
{
}

/// Only a forced run, and a global one over a local database, deletes: the local
/// database of the directory where there is one, else the one that was found.
pub proof fn law_what_is_deleted(
    dir: Seq<char>,
    global: bool,
    local_exists: bool,
    found: FoundDatabase,
)
    ensures
        deleted(dir, global, false, local_exists, None) is None,
        !global ==> deleted(dir, global, false, local_exists, Some(found)) is None,
        found.is_global ==> deleted(dir, global, false, local_exists, Some(found)) is None,
        deleted(dir, global, true, true, Some(found)) == Some(
            paths::joined(dir, ".codesearch.db"@),
        ),
        deleted(dir, global, true, false, Some(found)) == Some(found.db_path@),
        deleted(dir, global, true, false, None) is None,
{
}

/// A database that was found is used again unless the run is forced or wants
/// another kind. A new one stands in the root of the repository, without one in
/// the directory itself, or among the global ones.
pub proof fn law_where_a_database_stands(
    place: Place,
    dir: Seq<char>,
    found: FoundDatabase,
    root: Seq<char>,
)
    ensures
        placed(place, dir, false, false, Some(found), Some(root)) ==> place is At && place->0.db_path@
            == found.db_path@ && place->0.project_path@ == found.project_path@,
        placed(place, dir, false, true, Some(found), Some(root)) ==> place is At && place->0.db_path@
            == paths::joined(root, ".codesearch.db"@) && place->0.project_path@ == root,
        placed(place, dir, false, false, None, Some(root)) ==> place is At && place->0.db_path@
            == paths::joined(root, ".codesearch.db"@) && place->0.project_path@ == root,
        placed(place, dir, false, false, None, None) ==> place is At && place->0.db_path@
            == paths::joined(dir, ".codesearch.db"@) && place->0.project_path@ == dir,
        placed(place, dir, true, true, Some(found), Some(root)) ==> place is Global,
        placed(place, dir, true, false, None, Some(root)) ==> place is Global,
        placed(place, dir, true, false, Some(found), None) && found.is_global ==> place is At
            && place->0.db_path@ == found.db_path@,
{
}

/// A dry run changes nothing.
pub proof fn law_dry_run(work: IndexWork, plan: DatabasePlan)
    ensures
        is_work_of(work, plan, true) ==> !work.write && work.delete is None && work.place
            == plan.place,
        is_work_of(work, plan, false) ==> work.write && work.delete == plan.delete && work.place
            == plan.place,
{
}

/// A global database stands below the home, under the name of its directory.
pub proof fn law_global_database(home: Seq<char>, dir: Seq<char>, name: Seq<char>)
    requires
        file_name_of(dir) == Some(name),
        home.len() > 0,
        home.last() != '/',
        name.len() > 0,
        name[0] != '/',
        name.last() != '/',
    ensures
        global_db_path(home, dir) == home + "/.codesearch.dbs/"@ + name + "/.codesearch.db"@,
{
    reveal_strlit(".codesearch.dbs");
    reveal_strlit("/.codesearch.dbs/");
    reveal_strlit(".codesearch.db");
    reveal_strlit("/.codesearch.db");
    let a = ".codesearch.dbs"@;
    let b = ".codesearch.db"@;
    paths::law_join(home, a);
    let p = home + seq!['/'] + a;
    assert(p.last() == a[a.len() - 1]);
    paths::law_join(p, name);
    let q = p + seq!['/'] + name;
    assert(q.last() == name.last());
    paths::law_join(q, b);
    assert("/.codesearch.dbs/"@ =~= seq!['/'] + a + seq!['/']);
    assert("/.codesearch.db"@ =~= seq!['/'] + b);
    assert(q + seq!['/'] + b =~= home + (seq!['/'] + a + seq!['/']) + name + (seq!['/'] + b));
}

/// The root of a repository is the innermost directory above with a mark, else the
/// only repository below; several below are refused.
pub proof fn law_root_of_a_repository(
    dirs: &Vec<String>,
    has_git: &Vec<bool>,
    children: &Vec<String>,
    r: Result<Option<String>, String>,
    i: int,
)
    requires
        has_git@.len() == dirs@.len(),
        call_ensures(find_git_root, (dirs, has_git, children), r),
        0 <= i <= dirs@.len(),
        forall|j: int| 0 <= j < i ==> !has_git@[j],
    ensures
        i < dirs@.len() && has_git@[i] ==> r is Ok && r->Ok_0 is Some && r->Ok_0->0@ == dirs@[i]@,
        i == dirs@.len() && children@.len() == 0 ==> r is Ok && r->Ok_0 is None,
        i == dirs@.len() && children@.len() == 1 ==> r is Ok && r->Ok_0 is Some && r->Ok_0->0@
            == children@[0]@,
        i == dirs@.len() && children@.len() > 1 ==> r is Err,
{
    if i < dirs@.len() {
        if has_git@[i] {
            law_innermost_root(has_git@, i);
        }
    } else {
        law_no_mark(has_git@);
    }
}

/// A database of another project is never deleted: a forced run that finds one is
/// refused, and no other run is.
pub proof fn law_no_foreign_database_is_deleted(
    dir: &str,
    global: bool,
    force: bool,
    local_exists: bool,
    found: &Option<FoundDatabase>,
    git_root: &Option<String>,
    r: Result<DatabasePlan, String>,
)
    requires
        call_ensures(plan_database, (dir, global, force, local_exists, found, git_root), r),
    ensures
        r is Err <==> force && !local_exists && found is Some && !belongs_to(found->0, dir@),
        r is Ok && force && local_exists ==> r->Ok_0.delete is Some && r->Ok_0.delete->0@
            == paths::joined(dir@, ".codesearch.db"@),
        r is Ok && !force && !global ==> r->Ok_0.delete is None,
        r is Ok && found is None && !(force && local_exists) ==> r->Ok_0.delete is None,
        r is Ok && !global ==> r->Ok_0.place is At,
        r is Ok && global && force ==> r->Ok_0.place is Global,
{
}

/// What a run must look for, and what it offers to a server.
pub proof fn law_needs_of_a_run(
    force: bool,
    local_exists: bool,
    s: bool,
    global: bool,
    found: &Option<FoundDatabase>,
    g: bool,
    dry_run: bool,
    o: bool,
)
    requires
        call_ensures(needs_search, (force, local_exists), s),
        call_ensures(needs_git_root, (force, global, found), g),
        call_ensures(offers_to_server, (dry_run,), o),
    ensures
        s <==> !force || !local_exists,
        g <==> !global && (force || found is None),
        o <==> !dry_run,
{
}

/// A global database needs a home.
pub proof fn law_home_of_a_global_database(
    home: &Option<String>,
    dir: &str,
    r: Result<Database, String>,
)
    requires
        call_ensures(get_global_db_path, (home, dir), r),
    ensures
        r is Ok <==> home is Some,
        r is Ok ==> r->Ok_0.project_path@ == dir@ && r->Ok_0.db_path@ == global_db_path(
            home->0@,
            dir@,
        ),
{
}

/// A refusal names the database, its project and the directory.
pub proof fn law_words_of_a_refusal(found: FoundDatabase, dir: Seq<char>)
    ensures
        text::has_text(refusal_text(found, dir), found.db_path@),
        text::has_text(refusal_text(found, dir), paths::normal(found.project_path@)),
        text::has_text(refusal_text(found, dir), paths::normal(dir)),
{
    let a = "Found database at "@;
    let b = " for project '"@;
    let c = "', but you are indexing '"@;
    let d =
        "'. Cowardly refusing to delete another project's database. If the database is stale, delete it manually or run from the correct directory."@;
    let x = found.db_path@;
    let y = paths::normal(found.project_path@);
    let z = paths::normal(dir);
    let s = refusal_text(found, dir);
    assert(s =~= a + x + (b + y + c + z + d));
    text::law_text_is_found(a, x, b + y + c + z + d);
    assert(s =~= (a + x + b) + y + (c + z + d));
    text::law_text_is_found(a + x + b, y, c + z + d);
    assert(s =~= (a + x + b + y + c) + z + d);
    text::law_text_is_found(a + x + b + y + c, z, d);
}

/// The name of a path is its last component, and a path without components, or
/// with dots for the last, has none.
pub proof fn law_name_of_a_path(path: Seq<char>)
    ensures
        components(path).len() == 0 ==> file_name_of(path) is None,
        components(path).len() > 0 && (components(path).last() == seq!['.'] || components(
            path,
        ).last() == seq!['.', '.']) ==> file_name_of(path) is None,
        components(path).len() > 0 && components(path).last() != seq!['.'] && components(path).last()
            != seq!['.', '.'] ==> file_name_of(path) == Some(components(path).last()),
        components(path) == counted(text::split_char(path, '/')),
{
    reveal_strlit(".");
    reveal_strlit("..");
    assert("."@ =~= seq!['.']);
    assert(".."@ =~= seq!['.', '.']);
}

} // verus!
