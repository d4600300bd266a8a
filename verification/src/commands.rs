//! The commands on indexes: adding, removing, clearing, listing and pruning.
use vstd::prelude::*;

use crate::numbers;
use crate::routing;
use crate::routing::{RepoEntry, ServeConfig};
use crate::sorting;
use crate::sorting::sort_places;
use crate::status::number;
use crate::text;
use crate::text::{chars_of, concat, owned, trim};

verus! {

// ---------------------------------------------------------------------------
// Adding
// ---------------------------------------------------------------------------

/// An index that was found for a directory.
#[derive(Clone, Copy, PartialEq, Eq, Structural, Debug)]
pub struct ExistingIndex {
    /// It lies among the databases of the user.
    pub is_global: bool,
    /// It lies in the directory itself, and not above it.
    pub is_current: bool,
}

/// What adding a project does.
#[derive(Debug)]
pub enum AddPlan {
    /// The project has an index; it is only registered.
    Register,
    /// Another index serves the project already, as the text says; there is an
    /// error.
    Served(String),
    /// The project has a local index, so that it gets no global one; there is
    /// an error.
    LocalExists,
    /// The project is indexed already.
    Indexed,
    /// An index is created; a local one is then registered.
    Create { global: bool },
}

/// Which index serves a project that gets none of its own.
pub open spec fn served_text(existing: ExistingIndex) -> Seq<char> {
    if existing.is_global {
        "The global index will be used for all projects."@
    } else {
        "The parent directory index will be used for this subdirectory."@
    }
}

/// What adding a project does, once no server took the work.
pub fn plan_add(
    existing: Option<ExistingIndex>,
    has_local: bool,
    has_global: bool,
    global: bool,
) -> (r: AddPlan)
    ensures
        match existing {
            Some(e) => if e.is_current && !e.is_global {
                r is Register
            } else {
                r matches AddPlan::Served(t) && t@ == served_text(e)
            },
            None => if global && has_local {
                r is LocalExists
            } else if has_local || has_global {
                r is Indexed
            } else {
                r == (AddPlan::Create { global })
            },
        },
{
    match existing {
        Some(e) => {
            if e.is_current && !e.is_global {
                AddPlan::Register
            } else if e.is_global {
                AddPlan::Served(owned("The global index will be used for all projects."))
            } else {
                AddPlan::Served(
                    owned("The parent directory index will be used for this subdirectory."),
                )
            }
        },
        None => {
            if global && has_local {
                AddPlan::LocalExists
            } else if has_local || has_global {
                AddPlan::Indexed
            } else {
                AddPlan::Create { global }
            }
        },
    }
}

/// The error of a plan, if adding fails.
pub fn add_error(plan: &AddPlan) -> (r: Option<String>)
    ensures
        match *plan {
            AddPlan::Served(_) => r matches Some(m) && m@
                == "Index already exists in parent or current directory"@,
            AddPlan::LocalExists => r matches Some(m) && m@ == "Local index exists"@,
            _ => r is None,
        },
{
    match plan {
        AddPlan::Served(_) => Some(owned("Index already exists in parent or current directory")),
        AddPlan::LocalExists => Some(owned("Local index exists")),
        _ => None,
    }
}

// ---------------------------------------------------------------------------
// Removing
// ---------------------------------------------------------------------------

/// The directory whose index is removed: that of a repository with the name, or
/// the path itself, or the current directory.
pub fn removal_target(config: Option<&ServeConfig>, argument: Option<&str>) -> (r: String)
    ensures
        r@ == (match argument {
            None => "."@,
            Some(a) => match config {
                Some(c) => match routing::repo_path(c.repos@, a@) {
                    Some(p) => p,
                    None => a@,
                },
                None => a@,
            },
        }),
{
    match argument {
        None => owned("."),
        Some(a) => match config {
            Some(c) => match c.resolve(a) {
                Some(p) => owned(p.as_str()),
                None => owned(a),
            },
            None => owned(a),
        },
    }
}

/// Which index is removed.
#[derive(Clone, Copy, PartialEq, Eq, Structural, Debug)]
pub enum RemovedIndex {
    Nothing,
    Local,
    /// The local one; the global one stays.
    LocalBeforeGlobal,
    Global,
}

/// What removing an index does.
#[derive(Clone, Copy, PartialEq, Eq, Structural, Debug)]
pub struct RemovePlan {
    /// The project is no longer registered.
    pub unregister: bool,
    pub index: RemovedIndex,
}

/// What removing an index does. A project without one keeps its entry.
pub fn plan_remove(has_local: bool, has_global: bool, keep_config: bool) -> (r: RemovePlan)
    ensures
        r.unregister == ((has_local || has_global) && !keep_config),
        r.index == (if has_local && has_global {
            RemovedIndex::LocalBeforeGlobal
        } else if has_local {
            RemovedIndex::Local
        } else if has_global {
            RemovedIndex::Global
        } else {
            RemovedIndex::Nothing
        }),
{
    let index = if has_local && has_global {
        RemovedIndex::LocalBeforeGlobal
    } else if has_local {
        RemovedIndex::Local
    } else if has_global {
        RemovedIndex::Global
    } else {
        RemovedIndex::Nothing
    };
    RemovePlan { unregister: (has_local || has_global) && !keep_config, index }
}

/// Whether a database is cleared: without a question, or after the answer `y`.
pub fn confirms_clear(yes: bool, answer: &str) -> (r: bool)
    ensures
        r == (yes || text::trimmed(answer@) == seq!['y'] || text::trimmed(answer@) == seq!['Y']),
{
    if yes {
        return true;
    }
    let a = chars_of(answer);
    let t = trim(a.as_slice());
    if t.len() == 1 && (t[0] == 'y' || t[0] == 'Y') {
        proof {
            if t@[0] == 'y' {
                assert(t@ =~= seq!['y']);
            } else {
                assert(t@ =~= seq!['Y']);
            }
        }
        true
    } else {
        proof {
            assert(seq!['y'].len() == 1 && seq!['y'][0] == 'y');
            assert(seq!['Y'].len() == 1 && seq!['Y'][0] == 'Y');
        }
        false
    }
}

// ---------------------------------------------------------------------------
// Listing
// ---------------------------------------------------------------------------

/// The names of repositories.
pub open spec fn names_of(repos: Seq<RepoEntry>) -> Seq<String> {
    repos.map_values(|e: RepoEntry| e.alias)
}

/// The places of the repositories, in the order of their names.
pub fn listed_order(config: &ServeConfig) -> (r: Vec<usize>)
    ensures
        sorting::is_sorting(names_of(config.repos@), r@),
{
    let mut names: Vec<String> = Vec::new();
    let mut i: usize = 0;
    while i < config.repos.len()
        invariant
            i <= config.repos.len(),
            names.len() == i,
            forall|j: int| 0 <= j < i ==> (#[trigger] names@[j])@ == config.repos@[j].alias@,
        decreases config.repos.len() - i,
    {
        names.push(owned(config.repos[i].alias.as_str()));
        i += 1;
    }
    let order = sort_places(&names);
    proof {
        let ns = names_of(config.repos@);
        assert forall|a: int, b: int| 0 <= a < b < order@.len() implies sorting::comes_before(
            ns,
            #[trigger] order@[a] as int,
            #[trigger] order@[b] as int,
        ) by {
            assert(sorting::comes_before(names@, order@[a] as int, order@[b] as int));
        }
    }
    order
}

/// Whether the current directory is listed too: it has an index that is not
/// registered.
pub fn lists_current(db_exists: bool, registered: bool) -> (r: bool)
    ensures
        r == (db_exists && !registered),
{
    db_exists && !registered
}

// ---------------------------------------------------------------------------
// Pruning
// ---------------------------------------------------------------------------

/// The lines that tell of repositories that were found again elsewhere.
pub open spec fn relocated_lines(relocated: Seq<RepoEntry>) -> Seq<Seq<char>> {
    relocated.map_values(
        |e: RepoEntry| "📍 relocated '"@ + e.alias@ + "' → "@ + e.path@,
    )
}

/// The lines that tell of repositories that are gone.
pub open spec fn removed_lines(removed: Seq<Seq<char>>) -> Seq<Seq<char>> {
    removed.map_values(|a: Seq<char>| "🗑️  removed stale entry '"@ + a + "'"@)
}

/// What pruning the list of repositories says.
pub open spec fn prune_lines(relocated: Seq<RepoEntry>, removed: Seq<Seq<char>>) -> Seq<Seq<char>> {
    if relocated.len() == 0 && removed.len() == 0 {
        seq!["✅ No stale repositories found — repos.json is clean."@]
    } else {
        (relocated_lines(relocated) + removed_lines(removed)).push(
            "✅ Prune complete: "@ + numbers::decimal(relocated.len()) + " relocated, "@
                + numbers::decimal(removed.len()) + " removed."@,
        )
    }
}

/// What pruning the list of repositories says.
pub fn prune_report(relocated: &Vec<RepoEntry>, removed: &Vec<String>) -> (r: Vec<String>)
    ensures
        text::views(r@) == prune_lines(relocated@, text::views(removed@)),
{
    let mut out: Vec<String> = Vec::new();
    let ghost rs = text::views(removed@);
    if relocated.len() == 0 && removed.len() == 0 {
        out.push(owned("✅ No stale repositories found — repos.json is clean."));
        proof {
            assert(text::views(out@) =~= prune_lines(relocated@, rs));
        }
        return out;
    }
    let mut i: usize = 0;
    proof {
        assert(text::views(out@) =~= relocated_lines(relocated@).take(0));
    }
    while i < relocated.len()
        invariant
            i <= relocated.len(),
            text::views(out@) == relocated_lines(relocated@).take(i as int),
        decreases relocated.len() - i,
    {
        let ghost before = text::views(out@);
        let a = concat(concat("📍 relocated '", relocated[i].alias.as_str()).as_str(), "' → ");
        out.push(concat(a.as_str(), relocated[i].path.as_str()));
        proof {
            assert(text::views(out@) =~= before.push(relocated_lines(relocated@)[i as int]));
            assert(text::views(out@) =~= relocated_lines(relocated@).take(i + 1));
        }
        i += 1;
    }
    let mut k: usize = 0;
    let ghost first = relocated_lines(relocated@);
    proof {
        assert(first.take(first.len() as int) =~= first);
        assert(text::views(out@) =~= first + removed_lines(rs).take(0));
    }
    while k < removed.len()
        invariant
            k <= removed.len(),
            rs == text::views(removed@),
            text::views(out@) == first + removed_lines(rs).take(k as int),
        decreases removed.len() - k,
    {
        let ghost before = text::views(out@);
        out.push(concat(concat("🗑️  removed stale entry '", removed[k].as_str()).as_str(), "'"));
        proof {
            assert(rs[k as int] == removed@[k as int]@);
            assert(text::views(out@) =~= before.push(removed_lines(rs)[k as int]));
            assert(text::views(out@) =~= first + removed_lines(rs).take(k + 1));
        }
        k += 1;
    }
    let ghost before = text::views(out@);
    let a = concat("✅ Prune complete: ", number(relocated.len()).as_str());
    let b = concat(concat(a.as_str(), " relocated, ").as_str(), number(removed.len()).as_str());
    let last = concat(b.as_str(), " removed.");
    let ghost last_view = last@;
    out.push(last);
    proof {
        assert(removed_lines(rs).take(removed_lines(rs).len() as int) =~= removed_lines(rs));
        assert(text::views(out@) =~= before.push(last_view));
        assert(text::views(out@) =~= prune_lines(relocated@, rs));
    }
    out
}

/// A report of a prune has a line for each repository that was relocated and each
/// entry that was removed, in that order, and one with the numbers of both; one
/// line alone where nothing was stale.
pub proof fn law_prune_report(relocated: Seq<RepoEntry>, removed: Seq<Seq<char>>, i: int)
    ensures
        relocated.len() == 0 && removed.len() == 0 ==> prune_lines(relocated, removed).len() == 1,
        relocated.len() + removed.len() > 0 ==> prune_lines(relocated, removed).len()
            == relocated.len() + removed.len() + 1,
        0 <= i < relocated.len() ==> prune_lines(relocated, removed)[i] == "📍 relocated '"@
            + relocated[i].alias@ + "' → "@ + relocated[i].path@,
        0 <= i < removed.len() ==> prune_lines(relocated, removed)[relocated.len() + i]
            == "🗑️  removed stale entry '"@ + removed[i] + "'"@,
        relocated.len() + removed.len() > 0 ==> prune_lines(relocated, removed).last()
            == "✅ Prune complete: "@ + numbers::decimal(relocated.len()) + " relocated, "@
            + numbers::decimal(removed.len()) + " removed."@,
{
}

/// What is said of an index that serves a directory already.
pub proof fn law_served_index(existing: ExistingIndex)
    ensures
        existing.is_global ==> served_text(existing)
            == "The global index will be used for all projects."@,
        !existing.is_global ==> served_text(existing)
            == "The parent directory index will be used for this subdirectory."@,
{
}

/// Repositories are listed by their aliases, each at its place.
pub proof fn law_listed_aliases(repos: Seq<RepoEntry>, i: int)
    requires
        0 <= i < repos.len(),
    ensures
        names_of(repos).len() == repos.len(),
        names_of(repos)[i] == repos[i].alias,
{
}

/// The index of the directory itself is registered, another that serves it is
/// named, a global one beside a local one is refused, and only where there is
/// none one is made.
pub proof fn law_adding(
    existing: Option<ExistingIndex>,
    has_local: bool,
    has_global: bool,
    global: bool,
    r: AddPlan,
)
    requires
        call_ensures(plan_add, (existing, has_local, has_global, global), r),
    ensures
        r is Register <==> existing is Some && existing->0.is_current && !existing->0.is_global,
        r is Served <==> existing is Some && (!existing->0.is_current || existing->0.is_global),
        r is LocalExists <==> existing is None && global && has_local,
        r is Indexed <==> existing is None && !(global && has_local) && (has_local || has_global),
        r is Create <==> existing is None && !has_local && !has_global,
        r is Create ==> r->global == global,
{
}

/// Adding fails where another index serves or a local one is in the way.
pub proof fn law_adding_fails(plan: &AddPlan, r: Option<String>)
    requires
        call_ensures(add_error, (plan,), r),
    ensures
        r is Some <==> plan is Served || plan is LocalExists,
        plan is Served ==> r->0@ == "Index already exists in parent or current directory"@,
        plan is LocalExists ==> r->0@ == "Local index exists"@,
{
}

/// A removal takes the local index before the global one, and forgets the
/// repository unless that is to be kept. It is of the repository with the alias
/// that is given, of the path that is given, or of the directory itself.
pub proof fn law_removing(
    has_local: bool,
    has_global: bool,
    keep_config: bool,
    r: RemovePlan,
    config: Option<&ServeConfig>,
    argument: Option<&str>,
    t: String,
)
    requires
        call_ensures(plan_remove, (has_local, has_global, keep_config), r),
        call_ensures(removal_target, (config, argument), t),
    ensures
        r.unregister <==> (has_local || has_global) && !keep_config,
        r.index == RemovedIndex::Nothing <==> !has_local && !has_global,
        r.index == RemovedIndex::Local <==> has_local && !has_global,
        r.index == RemovedIndex::Global <==> !has_local && has_global,
        r.index == RemovedIndex::LocalBeforeGlobal <==> has_local && has_global,
        argument is None ==> t@ == "."@,
        argument is Some && config is None ==> t@ == argument->0@,
        argument is Some && config is Some && routing::repo_path(config->0.repos@, argument->0@) is None
            ==> t@ == argument->0@,
        argument is Some && config is Some && routing::repo_path(config->0.repos@, argument->0@) is Some
            ==> Some(t@) == routing::repo_path(config->0.repos@, argument->0@),
{
}

/// A clear is confirmed by the flag or by the letter `y`, and a directory is
/// listed by itself only where it has a database and is not registered.
pub proof fn law_confirming(yes: bool, answer: &str, r: bool, db_exists: bool, registered: bool, l: bool)
    requires
        call_ensures(confirms_clear, (yes, answer), r),
        call_ensures(lists_current, (db_exists, registered), l),
    ensures
        yes ==> r,
        text::trimmed(answer@) == seq!['y'] || text::trimmed(answer@) == seq!['Y'] ==> r,
        !yes && text::trimmed(answer@).len() != 1 ==> !r,
        l <==> db_exists && !registered,
{
}

} // verus!
