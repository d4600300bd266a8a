//! Which repositories answer a request, and how their results are named.
use vstd::prelude::*;

use crate::paths;
use crate::paths::{
    find_root, normalize_path_str, normalize_root, normalize_tool_path, prefix_path_multi,
    prefix_path_with_alias, strip_alias_prefix, AliasRoot,
};
use crate::sorting;
use crate::sorting::sort_places;
use crate::text::{chars_of, concat, owned, same, str_eq};

verus! {

// ---------------------------------------------------------------------------
// The configuration of the server
// ---------------------------------------------------------------------------

/// A registered repository.
#[derive(Debug)]
pub struct RepoEntry {
    pub alias: String,
    pub path: String,
}

/// What the server knows of its repositories and groups.
#[derive(Debug)]
pub struct ServeConfig {
    pub repos: Vec<RepoEntry>,
    pub groups: Vec<String>,
}

/// The path of a repository: that of the first entry with the alias.
pub open spec fn repo_path(repos: Seq<RepoEntry>, alias: Seq<char>) -> Option<Seq<char>>
    decreases repos.len(),
{
    if repos.len() == 0 {
        None
    } else if repos[0].alias@ == alias {
        Some(repos[0].path@)
    } else {
        repo_path(repos.skip(1), alias)
    }
}

impl ServeConfig {
    /// The path of a repository.
    pub fn resolve(&self, alias: &str) -> (r: Option<&String>)
        ensures
            match r {
                Some(p) => repo_path(self.repos@, alias@) == Some(p@),
                None => repo_path(self.repos@, alias@) is None,
            },
    {
        let a = chars_of(alias);
        let mut i: usize = 0;
        proof {
            assert(self.repos@.skip(0) =~= self.repos@);
        }
        while i < self.repos.len()
            invariant
                i <= self.repos.len(),
                a@ == alias@,
                repo_path(self.repos@, alias@) == repo_path(self.repos@.skip(i as int), alias@),
            decreases self.repos.len() - i,
        {
            proof {
                assert(self.repos@.skip(i as int).skip(1) =~= self.repos@.skip(i + 1));
            }
            if same(chars_of(self.repos[i].alias.as_str()).as_slice(), a.as_slice()) {
                return Some(&self.repos[i].path);
            }
            i += 1;
        }
        None
    }

    /// The aliases of all repositories.
    pub fn aliases(&self) -> (r: Vec<String>)
        ensures
            r@ == self.repos@.map_values(|e: RepoEntry| e.alias),
    {
        let mut out: Vec<String> = Vec::new();
        let mut i: usize = 0;
        while i < self.repos.len()
            invariant
                i <= self.repos.len(),
                out@ == self.repos@.map_values(|e: RepoEntry| e.alias).take(i as int),
            decreases self.repos.len() - i,
        {
            out.push(self.repos[i].alias.clone());
            i += 1;
        }
        proof {
            let all = self.repos@.map_values(|e: RepoEntry| e.alias);
            assert(all.take(all.len() as int) =~= all);
        }
        out
    }
}

// ---------------------------------------------------------------------------
// Sorting names
// ---------------------------------------------------------------------------

/// The names in order.
pub open spec fn sorted_names(names: Seq<String>) -> Seq<String> {
    sorting::sorted_by(names, names)
}

/// The names in order.
pub fn sort_names(names: &Vec<String>) -> (r: Vec<String>)
    ensures
        r@ == sorted_names(names@),
{
    let order = sort_places(names);
    let ghost all = sorted_names(names@);
    let mut out: Vec<String> = Vec::new();
    let mut i: usize = 0;
    while i < order.len()
        invariant
            i <= order.len(),
            sorting::is_sorting(names@, order@),
            order@ == sorting::sorting(names@),
            all == sorted_names(names@),
            out@ == all.take(i as int),
        decreases order.len() - i,
    {
        assert(order@[i as int] < names@.len());
        out.push(names[order[i]].clone());
        i += 1;
    }
    proof {
        assert(all.take(all.len() as int) =~= all);
    }
    out
}

// ---------------------------------------------------------------------------
// Choosing the stores
// ---------------------------------------------------------------------------

/// Which stores a request goes to.
#[derive(Debug)]
pub enum Route {
    /// The local database.
    Local,
    /// The stores of these repositories; `touch` where that counts as an access.
    Open { aliases: Vec<String>, touch: bool },
    /// The stores of the members of a group, which have to be looked up.
    Members { group: String },
    /// More than one repository, and the request names none.
    ScopeRequired { projects: Vec<String>, groups: Vec<String> },
    /// The request cannot be routed.
    Refused { message: String },
}

/// What a request is told that names a project or a group while no server runs.
pub open spec fn no_server_text() -> Seq<char> {
    "project/group routing requires `codesearch serve` to be running."@
}

/// What a request is told that names both a project and a group.
pub open spec fn both_text() -> Seq<char> {
    "Specify either project or group, not both."@
}

/// What a request is told that names a group without members.
pub open spec fn no_members_text(group: Seq<char>) -> Seq<char> {
    "Group '"@ + group + "' has no members."@
}

/// The name of the group that holds every repository.
pub open spec fn all_name() -> Seq<char> {
    "all"@
}

/// The name stands among the names.
pub open spec fn has_name(names: Seq<String>, name: Seq<char>) -> bool {
    exists|i: int| 0 <= i < names.len() && (#[trigger] names[i])@ == name
}

/// The groups that a request can name, in order: those that are stored, and the
/// one that holds every repository.
pub open spec fn offered(stored: Seq<String>, groups: Seq<String>) -> bool {
    if has_name(stored, all_name()) {
        groups == sorted_names(stored)
    } else {
        exists|all: String| #[trigger]
            all@ == all_name() && groups == sorted_names(stored.push(all))
    }
}

fn offer_groups(stored: &Vec<String>) -> (r: Vec<String>)
    ensures
        offered(stored@, r@),
{
    let mut names = copy_names(stored);
    let mut i: usize = 0;
    while i < stored.len()
        invariant
            i <= stored.len(),
            names@ == stored@,
            forall|j: int| 0 <= j < i ==> (#[trigger] stored@[j])@ != all_name(),
        decreases stored.len() - i,
    {
        if str_eq(stored[i].as_str(), "all") {
            return sort_names(&names);
        }
        i += 1;
    }
    let all = owned("all");
    let ghost name = all;
    names.push(all);
    proof {
        assert(name@ == all_name());
        assert(names@ == stored@.push(name));
    }
    sort_names(&names)
}

/// The route of a request.
pub open spec fn is_route(
    project: Option<String>,
    group: Option<String>,
    allow_unscoped: bool,
    serve: Option<&ServeConfig>,
    r: Route,
) -> bool {
    match (project, group, serve) {
        (None, None, None) => r is Local,
        (None, None, Some(cfg)) => if cfg.repos@.len() > 1 && !allow_unscoped {
            r matches Route::ScopeRequired { projects, groups } && projects@ == sorted_names(
                cfg.repos@.map_values(|e: RepoEntry| e.alias),
            ) && offered(cfg.groups@, groups@)
        } else if cfg.repos@.len() > 0 {
            r matches Route::Open { aliases, touch } && !touch && aliases@
                == cfg.repos@.map_values(|e: RepoEntry| e.alias)
        } else {
            r is Local
        },
        (_, _, None) => r matches Route::Refused { message } && message@ == no_server_text(),
        (Some(p), Some(g), Some(cfg)) => r matches Route::Refused { message } && message@
            == both_text(),
        (Some(p), None, Some(cfg)) => r matches Route::Open { aliases, touch } && touch
            && aliases@ == seq![p],
        (None, Some(g), Some(cfg)) => if g@ != all_name() {
            r matches Route::Members { group: name } && name == g
        } else if cfg.repos@.len() > 0 {
            r matches Route::Open { aliases, touch } && !touch && aliases@
                == cfg.repos@.map_values(|e: RepoEntry| e.alias)
        } else {
            r matches Route::Refused { message } && message@ == no_members_text(g@)
        },
    }
}

/// Chooses the stores for a request.
///
/// Without a project and a group, a server with several repositories asks for a
/// scope, unless `allow_unscoped`; with one repository, or unscoped, all of them
/// answer; without repositories, or without a server, the local database does.
/// The group `all` always holds every repository.
pub fn resolve_repo_stores_multi(
    project: &Option<String>,
    group: &Option<String>,
    allow_unscoped: bool,
    serve: Option<&ServeConfig>,
) -> (r: Route)
    ensures
        is_route(*project, *group, allow_unscoped, serve, r),
{
    let cfg = match serve {
        Some(c) => c,
        None => {
            return if project.is_none() && group.is_none() {
                Route::Local
            } else {
                Route::Refused {
                    message: owned(
                        "project/group routing requires `codesearch serve` to be running.",
                    ),
                }
            };
        },
    };
    match (project, group) {
        (None, None) => {
            let aliases = cfg.aliases();
            if aliases.len() > 1 && !allow_unscoped {
                Route::ScopeRequired {
                    projects: sort_names(&aliases),
                    groups: offer_groups(&cfg.groups),
                }
            } else if aliases.len() > 0 {
                Route::Open { aliases, touch: false }
            } else {
                Route::Local
            }
        },
        (Some(p), Some(g)) => Route::Refused {
            message: owned("Specify either project or group, not both."),
        },
        (Some(p), None) => {
            let mut aliases: Vec<String> = Vec::new();
            aliases.push(p.clone());
            proof {
                assert(aliases@ =~= seq![*p]);
            }
            Route::Open { aliases, touch: true }
        },
        (None, Some(g)) => if str_eq(g.as_str(), "all") {
            resolve_group_members(g.as_str(), cfg.aliases())
        } else {
            Route::Members { group: g.clone() }
        },
    }
}

/// A copy of a list of names.
pub fn copy_names(names: &Vec<String>) -> (r: Vec<String>)
    ensures
        r@ == names@,
{
    let mut out: Vec<String> = Vec::new();
    let mut i: usize = 0;
    while i < names.len()
        invariant
            i <= names.len(),
            out@ == names@.take(i as int),
        decreases names.len() - i,
    {
        out.push(names[i].clone());
        i += 1;
    }
    proof {
        assert(names@.take(names@.len() as int) =~= names@);
    }
    out
}

/// Chooses the stores of a group whose members have been looked up.
pub fn resolve_group_members(group: &str, members: Vec<String>) -> (r: Route)
    ensures
        if members@.len() == 0 {
            r matches Route::Refused { message } && message@ == no_members_text(group@)
        } else {
            r matches Route::Open { aliases, touch } && !touch && aliases@ == members@
        },
{
    if members.len() == 0 {
        Route::Refused {
            message: concat(concat("Group '", group).as_str(), "' has no members."),
        }
    } else {
        Route::Open { aliases: members, touch: false }
    }
}

/// What a request is told that has to name a project or a group.
#[derive(Debug)]
pub struct ScopeError {
    pub error_code: String,
    pub message: String,
    pub available_projects: Vec<String>,
    pub available_groups: Vec<String>,
    pub hint_for_agent: String,
}

/// What a request is told that has to name one of these projects or groups.
pub fn format_scope_error(projects: Vec<String>, groups: Vec<String>) -> (r: ScopeError)
    ensures
        r.error_code@ == "scope_required"@,
        r.message@
            == "Specify project= for a single repository or group= for cross-repo search."@,
        r.available_projects@ == projects@,
        r.available_groups@ == groups@,
        r.hint_for_agent@
            == "If the user has not indicated which repository to search, ask them to choose. Show available_projects and available_groups as options."@,
{
    ScopeError {
        error_code: owned("scope_required"),
        message: owned(
            "Specify project= for a single repository or group= for cross-repo search.",
        ),
        available_projects: projects,
        available_groups: groups,
        hint_for_agent: owned(
            "If the user has not indicated which repository to search, ask them to choose. Show available_projects and available_groups as options.",
        ),
    }
}

/// How the resolved stores are used: one alone, several side by side, or none.
#[derive(Debug)]
pub struct StoreChoice<T> {
    /// The only store.
    pub stores: Option<T>,
    /// The stores to fan out to, where there are two or more.
    pub stores_vec: Option<Vec<T>>,
    pub is_multi: bool,
    pub needs_local_db: bool,
}

/// The choice that belongs to resolved stores.
pub open spec fn store_choice<T>(resolved: Option<Vec<T>>, r: StoreChoice<T>) -> bool {
    &&& r.is_multi == (resolved is Some && resolved->0@.len() > 1)
    &&& r.stores == (if resolved is Some && resolved->0@.len() == 1 {
        Some(resolved->0@[0])
    } else {
        None
    })
    &&& r.stores_vec == (if resolved is Some && resolved->0@.len() > 1 {
        resolved
    } else {
        None
    })
    &&& r.needs_local_db == (resolved is None || resolved->0@.len() == 0)
}

/// Takes the resolved stores apart: one alone, several side by side, or none.
pub fn decompose_routing_ctx<T>(resolved: Option<Vec<T>>) -> (r: StoreChoice<T>)
    ensures
        store_choice(resolved, r),
{
    match resolved {
        None => StoreChoice {
            stores: None,
            stores_vec: None,
            is_multi: false,
            needs_local_db: true,
        },
        Some(v) => {
            if v.len() > 1 {
                StoreChoice {
                    stores: None,
                    stores_vec: Some(v),
                    is_multi: true,
                    needs_local_db: false,
                }
            } else if v.len() == 1 {
                let mut v = v;
                let only = v.pop();
                StoreChoice {
                    stores: only,
                    stores_vec: None,
                    is_multi: false,
                    needs_local_db: false,
                }
            } else {
                StoreChoice {
                    stores: None,
                    stores_vec: None,
                    is_multi: false,
                    needs_local_db: true,
                }
            }
        },
    }
}

// ---------------------------------------------------------------------------
// The context of a request
// ---------------------------------------------------------------------------

/// What the handler of a request needs to know of its routing.
#[derive(Debug)]
pub struct MultiStoreContext {
    /// The aliases of the stores, where there are two or more.
    pub store_aliases: Option<Vec<String>>,
    /// The alias of the only store.
    pub project_alias: Option<String>,
    /// The normal root of each alias.
    pub alias_roots: Vec<AliasRoot>,
    pub is_multi: bool,
    pub needs_local_db: bool,
}

/// Aliases and roots, without their containers.
pub open spec fn root_pairs(roots: Seq<AliasRoot>) -> Seq<(Seq<char>, Seq<char>)> {
    Seq::new(roots.len(), |i: int| (roots[i].alias@, roots[i].root@))
}

/// The roots of those aliases that the server knows.
pub open spec fn known_roots(aliases: Seq<String>, repos: Seq<RepoEntry>) -> Seq<
    (Seq<char>, Seq<char>),
>
    decreases aliases.len(),
{
    if aliases.len() == 0 {
        Seq::empty()
    } else {
        let before = known_roots(aliases.drop_last(), repos);
        match repo_path(repos, aliases.last()@) {
            Some(p) => before.push((aliases.last()@, paths::normal_root(p))),
            None => before,
        }
    }
}

fn roots_of_aliases(aliases: &Vec<String>, cfg: &ServeConfig) -> (r: Vec<AliasRoot>)
    ensures
        root_pairs(r@) == known_roots(aliases@, cfg.repos@),
{
    let mut out: Vec<AliasRoot> = Vec::new();
    let mut i: usize = 0;
    proof {
        assert(root_pairs(out@) =~= known_roots(aliases@.take(0), cfg.repos@));
    }
    while i < aliases.len()
        invariant
            i <= aliases.len(),
            root_pairs(out@) == known_roots(aliases@.take(i as int), cfg.repos@),
        decreases aliases.len() - i,
    {
        let ghost before = root_pairs(out@);
        proof {
            assert(aliases@.take(i + 1).drop_last() =~= aliases@.take(i as int));
        }
        match cfg.resolve(aliases[i].as_str()) {
            Some(p) => {
                let root = normalize_root(p.as_str());
                out.push(AliasRoot { alias: aliases[i].clone(), root });
                proof {
                    assert(root_pairs(out@) =~= before.push(
                        (aliases@[i as int]@, paths::normal_root(p@)),
                    ));
                }
            },
            None => {},
        }
        i += 1;
    }
    proof {
        assert(aliases@.take(aliases@.len() as int) =~= aliases@);
    }
    out
}

/// The context of a request whose stores have been resolved to these aliases.
pub fn routing_context(aliases: Option<Vec<String>>, serve: Option<&ServeConfig>) -> (r:
    MultiStoreContext)
    ensures
        r.is_multi == (aliases is Some && aliases->0@.len() > 1),
        r.needs_local_db == (aliases is None || aliases->0@.len() == 0),
        r.project_alias == (if aliases is Some && aliases->0@.len() == 1 {
            Some(aliases->0@[0])
        } else {
            None
        }),
        r.is_multi ==> r.store_aliases is Some && r.store_aliases->0@ == aliases->0@,
        !r.is_multi ==> r.store_aliases is None,
        root_pairs(r.alias_roots@) == (match (aliases, serve) {
            (Some(v), Some(cfg)) => known_roots(v@, cfg.repos@),
            _ => Seq::empty(),
        }),
{
    let mut roots: Vec<AliasRoot> = Vec::new();
    proof {
        assert(root_pairs(roots@) =~= Seq::empty());
    }
    match &aliases {
        Some(v) => match serve {
            Some(cfg) => {
                roots = roots_of_aliases(v, cfg);
            },
            None => {},
        },
        None => {},
    }
    let choice = decompose_routing_ctx(aliases);
    MultiStoreContext {
        store_aliases: choice.stores_vec,
        project_alias: choice.stores,
        alias_roots: roots,
        is_multi: choice.is_multi,
        needs_local_db: choice.needs_local_db,
    }
}

impl MultiStoreContext {
    /// The path under which a result is shown.
    pub open spec fn shown_path(&self, path: Seq<char>) -> Seq<char> {
        if self.project_alias is Some && paths::root_of(
            self.alias_roots@,
            self.project_alias->0@,
        ) is Some {
            paths::aliased(
                path,
                self.project_alias->0@,
                paths::root_of(self.alias_roots@, self.project_alias->0@)->0,
            )
        } else if self.store_aliases is Some {
            paths::owner_aliased(path, self.store_aliases->0@, self.alias_roots@)
        } else {
            paths::normal(path)
        }
    }

    /// The path under which a result is shown: with the alias of the project,
    /// with that of the repository of the group that owns it, or as it is.
    pub fn prefix_result_path(&self, path: &str) -> (r: String)
        ensures
            r@ == self.shown_path(path@),
    {
        match &self.project_alias {
            Some(alias) => match find_root(&self.alias_roots, alias.as_str()) {
                Some(root) => {
                    return prefix_path_with_alias(path, Some(alias.as_str()), root.as_str());
                },
                None => {},
            },
            None => {},
        }
        match &self.store_aliases {
            Some(aliases) => prefix_path_multi(path, aliases, &self.alias_roots),
            None => normalize_path_str(path),
        }
    }

    /// The root of the repository that a request speaks of: that of its alias,
    /// or else the server's own project.
    pub open spec fn root_for(&self, own_root: Seq<char>) -> Seq<char> {
        match self.project_alias {
            Some(alias) => match paths::root_of(self.alias_roots@, alias@) {
                Some(root) => root,
                None => own_root,
            },
            None => own_root,
        }
    }

    /// The file that a request names, as the stores know it: without the alias,
    /// below the root of its repository, in normal form.
    pub fn tool_file(&self, path: &str, own_root: &str) -> (r: String)
        ensures
            r@ == paths::normal(
                paths::joined(
                    self.root_for(own_root@),
                    match self.project_alias {
                        Some(alias) => paths::without_alias(path@, alias@),
                        None => path@,
                    },
                ),
            ),
    {
        match &self.project_alias {
            Some(alias) => {
                let rest = strip_alias_prefix(path, Some(alias));
                match find_root(&self.alias_roots, alias.as_str()) {
                    Some(root) => normalize_tool_path(rest.as_str(), root.as_str()),
                    None => normalize_tool_path(rest.as_str(), own_root),
                }
            },
            None => normalize_tool_path(path, own_root),
        }
    }

    /// The repositories on whose account a tool call is recorded, and whether
    /// the call counts as an access to them.
    ///
    /// A call without a scope that fans out is recorded nowhere.
    pub fn recorded_aliases(&self, allow_unscoped: bool) -> (r: (Vec<String>, bool))
        ensures
            r.0@ == (if allow_unscoped && self.is_multi {
                Seq::empty()
            } else if self.store_aliases is Some {
                self.store_aliases->0@ + (if self.project_alias is Some {
                    seq![self.project_alias->0]
                } else {
                    Seq::empty()
                })
            } else if self.project_alias is Some {
                seq![self.project_alias->0]
            } else {
                Seq::empty()
            }),
            r.1 == (self.store_aliases is Some && !(allow_unscoped && self.is_multi)),
    {
        let mut out: Vec<String> = Vec::new();
        if allow_unscoped && self.is_multi {
            return (out, false);
        }
        let mut touch = false;
        match &self.store_aliases {
            Some(aliases) => {
                out = copy_names(aliases);
                touch = true;
            },
            None => {},
        }
        match &self.project_alias {
            Some(alias) => {
                out.push(alias.clone());
            },
            None => {},
        }
        (out, touch)
    }
}

/// A request goes one way only: to a single store, to several, or to the local
/// database.
pub proof fn law_exactly_one_way<T>(resolved: Option<Vec<T>>, r: StoreChoice<T>)
    requires
        store_choice(resolved, r),
    ensures
        r.is_multi == r.stores_vec is Some,
        r.needs_local_db == (r.stores is None && r.stores_vec is None),
        !(r.stores is Some && r.stores_vec is Some),
{
}

/// A server with several repositories answers no request that names neither a
/// project nor a group, unless the tool works without a scope.
pub proof fn law_scope_is_required(
    project: Option<String>,
    group: Option<String>,
    cfg: ServeConfig,
    r: Route,
)
    requires
        is_route(project, group, false, Some(&cfg), r),
        cfg.repos@.len() > 1,
    ensures
        r is ScopeRequired <==> project is None && group is None,
{
}

/// The group `all` reaches every repository that is registered, and no other.
pub proof fn law_all_reaches_every_repository(
    group: String,
    allow_unscoped: bool,
    cfg: ServeConfig,
    r: Route,
    alias: String,
)
    requires
        is_route(None, Some(group), allow_unscoped, Some(&cfg), r),
        group@ == all_name(),
        cfg.repos@.len() > 0,
    ensures
        r is Open,
        r->aliases@.contains(alias) <==> exists|i: int|
            0 <= i < cfg.repos@.len() && (#[trigger] cfg.repos@[i]).alias == alias,
{
    let aliases = cfg.repos@.map_values(|e: RepoEntry| e.alias);
    if aliases.contains(alias) {
        let i = choose|i: int| 0 <= i < aliases.len() && aliases[i] == alias;
        assert(cfg.repos@[i].alias == alias);
    }
    if exists|i: int| 0 <= i < cfg.repos@.len() && (#[trigger] cfg.repos@[i]).alias == alias {
        let i = choose|i: int|
            0 <= i < cfg.repos@.len() && (#[trigger] cfg.repos@[i]).alias == alias;
        assert(aliases[i] == alias);
    }
}

/// The path of a repository is that of the first entry with its alias.
pub proof fn law_path_of_a_repository(repos: Seq<RepoEntry>, alias: Seq<char>, i: int)
    requires
        0 <= i <= repos.len(),
        forall|j: int| 0 <= j < i ==> (#[trigger] repos[j]).alias@ != alias,
    ensures
        i < repos.len() && repos[i].alias@ == alias ==> repo_path(repos, alias) == Some(
            repos[i].path@,
        ),
        i == repos.len() ==> repo_path(repos, alias) is None,
    decreases i,
{
    if i > 0 {
        let rest = repos.skip(1);
        assert forall|j: int| 0 <= j < i - 1 implies (#[trigger] rest[j]).alias@ != alias by {
            assert(rest[j] == repos[j + 1]);
        }
        assert(repos[0].alias@ != alias);
        law_path_of_a_repository(rest, alias, i - 1);
        if i < repos.len() {
            assert(rest[i - 1] == repos[i]);
        }
    }
}

/// Names in order are the same names, none before a smaller one.
pub proof fn law_names_in_order(names: Seq<String>) -> (order: Seq<usize>)
    requires
        names.len() <= usize::MAX,
    ensures
        order.len() == names.len(),
        order.no_duplicates(),
        sorted_names(names).len() == names.len(),
        forall|a: int|
            0 <= a < order.len() ==> 0 <= #[trigger] order[a] < names.len() && sorted_names(
                names,
            )[a] == names[order[a] as int],
        forall|i: int| 0 <= i < names.len() ==> order.contains(#[trigger] (i as usize)),
        forall|a: int, b: int|
            0 <= a < b < names.len() ==> sorting::SortKey::upto(
                #[trigger] sorted_names(names)[a],
                #[trigger] sorted_names(names)[b],
            ),
{
    let order = sorting::law_sorted_items(names, names);
    assert forall|a: int, b: int| 0 <= a < b < names.len() implies sorting::SortKey::upto(
        #[trigger] sorted_names(names)[a],
        #[trigger] sorted_names(names)[b],
    ) by {
        assert(0 <= order[a] < names.len() && 0 <= order[b] < names.len());
    }
    order
}

/// The groups that are offered hold every group of the configuration and `all`,
/// which is added only where no group has that name.
pub proof fn law_offered_groups(stored: Seq<String>, groups: Seq<String>, i: int)
    requires
        offered(stored, groups),
        stored.len() < usize::MAX,
    ensures
        has_name(groups, "all"@),
        0 <= i < stored.len() ==> groups.contains(stored[i]),
        has_name(stored, "all"@) ==> groups.len() == stored.len(),
        !has_name(stored, "all"@) ==> groups.len() == stored.len() + 1,
        forall|a: int, b: int|
            0 <= a < b < groups.len() ==> sorting::SortKey::upto(
                #[trigger] groups[a],
                #[trigger] groups[b],
            ),
{
    if has_name(stored, all_name()) {
        let order = law_names_in_order(stored);
        let k = choose|k: int| 0 <= k < stored.len() && (#[trigger] stored[k])@ == all_name();
        assert(order.contains(k as usize));
        let a = choose|a: int| 0 <= a < order.len() && order[a] == k as usize;
        assert(groups[a] == stored[k]);
        if 0 <= i < stored.len() {
            assert(order.contains(i as usize));
            let b = choose|b: int| 0 <= b < order.len() && order[b] == i as usize;
            assert(groups[b] == stored[i]);
        }
    } else {
        let all = choose|all: String| #[trigger]
            all@ == all_name() && groups == sorted_names(stored.push(all));
        let names = stored.push(all);
        let order = law_names_in_order(names);
        let k = stored.len() as int;
        assert(order.contains(k as usize));
        let a = choose|a: int| 0 <= a < order.len() && order[a] == k as usize;
        assert(groups[a] == names[k]);
        assert(groups[a]@ == all_name());
        if 0 <= i < stored.len() {
            assert(order.contains(i as usize));
            let b = choose|b: int| 0 <= b < order.len() && order[b] == i as usize;
            assert(groups[b] == names[i]);
        }
    }
}

/// Where no server runs, a call without project and group is answered locally and
/// any other is refused.
pub proof fn law_without_a_server(
    project: Option<String>,
    group: Option<String>,
    allow_unscoped: bool,
    r: Route,
)
    requires
        is_route(project, group, allow_unscoped, None, r),
    ensures
        project is None && group is None ==> r is Local,
        project is Some || group is Some ==> r is Refused && r->message@
            == "project/group routing requires `codesearch serve` to be running."@,
{
}

/// A project leads to that repository alone, which counts as used; a group other
/// than `all` to its members; both together are refused.
pub proof fn law_project_or_group(
    project: String,
    group: String,
    allow_unscoped: bool,
    cfg: ServeConfig,
    r: Route,
)
    ensures
        is_route(Some(project), None, allow_unscoped, Some(&cfg), r) ==> r is Open && r->touch
            && r->aliases@ == seq![project],
        is_route(Some(project), Some(group), allow_unscoped, Some(&cfg), r) ==> r is Refused
            && r->message@ == "Specify either project or group, not both."@,
        is_route(None, Some(group), allow_unscoped, Some(&cfg), r) && group@ != "all"@
            ==> r is Members && r->group == group,
        is_route(None, Some(group), allow_unscoped, Some(&cfg), r) && group@ == "all"@
            && cfg.repos@.len() == 0 ==> r is Refused && r->message@
            == "Group 'all' has no members."@,
{
    reveal_strlit("all");
    reveal_strlit("Group '");
    reveal_strlit("' has no members.");
    reveal_strlit("Group 'all' has no members.");
    assert("Group '"@ + "all"@ + "' has no members."@ =~= "Group 'all' has no members."@);
}

/// A call without project and group that needs no scope reaches every repository
/// of the server, in their order, and counts for none. With one repository it
/// needs no scope, and with none it is answered locally.
pub proof fn law_without_scope(allow_unscoped: bool, cfg: ServeConfig, r: Route, i: int)
    requires
        is_route(None, None, allow_unscoped, Some(&cfg), r),
        cfg.repos@.len() <= usize::MAX,
    ensures
        cfg.repos@.len() == 0 ==> r is Local,
        cfg.repos@.len() == 1 || cfg.repos@.len() > 1 && allow_unscoped ==> r is Open && !r->touch
            && r->aliases@.len() == cfg.repos@.len(),
        r is Open && 0 <= i < cfg.repos@.len() ==> r->aliases@[i] == cfg.repos@[i].alias,
        cfg.repos@.len() > 1 && !allow_unscoped ==> r is ScopeRequired && r->projects@.len()
            == cfg.repos@.len(),
{
    if cfg.repos@.len() > 1 && !allow_unscoped {
        let names = cfg.repos@.map_values(|e: RepoEntry| e.alias);
        let order = law_names_in_order(names);
    }
}

/// Where a scope is required, the projects that are offered are those of the
/// server.
pub proof fn law_offered_projects(cfg: ServeConfig, r: Route, i: int)
    requires
        is_route(None, None, false, Some(&cfg), r),
        1 < cfg.repos@.len() <= usize::MAX,
        0 <= i < cfg.repos@.len(),
    ensures
        r is ScopeRequired,
        r->projects@.contains(cfg.repos@[i].alias),
        offered(cfg.groups@, r->groups@),
{
    let names = cfg.repos@.map_values(|e: RepoEntry| e.alias);
    let order = law_names_in_order(names);
    assert(order.contains(i as usize));
    let a = choose|a: int| 0 <= a < order.len() && order[a] == i as usize;
    assert(r->projects@[a] == names[i]);
}

/// The roots that are known are those of the aliases with a repository, each in
/// its normal form, in the order of the aliases.
pub proof fn law_known_roots(aliases: Seq<String>, repos: Seq<RepoEntry>) -> (places: Seq<int>)
    ensures
        sorting::selects(
            places,
            aliases.len() as int,
            |i: int| repo_path(repos, aliases[i]@) is Some,
        ),
        known_roots(aliases, repos).len() == places.len(),
        forall|k: int|
            0 <= k < places.len() ==> (#[trigger] known_roots(aliases, repos)[k]).0
                == aliases[places[k]]@ && known_roots(aliases, repos)[k].1 == paths::normal_root(
                repo_path(repos, aliases[places[k]]@)->0,
            ),
    decreases aliases.len(),
{
    if aliases.len() == 0 {
        Seq::empty()
    } else {
        let front = aliases.drop_last();
        let before = law_known_roots(front, repos);
        let first = known_roots(front, repos);
        let all = known_roots(aliases, repos);
        let places = sorting::lemma_selects_step(
            before,
            aliases.len() - 1,
            |i: int| repo_path(repos, front[i]@) is Some,
            |i: int| repo_path(repos, aliases[i]@) is Some,
        );
        assert forall|k: int| 0 <= k < places.len() implies (#[trigger] all[k]).0
            == aliases[places[k]]@ && all[k].1 == paths::normal_root(
            repo_path(repos, aliases[places[k]]@)->0,
        ) by {
            if k < before.len() {
                assert(all[k] == first[k]);
                assert(front[before[k]] == aliases[places[k]]);
            }
        }
        places
    }
}

/// A file of a project is shown under the project's alias, a file of one of
/// several stores as its owner has it, and any other under its own path.
pub proof fn law_shown_under_the_alias(
    ctx: MultiStoreContext,
    root: Seq<char>,
    rest: Seq<char>,
    path: Seq<char>,
)
    requires
        !(root + seq!['/'] + rest).contains('\\'),
        root.len() > 0,
        root.last() != '/',
        rest.len() > 0 ==> rest[0] != '/',
    ensures
        ctx.project_alias is Some && ctx.project_alias->0@.len() > 0 && paths::root_of(
            ctx.alias_roots@,
            ctx.project_alias->0@,
        ) == Some(root) ==> ctx.shown_path(root + seq!['/'] + rest) == ctx.project_alias->0@
            + seq!['/'] + rest && ctx.root_for(path) == root,
        ctx.project_alias is None && ctx.store_aliases is Some ==> ctx.shown_path(path)
            == paths::owner_aliased(path, ctx.store_aliases->0@, ctx.alias_roots@),
        ctx.project_alias is None && ctx.store_aliases is None ==> ctx.shown_path(path)
            == paths::normal(path),
        ctx.project_alias is None ==> ctx.root_for(path) == path,
        ctx.project_alias is Some && paths::root_of(ctx.alias_roots@, ctx.project_alias->0@) is None
            ==> ctx.root_for(path) == path,
{
    let whole = root + seq!['/'] + rest;
    assert(root.push('/') + rest =~= whole);
    assert(forall|i: int| 0 <= i < root.len() ==> root[i] == #[trigger] whole[i]);
    if root.contains('\\') {
        let i = choose|i: int| 0 <= i < root.len() && root[i] == '\\';
        assert(whole[i] == '\\');
        assert(false);
    }
    lemma_plain(root);
    lemma_plain(whole);
    if ctx.project_alias is Some && paths::root_of(ctx.alias_roots@, ctx.project_alias->0@) == Some(
        root,
    ) {
        let alias = ctx.project_alias->0@;
        paths::law_alias_replaces_root(root, alias, rest);
        assert(alias.push('/') + rest =~= alias + seq!['/'] + rest);
    }
}

proof fn lemma_plain(path: Seq<char>)
    requires
        !path.contains('\\'),
    ensures
        paths::normal(path) == path,
{
    if path.len() >= 1 {
        assert(path[0] != '\\');
    }
    if path.len() >= 4 {
        assert(path.take(4)[0] != '\\');
    }
    paths::law_normal_form(path, 0);
    assert forall|i: int| 0 <= i < path.len() implies paths::normal(path)[i] == path[i] by {
        assert(path[i] != '\\');
        paths::law_normal_form(path, i);
    }
    assert(paths::normal(path) =~= path);
}

/// A group without members is refused, and any other leads to its members.
pub proof fn law_members_of_a_group(group: &str, members: Vec<String>, r: Route)
    requires
        call_ensures(resolve_group_members, (group, members), r),
    ensures
        members@.len() == 0 ==> r is Refused,
        members@.len() > 0 ==> r is Open && !r->touch && r->aliases@ == members@,
{
}

/// A context of one repository has its alias, one of several has all of theirs,
/// and one of none needs the local database.
pub proof fn law_contexts(
    aliases: Option<Vec<String>>,
    serve: Option<&ServeConfig>,
    r: MultiStoreContext,
)
    requires
        call_ensures(routing_context, (aliases, serve), r),
    ensures
        aliases is None ==> r.needs_local_db && !r.is_multi && r.project_alias is None
            && r.store_aliases is None,
        aliases is Some && aliases->0@.len() == 0 ==> r.needs_local_db && r.project_alias is None,
        aliases is Some && aliases->0@.len() == 1 ==> !r.needs_local_db && !r.is_multi
            && r.project_alias == Some(aliases->0@[0]) && r.store_aliases is None,
        aliases is Some && aliases->0@.len() > 1 ==> !r.needs_local_db && r.is_multi
            && r.project_alias is None && r.store_aliases is Some && r.store_aliases->0@
            == aliases->0@,
        aliases is Some && serve is Some ==> root_pairs(r.alias_roots@) == known_roots(
            aliases->0@,
            serve->0.repos@,
        ),
        serve is None ==> r.alias_roots@.len() == 0,
{
    if serve is None {
        assert(root_pairs(r.alias_roots@).len() == r.alias_roots@.len());
    }
}

/// What a call counts for: nothing where it goes to all, else the repositories
/// that it names.
pub proof fn law_recorded_calls(
    ctx: &MultiStoreContext,
    allow_unscoped: bool,
    r: (Vec<String>, bool),
)
    requires
        call_ensures(MultiStoreContext::recorded_aliases, (ctx, allow_unscoped), r),
    ensures
        allow_unscoped && ctx.is_multi ==> r.0@.len() == 0 && !r.1,
        !ctx.is_multi && ctx.store_aliases is None && ctx.project_alias is Some ==> r.0@ == seq![
            ctx.project_alias->0,
        ] && !r.1,
        !allow_unscoped && ctx.store_aliases is Some && ctx.project_alias is None ==> r.0@
            == ctx.store_aliases->0@ && r.1,
        ctx.store_aliases is None && ctx.project_alias is None ==> r.0@.len() == 0,
{
}

/// A tool finds a file of a project below the project's root, with or without the
/// alias before its path.
pub proof fn law_file_of_a_tool(
    ctx: &MultiStoreContext,
    rest: Seq<char>,
    a: &str,
    b: &str,
    own_root: &str,
    x: String,
    y: String,
)
    requires
        ctx.project_alias is Some,
        a@ == ctx.project_alias->0@ + seq!['/'] + rest,
        b@ == rest,
        rest.len() == 0 || paths::without_alias(rest, ctx.project_alias->0@) == rest,
        call_ensures(MultiStoreContext::tool_file, (ctx, a, own_root), x),
        call_ensures(MultiStoreContext::tool_file, (ctx, b, own_root), y),
    ensures
        x@ == y@,
        x@ == paths::normal(paths::joined(ctx.root_for(own_root@), rest)),
{
    paths::law_alias_is_stripped(ctx.project_alias->0@, rest, rest);
}

} // verus!
