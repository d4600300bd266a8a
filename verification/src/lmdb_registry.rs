//! Which database environments are open in this process, so that none is opened
//! twice.
use vstd::prelude::*;

use std::hash::RandomState;

use dashmap::DashMap;

use crate::text::{concat, owned};

verus! {

// ---------------------------------------------------------------------------
// The map
// ---------------------------------------------------------------------------

/// The map of the `dashmap` crate.
#[verifier::external_type_specification]
#[verifier::external_body]
#[verifier::reject_recursive_types(K)]
#[verifier::reject_recursive_types(V)]
#[verifier::reject_recursive_types(S)]
pub struct ExDashMap<K, V, S>(DashMap<K, V, S>);

/// A map from paths to who opened them, and when.
pub type EnvMap = DashMap<String, (String, u64), RandomState>;

/// What a map holds: for each path, who opened it, and when.
pub uninterp spec fn map_contents(map: EnvMap) -> Map<Seq<char>, (Seq<char>, u64)>;

/// `DashMap::new`: a map that holds nothing.
#[verifier::external_body]
fn map_new() -> (r: EnvMap)
    ensures
        map_contents(r).dom() == Set::<Seq<char>>::empty(),
{
    DashMap::new()
}

/// `DashMap::get`: what is held under a key, copied out of the map.
#[verifier::external_body]
fn map_get(map: &EnvMap, key: &str) -> (r: Option<
    (String, u64),
>)
    ensures
        match r {
            Some(v) => map_contents(*map).dom().contains(key@) && map_contents(*map)[key@] == (
                v.0@,
                v.1,
            ),
            None => !map_contents(*map).dom().contains(key@),
        },
{
    map.get(key).map(|v| v.value().clone())
}

/// `DashMap::contains_key`: whether something is held under a key.
#[verifier::external_body]
fn map_contains(map: &EnvMap, key: &str) -> (r: bool)
    ensures
        r == map_contents(*map).dom().contains(key@),
{
    map.contains_key(key)
}

/// `DashMap::insert`: the value is held under the key, in place of what was.
#[verifier::external_body]
fn map_insert(map: &mut EnvMap, key: String, value: (String, u64))
    ensures
        map_contents(*final(map)) == map_contents(*old(map)).insert(key@, (value.0@, value.1)),
{
    map.insert(key, value);
}

/// `DashMap::remove`: nothing is held under the key any more.
#[verifier::external_body]
fn map_remove(map: &mut EnvMap, key: &str)
    ensures
        map_contents(*final(map)) == map_contents(*old(map)).remove(key@),
{
    map.remove(key);
}

// ---------------------------------------------------------------------------
// The registry
// ---------------------------------------------------------------------------

/// Who opened an environment, and when, in milliseconds of a clock.
#[derive(Debug)]
pub struct LmdbEntry {
    pub description: String,
    pub opened_at: u64,
}

/// The environments that are open, by their canonical paths.
pub struct LmdbRegistry {
    map: EnvMap,
}

impl View for LmdbRegistry {
    type V = Map<Seq<char>, (Seq<char>, u64)>;

    closed spec fn view(&self) -> Map<Seq<char>, (Seq<char>, u64)> {
        map_contents(self.map)
    }
}

/// A registry in which nothing is open.
pub fn new_registry() -> (r: LmdbRegistry)
    ensures
        r@ == Map::<Seq<char>, (Seq<char>, u64)>::empty(),
{
    let r = LmdbRegistry { map: map_new() };
    proof {
        assert(r@ =~= Map::<Seq<char>, (Seq<char>, u64)>::empty());
    }
    r
}

/// Registers an environment as open. Where it is open already, nothing changes
/// and the result tells who opened it.
pub fn register(
    registry: &mut LmdbRegistry,
    canonical: &str,
    description: &str,
    now: u64,
) -> (r: Result<(), LmdbEntry>)
    ensures
        if old(registry)@.dom().contains(canonical@) {
            final(registry)@ == old(registry)@ && (r matches Err(e) && (
                e.description@,
                e.opened_at,
            ) == old(registry)@[canonical@])
        } else {
            r is Ok && final(registry)@ == old(registry)@.insert(canonical@, (description@, now))
        },
{
    match map_get(&registry.map, canonical) {
        Some(v) => Err(LmdbEntry { description: v.0, opened_at: v.1 }),
        None => {
            map_insert(&mut registry.map, owned(canonical), (owned(description), now));
            Ok(())
        },
    }
}

/// Registers an environment as closed.
pub fn unregister(registry: &mut LmdbRegistry, canonical: &str)
    ensures
        final(registry)@ == old(registry)@.remove(canonical@),
{
    map_remove(&mut registry.map, canonical)
}

/// Whether an environment is open, without opening it; a path that has no
/// canonical form is none.
pub fn is_open(registry: &LmdbRegistry, canonical: Option<&str>) -> (r: bool)
    ensures
        r == (match canonical {
            Some(c) => registry@.dom().contains(c@),
            None => false,
        }),
{
    match canonical {
        Some(c) => map_contains(&registry.map, c),
        None => false,
    }
}

/// What is said to whom an open environment is refused; `age` tells for how many
/// seconds it has been open.
pub fn double_open_message(canonical: &str, entry: &LmdbEntry, age: &str) -> (r: String)
    ensures
        r@ == "LMDB double-open prevented: "@ + canonical@ + " is already open ("@
            + entry.description@ + ", opened "@ + age@ + "s ago)"@,
{
    let a = concat(concat("LMDB double-open prevented: ", canonical).as_str(), " is already open (");
    let b = concat(concat(a.as_str(), entry.description.as_str()).as_str(), ", opened ");
    concat(concat(b.as_str(), age).as_str(), "s ago)")
}

// ---------------------------------------------------------------------------
// The life of an environment
// ---------------------------------------------------------------------------

/// How far an environment has been opened or closed.
#[derive(Clone, Copy, PartialEq, Eq, Structural, Debug)]
pub enum EnvStage {
    /// It is neither registered nor open.
    Free,
    /// It is registered, and not open (yet, or any more).
    Claimed,
    /// It is registered and open.
    Live,
}

/// What was done.
#[derive(Clone, Copy, PartialEq, Eq, Structural, Debug)]
pub enum EnvEvent {
    /// It was registered.
    Registered,
    /// It was opened.
    Opened,
    /// It was closed.
    Closed,
    /// It was registered as closed.
    Unregistered,
}

/// The stage that follows, where the event is in its place.
pub open spec fn stage_after(stage: EnvStage, event: EnvEvent) -> Option<EnvStage> {
    match (stage, event) {
        (EnvStage::Free, EnvEvent::Registered) => Some(EnvStage::Claimed),
        (EnvStage::Claimed, EnvEvent::Opened) => Some(EnvStage::Live),
        (EnvStage::Live, EnvEvent::Closed) => Some(EnvStage::Claimed),
        (EnvStage::Claimed, EnvEvent::Unregistered) => Some(EnvStage::Free),
        _ => None,
    }
}

/// The stage that follows, where the event is in its place: an environment is
/// registered before it is opened, and closed before it is registered as closed.
pub fn next_stage(stage: EnvStage, event: EnvEvent) -> (r: Option<EnvStage>)
    ensures
        r == stage_after(stage, event),
{
    match (stage, event) {
        (EnvStage::Free, EnvEvent::Registered) => Some(EnvStage::Claimed),
        (EnvStage::Claimed, EnvEvent::Opened) => Some(EnvStage::Live),
        (EnvStage::Live, EnvEvent::Closed) => Some(EnvStage::Claimed),
        (EnvStage::Claimed, EnvEvent::Unregistered) => Some(EnvStage::Free),
        _ => None,
    }
}

/// An environment that is not registered is not open: it is opened only where
/// it is registered, and as long as it is open, it cannot be registered as
/// closed.
pub proof fn law_free_is_closed(stage: EnvStage, event: EnvEvent)
    ensures
        stage_after(stage, event) == Some(EnvStage::Live) ==> stage == EnvStage::Claimed,
        stage_after(EnvStage::Live, event) != Some(EnvStage::Free),
{
}

/// Closing undoes opening: after it the registry is as before.
pub proof fn law_close_undoes_open(
    registry: Map<Seq<char>, (Seq<char>, u64)>,
    canonical: Seq<char>,
    entry: (Seq<char>, u64),
)
    requires
        !registry.dom().contains(canonical),
    ensures
        registry.insert(canonical, entry).remove(canonical) == registry,
{
    assert(registry.insert(canonical, entry).remove(canonical) =~= registry);
}

/// Opening one environment leaves every other one as it is.
pub proof fn law_paths_are_separate(
    registry: Map<Seq<char>, (Seq<char>, u64)>,
    a: Seq<char>,
    b: Seq<char>,
    entry: (Seq<char>, u64),
)
    requires
        a != b,
    ensures
        registry.insert(a, entry).dom().contains(b) == registry.dom().contains(b),
        registry.insert(a, entry)[b] == registry[b],
{
}

/// An environment is registered before it is opened, closed before it is
/// unregistered, and nothing else leads from one stage to another.
pub proof fn law_stages_of_an_environment(stage: EnvStage, event: EnvEvent)
    ensures
        stage_after(stage, event) == Some(EnvStage::Live) <==> stage == EnvStage::Claimed && event
            == EnvEvent::Opened,
        stage_after(stage, event) == Some(EnvStage::Free) <==> stage == EnvStage::Claimed && event
            == EnvEvent::Unregistered,
        stage_after(stage, event) == Some(EnvStage::Claimed) <==> (stage == EnvStage::Free && event
            == EnvEvent::Registered) || (stage == EnvStage::Live && event == EnvEvent::Closed),
{
}

/// A path is open where it is registered, and a path that could not be resolved
/// is not.
pub proof fn law_open_paths(registry: &LmdbRegistry, canonical: Option<&str>, r: bool)
    requires
        call_ensures(is_open, (registry, canonical), r),
    ensures
        canonical is None ==> !r,
        canonical is Some ==> (r <==> registry@.dom().contains(canonical->0@)),
{
}

} // verus!
