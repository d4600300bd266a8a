//! The life of an index: who may write to it, and how it follows the files.
use vstd::prelude::*;

use crate::paths;
use crate::paths::{join, normalize_path_str};
use crate::status::DB_DIR_NAME;
use crate::sorting;
use crate::text;
use crate::text::{chars_of, concat, owned, starts_with, str_contains, str_eq};

verus! {

// ---------------------------------------------------------------------------
// Writers and readers
// ---------------------------------------------------------------------------

/// What came of trying the lock of a database.
#[derive(Clone, Copy, PartialEq, Eq, Structural, Debug)]
pub enum LockProbe {
    /// There is no lock file.
    NoFile,
    /// The lock file cannot be opened.
    Unreadable,
    /// The lock could be taken.
    Free,
    /// The lock could not be taken.
    Held,
}

/// Whether another process writes to the database. A lock file that cannot be
/// opened counts as free.
pub fn is_database_locked(probe: LockProbe) -> (r: bool)
    ensures
        r == (probe == LockProbe::Held),
{
    match probe {
        LockProbe::Held => true,
        _ => false,
    }
}

/// How the stores of a database are opened.
#[derive(Debug)]
pub enum StoreMode {
    /// For reading and writing.
    Writer,
    /// For reading only, since another process writes.
    Readonly,
    /// Not at all.
    Fail(String),
}

/// What is said where the lock of a writer cannot be taken.
pub open spec fn locked_text() -> Seq<char> {
    "Database is locked by another process. Use new_readonly() instead."@
}

/// What a writer is told who could not take the lock.
pub fn writer_error(lock_taken: bool) -> (r: Option<String>)
    ensures
        lock_taken ==> r is None,
        !lock_taken ==> (r matches Some(m) && m@ == locked_text()),
{
    if lock_taken {
        None
    } else {
        Some(owned("Database is locked by another process. Use new_readonly() instead."))
    }
}

/// How the stores of a database are opened: `locked` tells whether another
/// process holds the lock, `error` what opening them for writing failed with.
pub fn new_or_readonly(locked: bool, error: Option<String>) -> (r: StoreMode)
    ensures
        if locked {
            r is Readonly
        } else {
            match error {
                None => r is Writer,
                Some(e) => if text::has_text(e@, "locked"@) {
                    r is Readonly
                } else {
                    r matches StoreMode::Fail(m) && m@ == e@
                },
            }
        },
{
    if locked {
        return StoreMode::Readonly;
    }
    match error {
        None => StoreMode::Writer,
        Some(e) => {
            if str_contains(e.as_str(), "locked") {
                StoreMode::Readonly
            } else {
                StoreMode::Fail(e)
            }
        },
    }
}

/// A second process that finds the lock taken reads: it neither writes nor
/// fails.
pub proof fn law_second_process_reads()
    ensures
        text::has_text(locked_text(), "locked"@),
{
    reveal_strlit("Database is locked by another process. Use new_readonly() instead.");
    reveal_strlit("locked");
    let s = locked_text();
    let p = "locked"@;
    assert(s.subrange(12, 18) =~= p);
    assert(text::occurs_at(s, p, 12));
}

/// The name of the file in which the files of an index are recorded.
pub const FILE_META_DB_NAME: &'static str = "file_meta.json";

/// What is said where a server is started on a directory without an index.
pub open spec fn no_index_text(path: Seq<char>) -> Seq<char> {
    "❌ No index found for: "@ + path
        + "\n\n💡 To create an index, run one of these commands:\n• For local index:  codesearch index add\n• For global index: codesearch index add -g\n\nThen start the server again."@
}

/// The database of a directory, for a server that follows its files: it must
/// have an index, which is never created on the way.
pub fn managed_database(path: &str, meta_exists: bool) -> (r: Result<String, String>)
    ensures
        meta_exists ==> (r matches Ok(d) && d@ == paths::joined(path@, DB_DIR_NAME@)),
        !meta_exists ==> (r matches Err(m) && m@ == no_index_text(path@)),
{
    if meta_exists {
        Ok(join(path, DB_DIR_NAME))
    } else {
        Err(
            concat(
                concat("❌ No index found for: ", path).as_str(),
                "\n\n💡 To create an index, run one of these commands:\n• For local index:  codesearch index add\n• For global index: codesearch index add -g\n\nThen start the server again.",
            ),
        )
    }
}

// ---------------------------------------------------------------------------
// Sets of paths
// ---------------------------------------------------------------------------

/// The paths are all different.
pub open spec fn no_doubles(paths: Seq<String>) -> bool {
    forall|i: int, j: int|
        0 <= i < j < paths.len() ==> (#[trigger] paths[i])@ != (#[trigger] paths[j])@
}

/// A set of paths.
#[derive(Debug)]
pub struct PathSet {
    items: Vec<String>,
}

impl View for PathSet {
    type V = Set<Seq<char>>;

    closed spec fn view(&self) -> Set<Seq<char>> {
        text::views(self.items@).to_set()
    }
}

impl PathSet {
    #[verifier::type_invariant]
    spec fn distinct(self) -> bool {
        no_doubles(self.items@)
    }

    /// No paths.
    pub fn new() -> (r: PathSet)
        ensures
            r@ == Set::<Seq<char>>::empty(),
    {
        let r = PathSet { items: Vec::new() };
        proof {
            assert(r@ =~= Set::<Seq<char>>::empty());
        }
        r
    }

    /// Whether there are no paths.
    pub fn is_empty(&self) -> (r: bool)
        ensures
            r == (self@ == Set::<Seq<char>>::empty()),
    {
        proof {
            if self.items@.len() > 0 {
                let vs = text::views(self.items@);
                assert(vs[0] == self.items@[0]@);
                assert(self@.contains(vs[0]));
            } else {
                assert(self@ =~= Set::<Seq<char>>::empty());
            }
        }
        self.items.len() == 0
    }

    /// The place of a path, or the number of the paths.
    fn place_of(&self, path: &str) -> (r: usize)
        ensures
            r <= self.items.len(),
            r < self.items.len() ==> self.items@[r as int]@ == path@,
            (r < self.items.len()) == self@.contains(path@),
    {
        let ghost vs = text::views(self.items@);
        let mut i: usize = 0;
        while i < self.items.len()
            invariant
                i <= self.items.len(),
                vs == text::views(self.items@),
                forall|j: int| 0 <= j < i ==> #[trigger] vs[j] != path@,
            decreases self.items.len() - i,
        {
            proof {
                assert(vs[i as int] == self.items@[i as int]@);
            }
            if str_eq(self.items[i].as_str(), path) {
                proof {
                    assert(self@.contains(vs[i as int]));
                }
                return i;
            }
            i += 1;
        }
        i
    }

    /// Whether a path is in the set.
    pub fn contains(&self, path: &str) -> (r: bool)
        ensures
            r == self@.contains(path@),
    {
        self.place_of(path) < self.items.len()
    }

    /// Puts a path in.
    pub fn insert(&mut self, path: &str)
        ensures
            final(self)@ == old(self)@.insert(path@),
    {
        proof {
            use_type_invariant(&*self);
        }
        let i: usize = self.place_of(path);
        let ghost before = self.items@;
        let ghost bv = text::views(before);
        if i < self.items.len() {
            proof {
                assert(self@.insert(path@) =~= self@);
            }
            return ;
        }
        let mut items: Vec<String> = Vec::new();
        std::mem::swap(&mut items, &mut self.items);
        items.push(owned(path));
        proof {
            let av = text::views(items@);
            assert(av =~= bv.push(path@));
            assert forall|a: int, b: int| 0 <= a < b < items@.len() implies (
            #[trigger] items@[a])@ != (#[trigger] items@[b])@ by {
                assert(items@[a] == before[a]);
                assert(bv[a] == before[a]@);
                assert(bv.to_set().contains(bv[a]));
                if b < before.len() {
                    assert(items@[b] == before[b]);
                }
            }
            assert forall|p: Seq<char>| bv.to_set().insert(path@).contains(p) implies #[trigger]
                av.to_set().contains(p) by {
                if p == path@ {
                    assert(av[bv.len() as int] == p);
                } else {
                    let k = choose|k: int| 0 <= k < bv.len() && bv[k] == p;
                    assert(av[k] == p);
                }
            }
            assert forall|p: Seq<char>| av.to_set().contains(p) implies #[trigger]
                bv.to_set().insert(path@).contains(p) by {
                let k = choose|k: int| 0 <= k < av.len() && av[k] == p;
                if k < bv.len() {
                    assert(bv[k] == p);
                }
            }
            assert(av.to_set() =~= bv.to_set().insert(path@));
        }
        self.items = items;
    }

    /// Takes a path out.
    pub fn remove(&mut self, path: &str)
        ensures
            final(self)@ == old(self)@.remove(path@),
    {
        proof {
            use_type_invariant(&*self);
        }
        let i: usize = self.place_of(path);
        let ghost before = self.items@;
        let ghost bv = text::views(before);
        if i >= self.items.len() {
            proof {
                assert(self@.remove(path@) =~= self@);
            }
            return ;
        }
        let mut items: Vec<String> = Vec::new();
        std::mem::swap(&mut items, &mut self.items);
        let _ = items.remove(i);
        proof {
            let av = text::views(items@);
            assert(av =~= bv.remove(i as int));
            assert forall|a: int, b: int| 0 <= a < b < items@.len() implies (
            #[trigger] items@[a])@ != (#[trigger] items@[b])@ by {
                let x = if a < i {
                    a
                } else {
                    a + 1
                };
                let y = if b < i {
                    b
                } else {
                    b + 1
                };
                assert(items@[a] == before[x] && items@[b] == before[y]);
                assert(before[x]@ != before[y]@);
            }
            assert forall|p: Seq<char>| bv.to_set().remove(path@).contains(p) implies #[trigger]
                av.to_set().contains(p) by {
                let k = choose|k: int| 0 <= k < bv.len() && bv[k] == p;
                assert(bv[i as int] == path@);
                assert(k != i);
                let x = if k < i {
                    k
                } else {
                    k - 1
                };
                assert(av[x] == p);
            }
            assert forall|p: Seq<char>| av.to_set().contains(p) implies #[trigger]
                bv.to_set().remove(path@).contains(p) by {
                let k = choose|k: int| 0 <= k < av.len() && av[k] == p;
                let x = if k < i {
                    k
                } else {
                    k + 1
                };
                assert(bv[x] == p);
                assert(before[x]@ != before[i as int]@) by {
                    if x < i {
                        assert(before[x]@ != before[i as int]@);
                    } else {
                        assert(before[i as int]@ != before[x]@);
                    }
                }
            }
            assert(av.to_set() =~= bv.to_set().remove(path@));
        }
        self.items = items;
    }

    /// Takes all paths out, each once.
    pub fn drain(&mut self) -> (r: Vec<String>)
        ensures
            final(self)@ == Set::<Seq<char>>::empty(),
            text::views(r@).to_set() == old(self)@,
            no_doubles(r@),
    {
        proof {
            use_type_invariant(&*self);
        }
        let mut items: Vec<String> = Vec::new();
        std::mem::swap(&mut items, &mut self.items);
        proof {
            assert(self@ =~= Set::<Seq<char>>::empty());
        }
        items
    }
}

// ---------------------------------------------------------------------------
// Following the files
// ---------------------------------------------------------------------------

/// How long the files must be quiet before a batch is processed, in
/// milliseconds.
pub const FSW_BATCH_FLUSH_MS: u64 = 2000;

/// What happened to a file.
#[derive(Debug)]
pub enum FileEvent {
    Modified(String),
    Deleted(String),
    /// The old path and the new one.
    Renamed(String, String),
}

/// The paths to index and the paths to remove.
pub struct Pending {
    pub index: Set<Seq<char>>,
    pub remove: Set<Seq<char>>,
}

/// What is pending after an event.
pub open spec fn after_event(p: Pending, event: FileEvent) -> Pending {
    match event {
        FileEvent::Modified(f) => Pending {
            index: p.index.insert(f@),
            remove: p.remove.remove(f@),
        },
        FileEvent::Deleted(f) => Pending {
            index: p.index.remove(f@),
            remove: p.remove.insert(f@),
        },
        FileEvent::Renamed(from, to) => Pending {
            index: p.index.remove(from@).insert(to@),
            remove: p.remove.insert(from@).remove(to@),
        },
    }
}

/// What is pending after a number of events.
pub open spec fn after_events(p: Pending, events: Seq<FileEvent>) -> Pending
    decreases events.len(),
{
    if events.len() == 0 {
        p
    } else {
        after_event(after_events(p, events.drop_last()), events.last())
    }
}

/// The paths that are processed together.
#[derive(Debug)]
pub struct Batch {
    pub to_index: Vec<String>,
    pub to_remove: Vec<String>,
}

/// The events of the file system that were not processed yet. Times are
/// milliseconds of a clock that does not run backwards.
#[derive(Debug)]
pub struct EventBuffer {
    pub files_to_index: PathSet,
    pub files_to_remove: PathSet,
    pub last_event: u64,
}

/// What a flush does: everything that is pending becomes a batch, once there was
/// no event for a while.
pub open spec fn flushed(
    before: EventBuffer,
    after: EventBuffer,
    now: u64,
    r: Option<Batch>,
) -> bool {
    let p = before.pending();
    let due = (p.index != Set::<Seq<char>>::empty() || p.remove != Set::<Seq<char>>::empty())
        && now - before.last_event >= FSW_BATCH_FLUSH_MS;
    match r {
        Some(b) => due && text::views(b.to_index@).to_set() == p.index && text::views(
            b.to_remove@,
        ).to_set() == p.remove && no_doubles(b.to_index@) && no_doubles(b.to_remove@)
            && after.pending() == (Pending { index: Set::empty(), remove: Set::empty() })
            && after.last_event == now,
        None => !due && after == before,
    }
}

impl EventBuffer {
    /// What is pending.
    pub open spec fn pending(&self) -> Pending {
        Pending { index: self.files_to_index@, remove: self.files_to_remove@ }
    }

    /// Nothing pending.
    pub fn new(now: u64) -> (r: EventBuffer)
        ensures
            r.pending() == (Pending { index: Set::empty(), remove: Set::empty() }),
            r.last_event == now,
    {
        EventBuffer {
            files_to_index: PathSet::new(),
            files_to_remove: PathSet::new(),
            last_event: now,
        }
    }

    /// Forgets what is pending: the whole index was brought up to date.
    pub fn clear(&mut self)
        ensures
            final(self).pending() == (Pending { index: Set::empty(), remove: Set::empty() }),
            final(self).last_event == old(self).last_event,
    {
        self.files_to_index = PathSet::new();
        self.files_to_remove = PathSet::new();
    }

    /// Takes in one event.
    fn add_event(&mut self, event: &FileEvent)
        ensures
            final(self).pending() == after_event(old(self).pending(), *event),
            final(self).last_event == old(self).last_event,
    {
        match event {
            FileEvent::Modified(p) => {
                self.files_to_remove.remove(p.as_str());
                self.files_to_index.insert(p.as_str());
            },
            FileEvent::Deleted(p) => {
                self.files_to_index.remove(p.as_str());
                self.files_to_remove.insert(p.as_str());
            },
            FileEvent::Renamed(from, to) => {
                self.files_to_index.remove(from.as_str());
                self.files_to_remove.insert(from.as_str());
                self.files_to_remove.remove(to.as_str());
                self.files_to_index.insert(to.as_str());
            },
        }
    }

    /// Takes in the events that were reported at a time.
    pub fn add_events(&mut self, events: &Vec<FileEvent>, now: u64)
        ensures
            final(self).pending() == after_events(old(self).pending(), events@),
            final(self).last_event == (if events.len() > 0 {
                now
            } else {
                old(self).last_event
            }),
    {
        if events.len() > 0 {
            self.last_event = now;
        }
        let mut i: usize = 0;
        while i < events.len()
            invariant
                i <= events.len(),
                self.pending() == after_events(old(self).pending(), events@.take(i as int)),
                self.last_event == (if events.len() > 0 {
                    now
                } else {
                    old(self).last_event
                }),
            decreases events.len() - i,
        {
            proof {
                assert(events@.take(i + 1).drop_last() =~= events@.take(i as int));
                assert(events@.take(i + 1).last() == events@[i as int]);
            }
            self.add_event(&events[i]);
            i += 1;
        }
        proof {
            assert(events@.take(events@.len() as int) =~= events@);
        }
    }

    /// The batch that is processed now: everything that is pending, once there
    /// was no event for a while.
    pub fn flush(&mut self, now: u64) -> (r: Option<Batch>)
        ensures
            flushed(*old(self), *final(self), now, r),
    {
        let some = !self.files_to_index.is_empty() || !self.files_to_remove.is_empty();
        if some && now >= self.last_event && now - self.last_event >= FSW_BATCH_FLUSH_MS {
            let to_index = self.files_to_index.drain();
            let to_remove = self.files_to_remove.drain();
            self.last_event = now;
            Some(Batch { to_index, to_remove })
        } else {
            None
        }
    }

    /// One turn of the watch: after a change of the branch, which was dealt with,
    /// what was pending is forgotten; then come the new events, and perhaps a
    /// batch.
    pub fn turn(&mut self, branch_changed: bool, events: &Vec<FileEvent>, now: u64) -> (r: Option<
        Batch,
    >)
        ensures
            exists|mid: EventBuffer| #[trigger]
                flushed(mid, *final(self), now, r) && mid.pending() == after_events(
                    if branch_changed {
                        Pending { index: Set::empty(), remove: Set::empty() }
                    } else {
                        old(self).pending()
                    },
                    events@,
                ) && mid.last_event == (if events.len() > 0 {
                    now
                } else {
                    old(self).last_event
                }),
    {
        if branch_changed {
            self.clear();
        }
        self.add_events(events, now);
        let ghost mid = *self;
        let r = self.flush(now);
        assert(flushed(mid, *self, now, r));
        r
    }
}

/// The files below a path, in normal form.
pub open spec fn below(known: Seq<Seq<char>>, path: Seq<char>) -> Seq<Seq<char>>
    decreases known.len(),
{
    if known.len() == 0 {
        Seq::empty()
    } else {
        let before = below(known.drop_last(), path);
        if text::begins_with(known.last(), directory_prefix(path)) {
            before.push(known.last())
        } else {
            before
        }
    }
}

/// What the paths of the files in a directory begin with.
pub open spec fn directory_prefix(path: Seq<char>) -> Seq<char> {
    let n = paths::normal(path);
    if n.len() > 0 && n.last() == '/' {
        n
    } else {
        n.push('/')
    }
}

/// The recorded files that go with a path that was deleted: those below it,
/// since the deletion of a directory may be reported without its files.
pub fn files_under(known: &Vec<String>, path: &str) -> (r: Vec<String>)
    ensures
        text::views(r@) == below(text::views(known@), path@),
{
    let n = normalize_path_str(path);
    let mut prefix = chars_of(n.as_str());
    if prefix.len() == 0 || prefix[prefix.len() - 1] != '/' {
        prefix.push('/');
    }
    let ghost ts = text::views(known@);
    let mut out: Vec<String> = Vec::new();
    let mut i: usize = 0;
    proof {
        assert(prefix@ =~= directory_prefix(path@));
        assert(text::views(out@) =~= below(ts.take(0), path@));
    }
    while i < known.len()
        invariant
            i <= known.len(),
            ts == text::views(known@),
            prefix@ == directory_prefix(path@),
            text::views(out@) == below(ts.take(i as int), path@),
        decreases known.len() - i,
    {
        let ghost before = text::views(out@);
        proof {
            assert(ts.take(i + 1).drop_last() =~= ts.take(i as int));
            assert(ts.take(i + 1).last() == known@[i as int]@);
        }
        if starts_with(chars_of(known[i].as_str()).as_slice(), prefix.as_slice()) {
            out.push(owned(known[i].as_str()));
            proof {
                assert(text::views(out@) =~= before.push(known@[i as int]@));
            }
        }
        i += 1;
    }
    proof {
        assert(ts.take(ts.len() as int) =~= ts);
    }
    out
}

/// The files that are removed for a path that was deleted: the path itself, and
/// the recorded files below it.
pub fn removed_files(known: &Vec<String>, path: &str) -> (r: Vec<String>)
    ensures
        text::views(r@) == seq![path@] + below(text::views(known@), path@),
{
    let under = files_under(known, path);
    let ghost us = text::views(under@);
    let mut out: Vec<String> = Vec::new();
    out.push(owned(path));
    let mut i: usize = 0;
    proof {
        assert(text::views(out@) =~= seq![path@] + us.take(0));
    }
    while i < under.len()
        invariant
            i <= under.len(),
            us == text::views(under@),
            text::views(out@) == seq![path@] + us.take(i as int),
        decreases under.len() - i,
    {
        let ghost before = text::views(out@);
        out.push(owned(under[i].as_str()));
        proof {
            assert(text::views(out@) =~= before.push(under@[i as int]@));
            assert(us.take(i + 1) =~= us.take(i as int).push(us[i as int]));
            assert(text::views(out@) =~= seq![path@] + us.take(i + 1));
        }
        i += 1;
    }
    proof {
        assert(us.take(us.len() as int) =~= us);
    }
    out
}

/// Whether the vector index is built anew before a batch goes on to the files
/// that are indexed: it has removals, after which deleted chunks must not be
/// found any more.
pub fn rebuilds_after_removals(batch: &Batch) -> (r: bool)
    ensures
        r == (batch.to_remove.len() > 0),
{
    batch.to_remove.len() > 0
}

// ---------------------------------------------------------------------------
// Laws
// ---------------------------------------------------------------------------

/// The event speaks of the path.
pub open spec fn mentions(event: FileEvent, path: Seq<char>) -> bool {
    match event {
        FileEvent::Modified(f) => f@ == path,
        FileEvent::Deleted(f) => f@ == path,
        FileEvent::Renamed(from, to) => from@ == path || to@ == path,
    }
}

/// After the event there is a file at the path.
pub open spec fn leaves_file(event: FileEvent, path: Seq<char>) -> bool {
    match event {
        FileEvent::Modified(f) => f@ == path,
        FileEvent::Deleted(f) => false,
        FileEvent::Renamed(from, to) => to@ == path,
    }
}

/// No path is both to be indexed and to be removed.
pub proof fn law_index_or_remove(p: Pending, events: Seq<FileEvent>)
    requires
        p.index.disjoint(p.remove),
    ensures
        after_events(p, events).index.disjoint(after_events(p, events).remove),
    decreases events.len(),
{
    if events.len() > 0 {
        law_index_or_remove(p, events.drop_last());
    }
}

/// The last event that speaks of a path decides: the path is indexed if the
/// event leaves a file there, and else removed.
pub proof fn law_last_event_decides(p: Pending, events: Seq<FileEvent>, k: int, path: Seq<char>)
    requires
        0 <= k < events.len(),
        mentions(events[k], path),
        forall|j: int| k < j < events.len() ==> !mentions(#[trigger] events[j], path),
    ensures
        after_events(p, events).index.contains(path) == leaves_file(events[k], path),
        after_events(p, events).remove.contains(path) == !leaves_file(events[k], path),
    decreases events.len(),
{
    if k < events.len() - 1 {
        let front = events.drop_last();
        assert(front[k] == events[k]);
        assert forall|j: int| k < j < front.len() implies !mentions(#[trigger] front[j], path) by {
            assert(front[j] == events[j]);
        }
        law_last_event_decides(p, front, k, path);
        assert(!mentions(events[events.len() - 1], path));
    }
}

/// A changed file is to be indexed and not removed, a deleted one the other way
/// round, and a renamed one is removed under its old name and indexed under its
/// new one. Other files stay as they were.
pub proof fn law_one_event(p: Pending, f: String, g: String, other: Seq<char>)
    requires
        f@ != g@,
    ensures
        ({
            let m = after_event(p, FileEvent::Modified(f));
            let d = after_event(p, FileEvent::Deleted(f));
            let r = after_event(p, FileEvent::Renamed(f, g));
            &&& m.index.contains(f@) && !m.remove.contains(f@)
            &&& d.remove.contains(f@) && !d.index.contains(f@)
            &&& r.remove.contains(f@) && !r.index.contains(f@)
            &&& r.index.contains(g@) && !r.remove.contains(g@)
            &&& other != f@ ==> m.index.contains(other) == p.index.contains(other)
            &&& other != f@ ==> m.remove.contains(other) == p.remove.contains(other)
            &&& other != f@ ==> d.index.contains(other) == p.index.contains(other)
            &&& other != f@ ==> d.remove.contains(other) == p.remove.contains(other)
            &&& other != f@ && other != g@ ==> r.index.contains(other) == p.index.contains(other)
            &&& other != f@ && other != g@ ==> r.remove.contains(other) == p.remove.contains(other)
        }),
{
}

/// A file that no event speaks of stays as it was.
pub proof fn law_other_files_stay(p: Pending, events: Seq<FileEvent>, path: Seq<char>)
    requires
        forall|j: int| 0 <= j < events.len() ==> !mentions(#[trigger] events[j], path),
    ensures
        after_events(p, events).index.contains(path) == p.index.contains(path),
        after_events(p, events).remove.contains(path) == p.remove.contains(path),
    decreases events.len(),
{
    if events.len() > 0 {
        let front = events.drop_last();
        assert forall|j: int| 0 <= j < front.len() implies !mentions(#[trigger] front[j], path) by {
            assert(front[j] == events[j]);
        }
        law_other_files_stay(p, front, path);
        assert(!mentions(events[events.len() - 1], path));
    }
}

/// A batch is handed out once two seconds have passed since the last event, and
/// only where something is pending. It has everything that is, each file once, and
/// leaves nothing behind.
pub proof fn law_batches(
    before: EventBuffer,
    after: EventBuffer,
    now: u64,
    r: Option<Batch>,
    path: Seq<char>,
)
    requires
        flushed(before, after, now, r),
    ensures
        FSW_BATCH_FLUSH_MS == 2000,
        now < before.last_event + 2000 ==> r is None,
        before.pending().index.contains(path) && now >= before.last_event + 2000 ==> r is Some,
        before.pending().remove.contains(path) && now >= before.last_event + 2000 ==> r is Some,
        r is None ==> after == before,
        r is Some ==> (text::views(r->0.to_index@).contains(path)
            <==> before.pending().index.contains(path)),
        r is Some ==> (text::views(r->0.to_remove@).contains(path)
            <==> before.pending().remove.contains(path)),
        r is Some ==> !after.pending().index.contains(path) && !after.pending().remove.contains(path)
            && after.last_event == now,
{
    if r is Some {
        let a = text::views(r->0.to_index@);
        let b = text::views(r->0.to_remove@);
        assert(a.to_set().contains(path) <==> a.contains(path));
        assert(b.to_set().contains(path) <==> b.contains(path));
    }
}

/// The files below a directory are those whose path begins with its own and a
/// slash, and no file beside it whose name only begins alike.
pub proof fn law_files_below(known: Seq<Seq<char>>, path: Seq<char>) -> (places: Seq<int>)
    ensures
        sorting::selects(
            places,
            known.len() as int,
            |i: int|
                {
                    let start = directory_prefix(path);
                    start.len() <= known[i].len() && known[i].take(start.len() as int) == start
                },
        ),
        below(known, path).len() == places.len(),
        forall|k: int| 0 <= k < places.len() ==> #[trigger] below(known, path)[k] == known[places[k]],
    decreases known.len(),
{
    let start = directory_prefix(path);
    let wanted = |i: int|
        {
            let start = directory_prefix(path);
            start.len() <= known[i].len() && known[i].take(start.len() as int) == start
        };
    if known.len() == 0 {
        Seq::empty()
    } else {
        let front = known.drop_last();
        let before = law_files_below(front, path);
        let first = below(front, path);
        let all = below(known, path);
        let places = sorting::lemma_selects_step(
            before,
            known.len() - 1,
            |i: int|
                {
                    let start = directory_prefix(path);
                    start.len() <= front[i].len() && front[i].take(start.len() as int) == start
                },
            wanted,
        );
        text::law_ends_of_text(known.last(), start);
        assert(wanted(known.len() - 1) == text::begins_with(known.last(), start));
        assert forall|k: int| 0 <= k < places.len() implies #[trigger] all[k] == known[places[k]] by {
            if k < before.len() {
                assert(all[k] == first[k]);
                assert(front[before[k]] == known[places[k]]);
            }
        }
        places
    }
}

/// The paths below a directory begin with its normal form and one slash.
pub proof fn law_directory_prefix(path: Seq<char>)
    ensures
        directory_prefix(path).len() > 0,
        directory_prefix(path).last() == '/',
        paths::normal(path).len() > 0 && paths::normal(path).last() == '/' ==> directory_prefix(path)
            == paths::normal(path),
        paths::normal(path).len() > 0 && paths::normal(path).last() != '/' ==> directory_prefix(path)
            == paths::normal(path) + seq!['/'],
        FILE_META_DB_NAME@ == "file_meta.json"@,
        text::has_text(no_index_text(path), path),
{
    text::law_text_is_found(
        "❌ No index found for: "@,
        path,
        "\n\n💡 To create an index, run one of these commands:\n• For local index:  codesearch index add\n• For global index: codesearch index add -g\n\nThen start the server again."@,
    );
}

/// A database that another process holds is only read; a writer that fails for
/// another reason fails.
pub proof fn law_store_mode(locked: bool, error: Option<String>, r: StoreMode)
    requires
        call_ensures(new_or_readonly, (locked, error), r),
    ensures
        locked ==> r is Readonly,
        r is Writer <==> !locked && error is None,
        !locked && error is Some && text::has_text(error->0@, "locked"@) ==> r is Readonly,
        !locked && error is Some && !text::has_text(error->0@, "locked"@) ==> r is Fail && r->0@
            == error->0@,
{
}

/// Only a lock that is held counts as one, a writer needs it, and a managed
/// database must have its record of files.
pub proof fn law_locks(
    probe: LockProbe,
    locked: bool,
    taken: bool,
    e: Option<String>,
    path: &str,
    meta_exists: bool,
    d: Result<String, String>,
    batch: &Batch,
    rebuild: bool,
)
    requires
        call_ensures(is_database_locked, (probe,), locked),
        call_ensures(writer_error, (taken,), e),
        call_ensures(managed_database, (path, meta_exists), d),
        call_ensures(rebuilds_after_removals, (batch,), rebuild),
    ensures
        locked <==> probe == LockProbe::Held,
        e is None <==> taken,
        d is Ok <==> meta_exists,
        d is Ok ==> d->Ok_0@ == paths::joined(path@, ".codesearch.db"@),
        rebuild <==> batch.to_remove@.len() > 0,
{
}

/// A path that is removed takes the files below it along.
pub proof fn law_removed_directory(known: &Vec<String>, path: &str, r: Vec<String>, i: int)
    requires
        call_ensures(removed_files, (known, path), r),
        0 <= i < known@.len(),
    ensures
        r@.len() > 0 && r@[0]@ == path@,
        known@[i]@.len() >= directory_prefix(path@).len() && known@[i]@.take(
            directory_prefix(path@).len() as int,
        ) == directory_prefix(path@) ==> text::views(r@).contains(known@[i]@),
{
    let views = text::views(known@);
    let start = directory_prefix(path@);
    let gone = below(views, path@);
    assert(text::views(r@).len() == r@.len());
    assert(text::views(r@)[0] == path@);
    let places = law_files_below(views, path@);
    let wanted = |i: int|
        {
            let start = directory_prefix(path@);
            start.len() <= views[i].len() && views[i].take(start.len() as int) == start
        };
    assert(views[i] == known@[i]@);
    if wanted(i) {
        assert(places.contains(i));
        let k = choose|k: int| 0 <= k < places.len() && places[k] == i;
        assert(gone[k] == views[places[k]]);
        assert(text::views(r@)[k + 1] == known@[i]@);
    }
}

} // verus!
