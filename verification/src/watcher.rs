//! Watch scheduler and singleton controller.
//!
//! The scheduler decides, per tick and per file, whether a file is
//! skipped, baselined, or diffed against its cached baseline, and appends
//! the resulting change rows to the store.  One event groups every change
//! of a tick.  The singleton controller's state machine over the liveness
//! marker keeps at most one scheduler running; the marker file itself is
//! read and written by the surrounding process.

use vstd::prelude::*;

use crate::diff::spec_diff;
use crate::diff::run_pairs;
use crate::diff::Changeset;
use crate::history::current_text;
use crate::history::previous_text;
use crate::store::Store;
use crate::types::CodemkinError;

verus! {

/// Ceiling on the size of a tracked file, in bytes.
pub const MAX_TRACKED_FILE_SIZE: u64 = 200000;

/// Validity of a filesystem entry for tracking: a regular file below the
/// size ceiling.  Oversized or non-regular entries are skipped every
/// tick, without error.
pub fn is_valid_file(is_file: bool, size: u64) -> (r: bool)
    ensures
        r == (is_file && size < MAX_TRACKED_FILE_SIZE),
{
    is_file && size < MAX_TRACKED_FILE_SIZE
}

/// The in-memory baseline of one watched file: its last observed content
/// and modification timestamp.
pub struct WatchedFile {
    pub content: String,
    pub accessed_time: u64,
}

/// One baseline cache entry, keyed by canonical path.
pub struct CacheEntry {
    pub path: String,
    pub file: WatchedFile,
}

/// The scheduler's in-memory baseline cache: one entry per watched file,
/// keyed by canonical path.  Rebuilt every tick, so files deleted between
/// ticks silently drop out of tracking.
pub struct FileCache {
    pub entries: Vec<CacheEntry>,
}

impl FileCache {
    /// Whether the cache holds an entry for a path.
    pub open spec fn has(self, path: Seq<char>) -> bool {
        exists|i: int|
            0 <= i < self.entries@.len() && (#[trigger] self.entries@[i]).path@ == path
    }

    /// The entry of a path.
    pub open spec fn index_of(self, path: Seq<char>) -> int {
        choose|i: int|
            0 <= i < self.entries@.len() && (#[trigger] self.entries@[i]).path@ == path
    }

    /// The cached baseline of a path.
    pub open spec fn file_of(self, path: Seq<char>) -> WatchedFile {
        self.entries@[self.index_of(path)].file
    }

    /// Paths are unique, and every cached content fits the machine.
    pub open spec fn wf(self) -> bool {
        &&& forall|i: int, j: int|
            0 <= i < j < self.entries@.len() ==> (#[trigger] self.entries@[i]).path@ != (
            #[trigger] self.entries@[j]).path@
        &&& forall|i: int|
            0 <= i < self.entries@.len() ==> (#[trigger] self.entries@[i]).file.content@.len()
                < usize::MAX
    }

    /// An empty cache, as each tick starts with.
    pub fn new() -> (r: FileCache)
        ensures
            r.wf(),
            r.entries@.len() == 0,
    {
        FileCache { entries: Vec::new() }
    }

    /// Finds the entry of a path.
    pub fn find(&self, path: &str) -> (r: Option<usize>)
        ensures
            self.has(path@) ==> (r matches Some(i) && 0 <= i < self.entries@.len()
                && self.entries@[i as int].path@ == path@),
            !self.has(path@) ==> r is None,
    {
        let mut i: usize = 0;
        while i < self.entries.len()
            invariant
                i <= self.entries@.len(),
                forall|k: int| 0 <= k < i ==> (#[trigger] self.entries@[k]).path@ != path@,
            decreases self.entries@.len() - i,
        {
            if crate::store::string_eq_str(&self.entries[i].path, path) {
                return Some(i);
            }
            i = i + 1;
        }
        None
    }

    /// Inserts a fresh entry.  The path must not be cached yet.
    pub fn insert(&mut self, path: &str, content: String, accessed_time: u64)
        requires
            old(self).wf(),
            !old(self).has(path@),
            content@.len() < usize::MAX,
        ensures
            final (self).wf(),
            final (self).entries@.len() == old(self).entries@.len() + 1,
            forall|k: int|
                0 <= k < old(self).entries@.len() ==> #[trigger] final (self).entries@[k]
                    == old(self).entries@[k],
            final (self).entries@.last().path@ == path@,
            final (self).entries@.last().file.content@ == content@,
            final (self).entries@.last().file.accessed_time == accessed_time,
            final (self).has(path@),
            final (self).file_of(path@).content@ == content@,
            final (self).file_of(path@).accessed_time == accessed_time,
    {
        let entry = CacheEntry {
            path: path.to_owned(),
            file: WatchedFile { content, accessed_time },
        };
        self.entries.push(entry);
        proof {
            assert(forall|k: int|
                0 <= k < old(self).entries@.len() ==> #[trigger] self.entries@[k] == old(
                    self,
                ).entries@[k]);
            let n = self.entries@.len() - 1;
            assert(self.entries@[n].path@ == path@);
            let w = self.index_of(path@);
            assert(0 <= w < self.entries@.len() && self.entries@[w].path@ == path@);
            assert(w == n);
        }
    }
}

/// What the scheduler decides to do with one enumerated file.
#[derive(Clone, Copy, PartialEq, Eq, Structural, Debug)]
pub enum FileDecision {
    /// Already handled this tick: two watched roots overlap.
    Visited,
    /// The timestamp matches the cached one: carry the baseline forward
    /// without reading the file.
    Skip,
    /// The file must be read and observed.
    Read,
}

/// Decides, per enumerated file, whether it was already visited this
/// tick, can be skipped on an unchanged timestamp, or must be read.
pub fn should_process(
    old_cache: &FileCache,
    new_cache: &FileCache,
    path: &str,
    accessed_time: u64,
) -> (r: FileDecision)
    requires
        old_cache.wf(),
    ensures
        new_cache.has(path@) ==> r is Visited,
        !new_cache.has(path@) && old_cache.has(path@) && old_cache.file_of(
            path@,
        ).accessed_time == accessed_time ==> r is Skip,
        !new_cache.has(path@) && !(old_cache.has(path@) && old_cache.file_of(
            path@,
        ).accessed_time == accessed_time) ==> r is Read,
{
    if new_cache.find(path).is_some() {
        return FileDecision::Visited;
    }
    match old_cache.find(path) {
        Some(i) => {
            proof {
                let w = old_cache.index_of(path@);
                assert(0 <= w < old_cache.entries@.len() && old_cache.entries@[w].path@
                    == path@);
                assert(w == i as int);
            }
            if old_cache.entries[i].file.accessed_time == accessed_time {
                FileDecision::Skip
            } else {
                FileDecision::Read
            }
        },
        None => FileDecision::Read,
    }
}

/// Carries a cached baseline over into the new tick's cache, unchanged:
/// the file's timestamp did not move, so its content was not read.
pub fn carry_forward(old_cache: &FileCache, new_cache: &mut FileCache, path: &str)
    requires
        old_cache.wf(),
        old(new_cache).wf(),
        old_cache.has(path@),
        !old(new_cache).has(path@),
    ensures
        final (new_cache).wf(),
        final (new_cache).entries@.len() == old(new_cache).entries@.len() + 1,
        forall|k: int|
            0 <= k < old(new_cache).entries@.len() ==> #[trigger] final (new_cache).entries@[k]
                == old(new_cache).entries@[k],
        final (new_cache).has(path@),
        final (new_cache).file_of(path@).content@ == old_cache.file_of(path@).content@,
        final (new_cache).file_of(path@).accessed_time == old_cache.file_of(
            path@,
        ).accessed_time,
    {
    let i = match old_cache.find(path) {
        Some(i) => i,
        None => {
            proof {
                assert(false);
            }
            0
        },
    };
    proof {
        let w = old_cache.index_of(path@);
        assert(0 <= w < old_cache.entries@.len() && old_cache.entries@[w].path@ == path@);
        assert(w == i);
    }
    let content = old_cache.entries[i].file.content.clone();
    let accessed_time = old_cache.entries[i].file.accessed_time;
    new_cache.insert(path, content, accessed_time);
}

/// The lazily created event of one repository's scheduling pass: absent
/// until the first change of the tick is written, then shared by every
/// further change of the same tick.
pub struct TickEvent {
    pub repo_id: usize,
    pub event_id: Option<usize>,
}

impl TickEvent {
    /// The event, if any, names an existing event row.
    pub open spec fn wf(self, store: Store) -> bool {
        &&& store.valid_repo_id(self.repo_id)
        &&& (self.event_id matches Some(e) ==> store.valid_event_id(e))
    }

    /// A fresh pass over one repository: no event yet.
    pub fn new(repo_id: usize) -> (r: TickEvent)
        ensures
            r.repo_id == repo_id,
            r.event_id is None,
    {
        TickEvent { repo_id, event_id: None }
    }
}

/// Compares a document's newly observed content against its previous
/// one and, when they differ, appends the diff as a change row under the
/// given event.  The document row is created on first sight.  Returns
/// whether a row was written: identical contents write nothing.  An
/// event id that names no row is a storage failure (a foreign-key
/// violation) and an unknown repository is invalid input; either leaves
/// the store untouched.
pub fn update_document(
    store: &mut Store,
    repo_id: usize,
    event_id: usize,
    relative_path: &str,
    canonical_path: &str,
    old_content: &str,
    new_content: &str,
    now: u64,
) -> (r: Result<bool, CodemkinError>)
    requires
        old(store).wf(),
        old(store).documents@.len() < usize::MAX,
        old(store).changes@.len() < usize::MAX,
        old_content@.len() < usize::MAX,
        new_content@.len() < usize::MAX,
    ensures
        final (store).wf(),
        final (store).repositories@ == old(store).repositories@,
        final (store).events@ == old(store).events@,
        final (store).documents@.len() <= old(store).documents@.len() + 1,
        final (store).changes@.len() <= old(store).changes@.len() + 1,
        !old(store).valid_event_id(event_id) ==> r == Err::<bool, CodemkinError>(
            CodemkinError::StorageError,
        ) && final (store).documents@ == old(store).documents@ && final (store).changes@
            == old(store).changes@,
        old(store).valid_event_id(event_id) && !old(store).valid_repo_id(repo_id) ==> r
            == Err::<bool, CodemkinError>(CodemkinError::InvalidInput) && final (
        store).documents@ == old(store).documents@ && final (store).changes@ == old(
            store,
        ).changes@,
        old(store).valid_event_id(event_id) && old(store).valid_repo_id(repo_id) ==> {
            &&& r is Ok
            &&& final (store).has_document(repo_id, canonical_path@)
            &&& (old_content@ == new_content@ ==> r == Ok::<bool, CodemkinError>(false)
                && final (store).changes@ == old(store).changes@)
            &&& (old_content@ != new_content@ ==> (r == Ok::<bool, CodemkinError>(true) && {
                &&& run_pairs(final (store).changes@.last()@.elements) == spec_diff(
                    old_content@,
                    new_content@,
                )
                &&& final (store).changes@.len() == old(store).changes@.len() + 1
                &&& forall|k: int|
                    0 <= k < old(store).changes@.len() ==> #[trigger] final (
                    store).changes@[k] == old(store).changes@[k]
                &&& current_text(final (store).changes@.last()@.elements) == new_content@
                &&& previous_text(final (store).changes@.last()@.elements) == old_content@
                &&& final (store).changes@.last()@.event_id == event_id
                &&& final (store).valid_document_id(
                    final (store).changes@.last()@.document_id,
                )
                &&& final (store).document(
                    final (store).changes@.last()@.document_id,
                ).canonical_path@ == canonical_path@
                &&& final (store).document(
                    final (store).changes@.last()@.document_id,
                ).content@ == new_content@
                &&& final (store).document(
                    final (store).changes@.last()@.document_id,
                ).repository_id == repo_id
            }))
        },
{
    // A change row must reference an existing event; check before any
    // write so that a foreign-key violation leaves the store untouched.
    if event_id < 1 || event_id > store.events.len() {
        return Err(CodemkinError::StorageError);
    }
    let changes = Changeset::new(old_content, new_content);
    let doc_id = match store.upsert_document(repo_id, relative_path, canonical_path, new_content)
    {
        Ok(id) => id,
        Err(e) => {
            return Err(e);
        },
    };
    if changes.distance == 0 {
        return Ok(false);
    }
    match store.append_change(doc_id, event_id, changes.diffs, now) {
        Ok(_) => Ok(true),
        Err(e) => {
            proof {
                assert(false);
            }
            Err(e)
        },
    }
}

/// How the scheduler left one observed file.
#[derive(Clone, Copy, PartialEq, Eq, Structural, Debug)]
pub enum TickOutcome {
    /// First sighting: the current content became the baseline; history
    /// starts here and no change row was written.
    Baselined,
    /// The timestamp moved but the content did not: the cached timestamp
    /// advanced, nothing was written.
    Unchanged,
    /// The content moved: a change row was appended under this tick's
    /// event and the baseline advanced.
    Diffed,
}

/// The baseline a file is diffed against: the cached content if the file
/// is cached, else the content the store holds for it, else none (the
/// file was never seen).
pub open spec fn baseline_of(
    store: Store,
    old_cache: FileCache,
    repo_id: usize,
    path: Seq<char>,
) -> Option<Seq<char>> {
    if old_cache.has(path) {
        Some(old_cache.file_of(path).content@)
    } else if store.has_document(repo_id, path) {
        Some(store.documents@[store.document_index(repo_id, path)].content@)
    } else {
        None
    }
}

/// Observes one file whose timestamp moved this tick: establishes its
/// baseline on first sight, skips a touch without an edit, and otherwise
/// diffs the new content against the baseline and appends the result
/// under this tick's event, creating the event on the tick's first
/// change.  A no-op diff never appends a change row.
#[verifier::rlimit(100)]
pub fn observe_file(
    store: &mut Store,
    tick: &mut TickEvent,
    old_cache: &FileCache,
    new_cache: &mut FileCache,
    relative_path: &str,
    canonical_path: &str,
    new_content: &str,
    accessed_time: u64,
    now: u64,
) -> (r: Result<TickOutcome, CodemkinError>)
    requires
        old(store).wf(),
        old_cache.wf(),
        old(new_cache).wf(),
        old(tick).wf(*old(store)),
        !old(new_cache).has(canonical_path@),
        new_content@.len() < usize::MAX,
        old(store).documents@.len() < usize::MAX,
        old(store).events@.len() < usize::MAX,
        old(store).changes@.len() < usize::MAX,
    ensures
        final (store).wf(),
        final (new_cache).wf(),
        final (tick).wf(*final (store)),
        final (tick).repo_id == old(tick).repo_id,
        r is Ok,
        final (store).repositories@.len() == old(store).repositories@.len(),
        final (store).documents@.len() <= old(store).documents@.len() + 1,
        final (store).events@.len() <= old(store).events@.len() + 1,
        final (store).changes@.len() <= old(store).changes@.len() + 1,
        final (new_cache).entries@.len() == old(new_cache).entries@.len() + 1,
        final (new_cache).entries@.last().path@ == canonical_path@,
        final (new_cache).has(canonical_path@),
        final (new_cache).file_of(canonical_path@).accessed_time == accessed_time,
        forall|k: int|
            0 <= k < old(new_cache).entries@.len() ==> #[trigger] final (new_cache).entries@[k]
                == old(new_cache).entries@[k],
        ({
            let baseline = baseline_of(*old(store), *old_cache, old(tick).repo_id,
                canonical_path@);
            &&& (baseline is None ==> r == Ok::<TickOutcome, CodemkinError>(
                TickOutcome::Baselined,
            ) && final (store).changes@ == old(store).changes@ && final (store).events@ == old(
                store,
            ).events@ && final (tick).event_id == old(tick).event_id && final (
            new_cache).file_of(canonical_path@).content@ == new_content@ && final (
            store).has_document(old(tick).repo_id, canonical_path@) && final (
            store).documents@[final (store).document_index(
                old(tick).repo_id,
                canonical_path@,
            )].content@ == new_content@)
            &&& (baseline matches Some(b) && b == new_content@ ==> r == Ok::<
                TickOutcome,
                CodemkinError,
            >(TickOutcome::Unchanged) && final (store).changes@ == old(store).changes@
                && final (store).events@ == old(store).events@ && final (store).documents@
                == old(store).documents@ && final (tick).event_id == old(tick).event_id
                && final (new_cache).file_of(canonical_path@).content@ == new_content@)
            &&& (baseline matches Some(b) ==> b != new_content@ ==> r == Ok::<
                TickOutcome,
                CodemkinError,
            >(TickOutcome::Diffed) && {
                &&& final (tick).event_id matches Some(e) && {
                    &&& (old(tick).event_id matches Some(e0) ==> e == e0 && final (
                    store).events@ == old(store).events@)
                    &&& (old(tick).event_id is None ==> final (store).events@.len() == old(
                        store,
                    ).events@.len() + 1)
                    &&& final (store).changes@.len() == old(store).changes@.len() + 1
                    &&& forall|k: int|
                        0 <= k < old(store).changes@.len() ==> #[trigger] final (
                        store).changes@[k] == old(store).changes@[k]
                    &&& final (store).changes@.last()@.event_id == e
                    &&& run_pairs(final (store).changes@.last()@.elements) == spec_diff(
                        b,
                        new_content@,
                    )
                    &&& current_text(final (store).changes@.last()@.elements)
                        == new_content@
                    &&& previous_text(final (store).changes@.last()@.elements) == b
                    &&& final (store).document(
                        final (store).changes@.last()@.document_id,
                    ).canonical_path@ == canonical_path@
                    &&& final (new_cache).file_of(canonical_path@).content@ == new_content@
                }
            })
        }),
{
    let repo_id = tick.repo_id;
    // Resolve the baseline: the cache first, then the store.
    let cached = old_cache.find(canonical_path);
    let baseline: Option<String> = match cached {
        Some(i) => {
            proof {
                let w = old_cache.index_of(canonical_path@);
                assert(0 <= w < old_cache.entries@.len() && old_cache.entries@[w].path@
                    == canonical_path@);
                assert(w == i as int);
            }
            Some(old_cache.entries[i].file.content.clone())
        },
        None => store.get_document_baseline(repo_id, canonical_path),
    };
    let b = match baseline {
        Some(b) => b,
        None => {
            // First sighting: current disk content becomes the baseline;
            // no diff is emitted, so history starts at this point.
            match store.upsert_document(repo_id, relative_path, canonical_path, new_content) {
                Ok(_) => {},
                Err(e) => {
                    proof {
                        assert(false);
                    }
                    return Err(e);
                },
            }
            new_cache.insert(canonical_path, new_content.to_owned(), accessed_time);
            return Ok(TickOutcome::Baselined);
        },
    };
    if crate::store::string_eq_str(&b, new_content) {
        // Touched without an edit: advance the cached timestamp only.
        new_cache.insert(canonical_path, b, accessed_time);
        return Ok(TickOutcome::Unchanged);
    }
    // The tick's event is created once, on the first change of the pass.
    let event_id = match tick.event_id {
        Some(e) => e,
        None => {
            let parent = self_current_event(store, repo_id);
            let e = match store.add_event(repo_id, parent) {
                Ok(e) => e,
                Err(err) => {
                    proof {
                        assert(false);
                    }
                    return Err(err);
                },
            };
            tick.event_id = Some(e);
            e
        },
    };
    match update_document(
        store,
        repo_id,
        event_id,
        relative_path,
        canonical_path,
        b.as_str(),
        new_content,
        now,
    ) {
        Ok(_) => {},
        Err(err) => {
            proof {
                assert(false);
            }
            return Err(err);
        },
    }
    new_cache.insert(canonical_path, new_content.to_owned(), accessed_time);
    Ok(TickOutcome::Diffed)
}

/// The current-event pointer of a repository.
fn self_current_event(store: &Store, repo_id: usize) -> (r: Option<usize>)
    requires
        store.wf(),
        store.valid_repo_id(repo_id),
    ensures
        r == store.repo(repo_id).current_event,
{
    store.repositories[repo_id - 1].current_event
}

/// The liveness marker: the sole source of truth for whether the daemon
/// runs.  The surrounding process mirrors this state to the marker file
/// on disk, which holds the daemon's process id.
pub struct SingletonMarker {
    pub pid: Option<u32>,
}

impl SingletonMarker {
    /// The state of a marker read from disk: `Some` process id when the
    /// marker file exists, `None` when it does not.
    pub fn new(pid: Option<u32>) -> (r: SingletonMarker)
        ensures
            r.pid == pid,
    {
        SingletonMarker { pid }
    }

    /// Starts the daemon: refused while a marker exists, with the
    /// recorded process id and the marker untouched; otherwise the
    /// marker takes the caller's process id.
    pub fn start(&mut self, self_pid: u32) -> (r: Result<u32, CodemkinError>)
        ensures
            old(self).pid matches Some(p) ==> r == Err::<u32, CodemkinError>(
                CodemkinError::CdmknAlreadyRunning { pid: p },
            ) && final (self).pid == old(self).pid,
            old(self).pid is None ==> r == Ok::<u32, CodemkinError>(self_pid) && final (
            self).pid == Some(self_pid),
    {
        match self.pid {
            Some(p) => Err(CodemkinError::CdmknAlreadyRunning { pid: p }),
            None => {
                self.pid = Some(self_pid);
                Ok(self_pid)
            },
        }
    }

    /// Stops the daemon cooperatively: removes the marker if present and
    /// reports whether one was there.  The daemon itself observes the
    /// missing marker at its next tick-start check and exits.
    pub fn stop(&mut self) -> (r: bool)
        ensures
            final (self).pid is None,
            r == (old(self).pid is Some),
    {
        let was_running = self.pid.is_some();
        self.pid = None;
        was_running
    }

    /// The loop condition of the scheduler: run while the marker exists.
    /// Re-checked at the top of every tick, so an externally deleted
    /// marker ends the loop after at most one full tick.
    pub fn should_continue(&self) -> (r: bool)
        ensures
            r == (self.pid is Some),
    {
        self.pid.is_some()
    }

    /// The recorded process id, if the daemon runs.
    pub fn read_pid(&self) -> (r: Option<u32>)
        ensures
            r == self.pid,
    {
        self.pid
    }
}

} // verus!
