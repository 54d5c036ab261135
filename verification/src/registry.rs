//! The file registry: which paths are being processed, and the events that
//! arrive while the first scan runs.
//!
//! A scan and a watcher may come upon the same file. Each asks the registry
//! before it processes a path, and the registry lets one of them through.
//! Every operation is one step on the registry's state; callers that share
//! a registry between threads keep it behind a lock.

use vstd::prelude::*;
use crate::text::same_text;

verus! {

/// What the registry knows of one path.
#[derive(Debug, Clone, Copy, PartialEq, Eq, Structural)]
pub struct FileState {
    /// The modification time that was last let through.
    pub modified_time: u64,
    /// When the path was last taken up or finished.
    pub processed_time: u64,
    /// Whether someone is processing the path now.
    pub processing: bool,
}

/// What happened to a file.
#[derive(Debug, Clone, Copy, PartialEq, Eq, Structural)]
pub enum EventType {
    Create,
    Modify,
    Delete,
}

/// An event that arrived before the first scan was over.
#[derive(Debug, Clone)]
pub struct PendingEvent {
    pub path: String,
    pub event_type: EventType,
    pub timestamp: u64,
}

/// A pending event as plain values.
pub struct PendingEventView {
    pub path: Seq<char>,
    pub event_type: EventType,
    pub timestamp: u64,
}

impl View for PendingEvent {
    type V = PendingEventView;

    open spec fn view(&self) -> PendingEventView {
        PendingEventView {
            path: self.path@,
            event_type: self.event_type,
            timestamp: self.timestamp,
        }
    }
}

/// The views of a sequence of pending events.
pub open spec fn event_views(events: Seq<PendingEvent>) -> Seq<PendingEventView> {
    Seq::new(events.len(), |i: int| events[i]@)
}

/// The registry's state as plain values.
pub struct RegistryView {
    /// The state of each known path.
    pub files: Map<Seq<char>, FileState>,
    /// Whether the first scan is over.
    pub scan_completed: bool,
    /// The events that wait for the end of the scan, oldest first.
    pub pending: Seq<PendingEventView>,
}

impl RegistryView {
    /// Whether someone is processing `path`.
    pub open spec fn is_processing(self, path: Seq<char>) -> bool {
        self.files.dom().contains(path) && self.files[path].processing
    }

    /// Whether a request to process `path` at modification time `mtime` is
    /// let through: nobody is processing the path, and the registry has not
    /// let through this modification time or a later one.
    pub open spec fn grants(self, path: Seq<char>, mtime: u64) -> bool {
        self.files.dom().contains(path) ==> !self.files[path].processing
            && self.files[path].modified_time < mtime
    }

    /// The state after a request to process `path`.
    pub open spec fn after_try_start(self, path: Seq<char>, mtime: u64, now: u64) -> RegistryView {
        if !self.grants(path, mtime) {
            self
        } else {
            RegistryView {
                files: self.files.insert(
                    path,
                    FileState {
                        modified_time: mtime,
                        processed_time: if self.files.dom().contains(path) {
                            self.files[path].processed_time
                        } else {
                            now
                        },
                        processing: true,
                    },
                ),
                ..self
            }
        }
    }

    /// The state after the processing of `path` has ended.
    pub open spec fn after_finish(self, path: Seq<char>, now: u64) -> RegistryView {
        if self.files.dom().contains(path) {
            RegistryView {
                files: self.files.insert(
                    path,
                    FileState {
                        modified_time: self.files[path].modified_time,
                        processed_time: now,
                        processing: false,
                    },
                ),
                ..self
            }
        } else {
            self
        }
    }

    /// The state after `path` was deleted.
    pub open spec fn after_delete(self, path: Seq<char>) -> RegistryView {
        RegistryView { files: self.files.remove(path), ..self }
    }

    /// The state after an event arrived: it is kept while the scan runs,
    /// and dropped after.
    pub open spec fn after_event(self, event: PendingEventView) -> RegistryView {
        if self.scan_completed {
            self
        } else {
            RegistryView { pending: self.pending.push(event), ..self }
        }
    }

    /// The state after the scan has ended.
    pub open spec fn after_scan(self) -> RegistryView {
        RegistryView { scan_completed: true, pending: Seq::empty(), ..self }
    }

    /// The paths that someone is processing.
    pub open spec fn processing_paths(self) -> Set<Seq<char>> {
        Set::new(|p: Seq<char>| self.is_processing(p))
    }
}

struct Entry {
    path: String,
    state: FileState,
}

/// The registry.
pub struct FileRegistry {
    entries: Vec<Entry>,
    scan_completed: bool,
    pending_events: Vec<PendingEvent>,
}

impl View for FileRegistry {
    type V = RegistryView;

    closed spec fn view(&self) -> RegistryView {
        RegistryView {
            files: Map::new(
                |p: Seq<char>| self.paths().contains(p),
                |p: Seq<char>| self.entries@[self.paths().index_of(p)].state,
            ),
            scan_completed: self.scan_completed,
            pending: event_views(self.pending_events@),
        }
    }
}

impl FileRegistry {
    /// The paths of the entries, in their order.
    closed spec fn paths(&self) -> Seq<Seq<char>> {
        Seq::new(self.entries@.len(), |i: int| self.entries@[i].path@)
    }

    /// The registry's invariant: no path has two entries.
    pub closed spec fn wf(&self) -> bool {
        self.paths().no_duplicates()
    }

    /// The entry at `i` is what the state says of its path.
    proof fn lemma_entry(&self, i: int)
        requires
            self.wf(),
            0 <= i < self.entries@.len(),
        ensures
            self@.files.dom().contains(self.entries@[i].path@),
            self@.files[self.entries@[i].path@] == self.entries@[i].state,
            self.paths().index_of(self.entries@[i].path@) == i,
    {
        let paths = self.paths();
        let p = self.entries@[i].path@;
        assert(paths[i] == p);
        let j = paths.index_of(p);
        assert(0 <= j < paths.len() && paths[j] == p);
    }

    /// A path without an entry is not in the state.
    proof fn lemma_absent(&self, path: Seq<char>)
        requires
            forall|i: int| 0 <= i < self.entries@.len() ==> self.entries@[i].path@ != path,
        ensures
            !self@.files.dom().contains(path),
    {
        let paths = self.paths();
        if paths.contains(path) {
            let i = choose|i: int| 0 <= i < paths.len() && paths[i] == path;
            assert(self.entries@[i].path@ == path);
        }
    }

    /// A path of the state has an entry.
    proof fn lemma_present(&self, path: Seq<char>) -> (i: int)
        requires
            self.wf(),
            self@.files.dom().contains(path),
        ensures
            0 <= i < self.entries@.len(),
            self.entries@[i].path@ == path,
            self@.files[path] == self.entries@[i].state,
    {
        let paths = self.paths();
        let i = choose|i: int| 0 <= i < paths.len() && paths[i] == path;
        self.lemma_entry(i);
        i
    }

    /// An empty registry whose scan has not ended.
    pub fn new() -> (r: Self)
        ensures
            r.wf(),
            r@.files == Map::<Seq<char>, FileState>::empty(),
            !r@.scan_completed,
            r@.pending == Seq::<PendingEventView>::empty(),
    {
        let r = FileRegistry {
            entries: Vec::new(),
            scan_completed: false,
            pending_events: Vec::new(),
        };
        proof {
            r.lemma_absent_all();
            assert(r@.files =~= Map::<Seq<char>, FileState>::empty());
            assert(r@.pending =~= Seq::<PendingEventView>::empty());
        }
        r
    }

    proof fn lemma_absent_all(&self)
        requires
            self.entries@.len() == 0,
        ensures
            forall|p: Seq<char>| !self@.files.dom().contains(p),
    {
        assert forall|p: Seq<char>| !self@.files.dom().contains(p) by {
            self.lemma_absent(p);
        }
    }

    /// The position of the entry of `path`.
    fn find(&self, path: &str) -> (r: Option<usize>)
        requires
            self.wf(),
        ensures
            match r {
                Some(i) => i < self.entries@.len() && self.entries@[i as int].path@ == path@
                    && self@.files.dom().contains(path@) && self@.files[path@]
                    == self.entries@[i as int].state,
                None => !self@.files.dom().contains(path@) && forall|i: int|
                    0 <= i < self.entries@.len() ==> self.entries@[i].path@ != path@,
            },
    {
        let mut i: usize = 0;
        while i < self.entries.len()
            invariant
                i <= self.entries.len(),
                self.wf(),
                forall|k: int| 0 <= k < i ==> self.entries@[k].path@ != path@,
            decreases self.entries.len() - i,
        {
            if same_text(self.entries[i].path.as_str(), path) {
                proof {
                    self.lemma_entry(i as int);
                }
                return Some(i);
            }
            i += 1;
        }
        proof {
            self.lemma_absent(path@);
        }
        None
    }

    /// Asks to process `path`, whose file was last modified at
    /// `file_mod_time`. The answer is no while someone is processing the
    /// path, and no where the registry has already let through this
    /// modification time or a later one. With a yes the path is marked as
    /// being processed.
    pub fn try_start_processing(&mut self, path: &str, file_mod_time: u64, now: u64) -> (granted:
        bool)
        requires
            old(self).wf(),
        ensures
            final(self).wf(),
            granted == old(self)@.grants(path@, file_mod_time),
            final(self)@ == old(self)@.after_try_start(path@, file_mod_time, now),
    {
        match self.find(path) {
            Some(i) => {
                let state = self.entries[i].state;
                if state.processing || state.modified_time >= file_mod_time {
                    return false;
                }
                let next = FileState {
                    modified_time: file_mod_time,
                    processed_time: state.processed_time,
                    processing: true,
                };
                self.replace_state(i, next);
                true
            },
            None => {
                let state = FileState {
                    modified_time: file_mod_time,
                    processed_time: now,
                    processing: true,
                };
                let ghost before = *self;
                self.entries.push(Entry { path: path.to_owned(), state });
                proof {
                    let n = before.entries@.len() as int;
                    assert(self.paths() =~= before.paths().push(path@));
                    assert(self.wf()) by {
                        assert forall|a: int, b: int|
                            0 <= a < self.paths().len() && 0 <= b < self.paths().len() && a
                                != b implies self.paths()[a] != self.paths()[b] by {
                            if a < n && b < n {
                                assert(before.paths()[a] != before.paths()[b]);
                            } else if a < n {
                                assert(before.entries@[a].path@ != path@);
                            } else {
                                assert(before.entries@[b].path@ != path@);
                            }
                        }
                    }
                    assert forall|q: Seq<char>|
                        self@.files.dom().contains(q) <==> (#[trigger] before@.files.insert(
                            path@,
                            state,
                        ).dom().contains(q)) by {
                        if before.paths().contains(q) {
                            let k = choose|k: int|
                                0 <= k < before.paths().len() && before.paths()[k] == q;
                            assert(self.paths()[k] == q);
                        }
                        if self.paths().contains(q) && q != path@ {
                            let k = choose|k: int|
                                0 <= k < self.paths().len() && self.paths()[k] == q;
                            assert(before.paths()[k] == q);
                        }
                        assert(self.paths()[n] == path@);
                    }
                    assert forall|q: Seq<char>| self@.files.dom().contains(q) implies (
                    #[trigger] self@.files[q]) == before@.files.insert(path@, state)[q] by {
                        let k = self.lemma_present(q);
                        if k < n {
                            before.lemma_entry(k);
                        }
                    }
                    assert(self@.files =~= before@.files.insert(path@, state));
                }
                true
            },
        }
    }

    /// Puts `state` in the entry at `i`.
    fn replace_state(&mut self, i: usize, state: FileState)
        requires
            old(self).wf(),
            i < old(self).entries@.len(),
        ensures
            final(self).wf(),
            final(self)@.files == old(self)@.files.insert(old(self).entries@[i as int].path@, state),
            final(self)@.scan_completed == old(self)@.scan_completed,
            final(self)@.pending == old(self)@.pending,
    {
        let ghost before = *self;
        let path = self.entries[i].path.clone();
        self.entries.set(i, Entry { path, state });
        proof {
            let p = before.entries@[i as int].path@;
            assert(self.paths() =~= before.paths());
            assert forall|q: Seq<char>| self@.files.dom().contains(q) implies (
            #[trigger] self@.files[q]) == before@.files.insert(p, state)[q] by {
                let k = self.lemma_present(q);
                before.lemma_entry(k);
                before.lemma_entry(i as int);
            }
            before.lemma_entry(i as int);
            assert(self@.files =~= before@.files.insert(p, state));
        }
    }

    /// Marks the processing of `path` as ended.
    pub fn finish_processing(&mut self, path: &str, now: u64)
        requires
            old(self).wf(),
        ensures
            final(self).wf(),
            final(self)@ == old(self)@.after_finish(path@, now),
    {
        match self.find(path) {
            Some(i) => {
                let state = self.entries[i].state;
                let next = FileState {
                    modified_time: state.modified_time,
                    processed_time: now,
                    processing: false,
                };
                self.replace_state(i, next);
            },
            None => {},
        }
    }

    /// Forgets `path`.
    pub fn mark_deleted(&mut self, path: &str)
        requires
            old(self).wf(),
        ensures
            final(self).wf(),
            final(self)@ == old(self)@.after_delete(path@),
    {
        match self.find(path) {
            Some(i) => {
                let ghost before = *self;
                self.entries.remove(i);
                proof {
                    assert(self.paths() =~= before.paths().remove(i as int));
                    assert(self.wf()) by {
                        assert forall|a: int, b: int|
                            0 <= a < self.paths().len() && 0 <= b < self.paths().len() && a
                                != b implies self.paths()[a] != self.paths()[b] by {
                            let a0 = if a < i {
                                a
                            } else {
                                a + 1
                            };
                            let b0 = if b < i {
                                b
                            } else {
                                b + 1
                            };
                            assert(before.paths()[a0] != before.paths()[b0]);
                        }
                    }
                    assert forall|q: Seq<char>|
                        self@.files.dom().contains(q) <==> (#[trigger] before@.files.remove(
                            path@,
                        ).dom().contains(q)) by {
                        if self.paths().contains(q) {
                            let k = choose|k: int|
                                0 <= k < self.paths().len() && self.paths()[k] == q;
                            let k0 = if k < i {
                                k
                            } else {
                                k + 1
                            };
                            assert(before.paths()[k0] == q);
                            assert(before.paths()[i as int] == path@);
                        }
                        if before.paths().contains(q) && q != path@ {
                            let k = choose|k: int|
                                0 <= k < before.paths().len() && before.paths()[k] == q;
                            let k1 = if k < i {
                                k
                            } else {
                                k - 1
                            };
                            assert(self.paths()[k1] == q);
                        }
                    }
                    assert forall|q: Seq<char>| self@.files.dom().contains(q) implies (
                    #[trigger] self@.files[q]) == before@.files.remove(path@)[q] by {
                        let k = self.lemma_present(q);
                        let k0 = if k < i {
                            k
                        } else {
                            k + 1
                        };
                        before.lemma_entry(k0);
                        before.lemma_entry(i as int);
                        assert(self.entries@[k] == before.entries@[k0]);
                        assert(before.paths()[k0] != before.paths()[i as int]);
                    }
                    assert(self@.files =~= before@.files.remove(path@));
                }
            },
            None => {
                assert(self@.files.remove(path@) =~= self@.files);
            },
        }
    }

    /// Keeps an event for after the scan. Once the scan has ended the
    /// event is dropped: the caller handles it at once.
    pub fn add_pending_event(&mut self, path: String, event_type: EventType, now: u64)
        requires
            old(self).wf(),
        ensures
            final(self).wf(),
            final(self)@ == old(self)@.after_event(
                PendingEventView { path: path@, event_type, timestamp: now },
            ),
    {
        if !self.scan_completed {
            let event = PendingEvent { path, event_type, timestamp: now };
            let ghost before = *self;
            self.pending_events.push(event);
            proof {
                assert(self.paths() =~= before.paths());
                assert(self@.files =~= before@.files);
                assert(self@.pending =~= before@.pending.push(event@));
            }
        }
    }

    /// Ends the scan and hands out the events that were kept, oldest
    /// first. They are handed out once: the registry keeps none.
    pub fn complete_scan(&mut self) -> (events: Vec<PendingEvent>)
        requires
            old(self).wf(),
        ensures
            final(self).wf(),
            event_views(events@) == old(self)@.pending,
            final(self)@ == old(self)@.after_scan(),
    {
        let ghost before = *self;
        let mut events: Vec<PendingEvent> = Vec::new();
        std::mem::swap(&mut self.pending_events, &mut events);
        self.scan_completed = true;
        proof {
            assert(self.paths() =~= before.paths());
            assert(self@.files =~= before@.files);
            assert(self@.pending =~= Seq::<PendingEventView>::empty());
        }
        events
    }

    /// Whether the scan has ended.
    pub fn is_scan_completed(&self) -> (done: bool)
        ensures
            done == self@.scan_completed,
    {
        self.scan_completed
    }

    /// Whether the registry has let through `file_mod_time` or a later
    /// modification time for `path`.
    pub fn is_file_processed(&self, path: &str, file_mod_time: u64) -> (seen: bool)
        requires
            self.wf(),
        ensures
            seen == (self@.files.dom().contains(path@) && self@.files[path@].modified_time
                >= file_mod_time),
    {
        match self.find(path) {
            Some(i) => self.entries[i].state.modified_time >= file_mod_time,
            None => false,
        }
    }

    /// How many paths the registry knows, and how many of them are being
    /// processed.
    pub fn stats(&self) -> (counts: (usize, usize))
        requires
            self.wf(),
        ensures
            counts.0 == self@.files.dom().len(),
            counts.1 == self@.processing_paths().len(),
            self@.files.dom().finite(),
    {
        let ghost paths = self.paths();
        let mut busy: usize = 0;
        let mut i: usize = 0;
        let ghost mut seen: Set<Seq<char>> = Set::empty();
        while i < self.entries.len()
            invariant
                i <= self.entries.len(),
                self.wf(),
                paths == self.paths(),
                busy <= i,
                seen.finite(),
                busy == seen.len(),
                forall|p: Seq<char>|
                    seen.contains(p) <==> exists|k: int|
                        0 <= k < i && #[trigger] paths[k] == p && self.entries@[k].state.processing,
            decreases self.entries.len() - i,
        {
            if self.entries[i].state.processing {
                proof {
                    let p = paths[i as int];
                    if seen.contains(p) {
                        let k = choose|k: int|
                            0 <= k < i && #[trigger] paths[k] == p
                                && self.entries@[k].state.processing;
                        assert(paths[k] == paths[i as int]);
                    }
                    let more = seen.insert(p);
                    assert forall|q: Seq<char>| more.contains(q) <==> exists|k: int|
                        0 <= k < i + 1 && #[trigger] paths[k] == q
                            && self.entries@[k].state.processing by {
                        if more.contains(q) {
                            if q == p {
                                assert(paths[i as int] == q);
                            } else {
                                let k = choose|k: int|
                                    0 <= k < i && #[trigger] paths[k] == q
                                        && self.entries@[k].state.processing;
                                assert(paths[k] == q);
                            }
                        }
                    }
                    seen = more;
                }
                busy += 1;
            }
            i += 1;
        }
        proof {
            assert(self@.processing_paths() =~= seen) by {
                assert forall|p: Seq<char>| self@.processing_paths().contains(p) <==> seen.contains(
                    p,
                ) by {
                    if self@.is_processing(p) {
                        let k = self.lemma_present(p);
                        assert(paths[k] == p);
                    }
                    if seen.contains(p) {
                        let k = choose|k: int|
                            0 <= k < i && #[trigger] paths[k] == p
                                && self.entries@[k].state.processing;
                        self.lemma_entry(k);
                    }
                }
            }
            assert(self@.files.dom() =~= paths.to_set());
            paths.unique_seq_to_set();
            vstd::seq_lib::seq_to_set_is_finite(paths);
        }
        (self.entries.len(), busy)
    }
}

impl Default for FileRegistry {
    fn default() -> (r: Self)
        ensures
            r.wf(),
            r@.files == Map::<Seq<char>, FileState>::empty(),
            !r@.scan_completed,
            r@.pending == Seq::<PendingEventView>::empty(),
    {
        FileRegistry::new()
    }
}

/// One step on a registry.
pub enum RegistryOp {
    TryStart { path: Seq<char>, mtime: u64, now: u64 },
    Finish { path: Seq<char>, now: u64 },
    MarkDeleted { path: Seq<char> },
    AddPending { event: PendingEventView },
    CompleteScan,
}

/// The state after one step.
pub open spec fn step(state: RegistryView, op: RegistryOp) -> RegistryView {
    match op {
        RegistryOp::TryStart { path, mtime, now } => state.after_try_start(path, mtime, now),
        RegistryOp::Finish { path, now } => state.after_finish(path, now),
        RegistryOp::MarkDeleted { path } => state.after_delete(path),
        RegistryOp::AddPending { event } => state.after_event(event),
        RegistryOp::CompleteScan => state.after_scan(),
    }
}

/// The state after a sequence of steps.
pub open spec fn run(state: RegistryView, ops: Seq<RegistryOp>) -> RegistryView
    decreases ops.len(),
{
    if ops.len() == 0 {
        state
    } else {
        step(run(state, ops.drop_last()), ops.last())
    }
}

/// Whether a step ends the processing of `path` or forgets the path.
pub open spec fn releases(op: RegistryOp, path: Seq<char>) -> bool {
    match op {
        RegistryOp::Finish { path: p, .. } => p == path,
        RegistryOp::MarkDeleted { path: p } => p == path,
        _ => false,
    }
}

/// A request that is let through marks its path as being processed.
pub proof fn lemma_granted_is_processing(state: RegistryView, path: Seq<char>, mtime: u64, now: u64)
    requires
        state.grants(path, mtime),
    ensures
        state.after_try_start(path, mtime, now).is_processing(path),
{
}

/// Mutual exclusion: while a path is being processed, and through any
/// steps that neither end its processing nor forget it, the path stays
/// marked and every further request for it is refused, whatever the
/// modification time.
pub proof fn lemma_one_at_a_time(
    state: RegistryView,
    path: Seq<char>,
    ops: Seq<RegistryOp>,
    mtime: u64,
)
    requires
        state.is_processing(path),
        forall|i: int| 0 <= i < ops.len() ==> !releases(#[trigger] ops[i], path),
    ensures
        run(state, ops).is_processing(path),
        !run(state, ops).grants(path, mtime),
    decreases ops.len(),
{
    if ops.len() > 0 {
        let head = ops.drop_last();
        assert forall|i: int| 0 <= i < head.len() implies !releases(#[trigger] head[i], path) by {
            assert(head[i] == ops[i]);
        }
        lemma_one_at_a_time(state, path, head, mtime);
        assert(!releases(ops[ops.len() - 1], path));
    }
}

/// The events that were kept are handed out once: after the scan has
/// ended, whatever steps follow, the registry keeps no event and the scan
/// stays ended.
pub proof fn lemma_drained_once(state: RegistryView, ops: Seq<RegistryOp>)
    ensures
        run(state.after_scan(), ops).scan_completed,
        run(state.after_scan(), ops).pending == Seq::<PendingEventView>::empty(),
    decreases ops.len(),
{
    if ops.len() > 0 {
        lemma_drained_once(state, ops.drop_last());
    }
}

} // verus!
