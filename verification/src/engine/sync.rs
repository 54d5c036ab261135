//! Who may process a file: the decisions of the scanner and of the
//! watcher, with the registry between them.
//!
//! The watcher starts before the scan. While the scan runs, the watcher's
//! events are kept by the registry; when the scan ends, they are handed
//! out once and processed, and later events are processed as they come.

use vstd::prelude::*;
use crate::registry::{EventType, FileRegistry, PendingEventView, RegistryView};
use crate::text::{lowercase, lowercase_of, same_text, string_views};

verus! {

/// How long the watcher waits after a file was created or modified before
/// it reads the file, in milliseconds, so that the writer can finish.
pub const DEBOUNCE_MILLIS: u64 = 200;

/// What the file system reported.
#[derive(Debug, Clone, Copy, PartialEq, Eq, Structural)]
pub enum WatchKind {
    /// A file was created.
    Create,
    /// The content of a file was modified.
    ModifyData,
    /// Something else of a file was modified: its metadata, its name.
    ModifyOther,
    /// A file was removed.
    Remove,
    /// Anything else.
    Other,
}

/// What to do with a file.
#[derive(Debug, Clone, Copy, PartialEq, Eq, Structural)]
pub enum FileAction {
    /// Index the file, and tell the registry when that has ended.
    Index,
    /// Remove the file from the index and from the cache.
    Delete,
    /// Nothing.
    Skip,
}

/// Whether `extension`, in lower case, is one of the supported ones.
pub open spec fn is_supported(extension: Seq<char>, supported: Seq<Seq<char>>) -> bool {
    supported.contains(lowercase_of(extension))
}

/// Whether files with this extension are indexed. The letter case of the
/// extension does not matter.
pub fn is_supported_extension(extension: &str, supported: &[String]) -> (ok: bool)
    ensures
        ok == is_supported(extension@, string_views(supported@)),
{
    let lower = lowercase(extension);
    let ghost all = string_views(supported@);
    let mut i: usize = 0;
    while i < supported.len()
        invariant
            i <= supported.len(),
            all == string_views(supported@),
            lower@ == lowercase_of(extension@),
            forall|k: int| 0 <= k < i ==> all[k] != lower@,
        decreases supported.len() - i,
    {
        if same_text(supported[i].as_str(), lower.as_str()) {
            assert(all[i as int] == lower@);
            return true;
        }
        i += 1;
    }
    false
}

/// Whether a walk goes on at this depth: `max_depth` is the deepest level
/// that is walked, and 0 is without limit.
pub fn within_depth(depth: usize, max_depth: usize) -> (ok: bool)
    ensures
        ok == (max_depth == 0 || depth <= max_depth),
{
    max_depth == 0 || depth <= max_depth
}

/// Whether a file name is hidden: it starts with a dot.
pub fn is_hidden_name(name: &str) -> (hidden: bool)
    ensures
        hidden == (name@.len() > 0 && name@[0] == '.'),
{
    let chars = crate::text::chars_of(name);
    chars.len() > 0 && chars[0] == '.'
}

/// What a report of the watcher means for a file: nothing, unless it is a
/// creation, a change of content or a removal of a file with a supported
/// extension; a deletion if the file no longer exists, whatever was
/// reported; else what was reported.
pub open spec fn meaning(kind: WatchKind, present: bool, supported: bool) -> Option<EventType> {
    if !supported || kind is ModifyOther || kind is Other {
        None
    } else if !present || kind is Remove {
        Some(EventType::Delete)
    } else if kind is Create {
        Some(EventType::Create)
    } else {
        Some(EventType::Modify)
    }
}

/// Finds `meaning`.
pub fn normalize(kind: WatchKind, present: bool, supported: bool) -> (event: Option<EventType>)
    ensures
        event == meaning(kind, present, supported),
{
    if !supported {
        return None;
    }
    match kind {
        WatchKind::ModifyOther => None,
        WatchKind::Other => None,
        WatchKind::Remove => Some(EventType::Delete),
        WatchKind::Create => {
            if present {
                Some(EventType::Create)
            } else {
                Some(EventType::Delete)
            }
        },
        WatchKind::ModifyData => {
            if present {
                Some(EventType::Modify)
            } else {
                Some(EventType::Delete)
            }
        },
    }
}

/// Whether the index lags behind a file: it holds no document of the
/// file, or one with an earlier modification time.
pub open spec fn stale(stored_mtime: Option<u64>, file_mtime: u64) -> bool {
    match stored_mtime {
        Some(t) => file_mtime > t,
        None => true,
    }
}

/// Finds `stale`.
pub fn is_stale(stored_mtime: Option<u64>, file_mtime: u64) -> (lags: bool)
    ensures
        lags == stale(stored_mtime, file_mtime),
{
    match stored_mtime {
        Some(t) => file_mtime > t,
        None => true,
    }
}

/// What the scan does with a file, and the registry after it.
pub open spec fn scan_outcome(
    registry: RegistryView,
    path: Seq<char>,
    supported: bool,
    file_mtime: u64,
    stored_mtime: Option<u64>,
    now: u64,
) -> (FileAction, RegistryView) {
    if !supported || !registry.grants(path, file_mtime) {
        (FileAction::Skip, registry)
    } else if stale(stored_mtime, file_mtime) {
        (FileAction::Index, registry.after_try_start(path, file_mtime, now))
    } else {
        (
            FileAction::Skip,
            registry.after_try_start(path, file_mtime, now).after_finish(path, now),
        )
    }
}

/// Decides what the scan does with a file that it came upon. A file with
/// an unsupported extension is skipped. So is one that the registry does
/// not let through. A file that is let through is indexed if the index
/// lags behind it; if not, it is released at once.
pub fn on_scan_file(
    registry: &mut FileRegistry,
    path: &str,
    supported: bool,
    file_mtime: u64,
    stored_mtime: Option<u64>,
    now: u64,
) -> (action: FileAction)
    requires
        old(registry).wf(),
    ensures
        final(registry).wf(),
        (action, final(registry)@) == scan_outcome(
            old(registry)@,
            path@,
            supported,
            file_mtime,
            stored_mtime,
            now,
        ),
{
    if !supported {
        return FileAction::Skip;
    }
    if !registry.try_start_processing(path, file_mtime, now) {
        return FileAction::Skip;
    }
    if is_stale(stored_mtime, file_mtime) {
        FileAction::Index
    } else {
        registry.finish_processing(path, now);
        FileAction::Skip
    }
}

/// What the watcher does with an event, and the registry after it.
pub open spec fn watch_outcome(
    registry: RegistryView,
    path: Seq<char>,
    event: EventType,
    file_mtime: u64,
    now: u64,
) -> (FileAction, RegistryView) {
    if !registry.scan_completed {
        (
            FileAction::Skip,
            registry.after_event(PendingEventView { path, event_type: event, timestamp: now }),
        )
    } else if event is Delete {
        (FileAction::Delete, registry.after_delete(path))
    } else if registry.grants(path, file_mtime) {
        (FileAction::Index, registry.after_try_start(path, file_mtime, now))
    } else {
        (FileAction::Skip, registry)
    }
}

/// Decides what the watcher does with an event. While the scan runs, the
/// event is kept for later. After the scan, a deletion is carried out and
/// the path forgotten; a creation or a modification is indexed if the
/// registry lets the path through, and dropped if not.
pub fn on_watch_event(
    registry: &mut FileRegistry,
    path: &str,
    event: EventType,
    file_mtime: u64,
    now: u64,
) -> (action: FileAction)
    requires
        old(registry).wf(),
    ensures
        final(registry).wf(),
        (action, final(registry)@) == watch_outcome(old(registry)@, path@, event, file_mtime, now),
{
    if !registry.is_scan_completed() {
        registry.add_pending_event(path.to_owned(), event, now);
        return FileAction::Skip;
    }
    match event {
        EventType::Delete => {
            registry.mark_deleted(path);
            FileAction::Delete
        },
        _ => {
            if registry.try_start_processing(path, file_mtime, now) {
                FileAction::Index
            } else {
                FileAction::Skip
            }
        },
    }
}

/// What the scan and the watcher decide obeys the registry: a file is
/// indexed only if the registry let it through, and is then marked as
/// being processed.
pub proof fn lemma_index_means_granted(
    registry: RegistryView,
    path: Seq<char>,
    supported: bool,
    event: EventType,
    file_mtime: u64,
    stored_mtime: Option<u64>,
    now: u64,
)
    ensures
        scan_outcome(registry, path, supported, file_mtime, stored_mtime, now).0
            == FileAction::Index ==> registry.grants(path, file_mtime) && scan_outcome(
            registry,
            path,
            supported,
            file_mtime,
            stored_mtime,
            now,
        ).1.is_processing(path),
        watch_outcome(registry, path, event, file_mtime, now).0 == FileAction::Index
            ==> registry.grants(path, file_mtime) && watch_outcome(
            registry,
            path,
            event,
            file_mtime,
            now,
        ).1.is_processing(path),
        registry.is_processing(path) ==> scan_outcome(
            registry,
            path,
            supported,
            file_mtime,
            stored_mtime,
            now,
        ).0 != FileAction::Index && watch_outcome(registry, path, event, file_mtime, now).0
            != FileAction::Index,
{
}

} // verus!
