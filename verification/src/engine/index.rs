//! What indexing, deleting and the orphan sweep write, and what that does
//! to the index.
//!
//! A document is keyed by its canonical path. Writes are staged and take
//! effect together at the next commit, so a reader sees the index as of the
//! last commit: for a path that is indexed again, the old document or the
//! new one, never both and never neither.

use vstd::prelude::*;
use crate::api::response::IndexResponse;
use crate::cache::{new_cache_entry, CacheEntry, FileMetaEntry};
use crate::schema::{DocumentView, FileMetadata, IndexDocument};
use crate::text::{copy_strings, string_views};

verus! {

/// One write to the index.
#[derive(Debug, Clone)]
pub enum WriteOp {
    /// Deletes every document whose path is `path`.
    DeleteTerm { path: String },
    /// Adds a document.
    AddDocument(IndexDocument),
    /// Makes the writes since the last commit take effect.
    Commit,
}

/// A write as plain values.
pub enum WriteOpView {
    DeleteTerm { path: Seq<char> },
    AddDocument(DocumentView),
    Commit,
}

impl View for WriteOp {
    type V = WriteOpView;

    open spec fn view(&self) -> WriteOpView {
        match self {
            WriteOp::DeleteTerm { path } => WriteOpView::DeleteTerm { path: path@ },
            WriteOp::AddDocument(doc) => WriteOpView::AddDocument(doc@),
            WriteOp::Commit => WriteOpView::Commit,
        }
    }
}

/// The views of a sequence of writes.
pub open spec fn write_views(ops: Seq<WriteOp>) -> Seq<WriteOpView> {
    Seq::new(ops.len(), |i: int| ops[i]@)
}

/// The documents whose path is in `paths`, in order.
pub open spec fn kept(docs: Seq<DocumentView>, paths: Set<Seq<char>>) -> Seq<DocumentView>
    decreases docs.len(),
{
    if docs.len() == 0 {
        Seq::empty()
    } else if paths.contains(docs.last().metadata.path) {
        kept(docs.drop_last(), paths).push(docs.last())
    } else {
        kept(docs.drop_last(), paths)
    }
}

/// Every path but `path`.
pub open spec fn all_but(path: Seq<char>) -> Set<Seq<char>> {
    Set::new(|p: Seq<char>| p != path)
}

/// The documents after a staged write has taken effect.
pub open spec fn effect(docs: Seq<DocumentView>, op: WriteOpView) -> Seq<DocumentView> {
    match op {
        WriteOpView::DeleteTerm { path } => kept(docs, all_but(path)),
        WriteOpView::AddDocument(doc) => docs.push(doc),
        WriteOpView::Commit => docs,
    }
}

/// The documents after a sequence of staged writes has taken effect, in
/// the order of the writes.
pub open spec fn effects(docs: Seq<DocumentView>, ops: Seq<WriteOpView>) -> Seq<DocumentView>
    decreases ops.len(),
{
    if ops.len() == 0 {
        docs
    } else {
        effect(effects(docs, ops.drop_last()), ops.last())
    }
}

/// An index: the documents that readers see, and the writes that wait for
/// the next commit.
pub struct IndexView {
    pub live: Seq<DocumentView>,
    pub staged: Seq<WriteOpView>,
}

impl IndexView {
    /// The index after one write.
    pub open spec fn write(self, op: WriteOpView) -> IndexView {
        match op {
            WriteOpView::Commit => IndexView {
                live: effects(self.live, self.staged),
                staged: Seq::empty(),
            },
            _ => IndexView { live: self.live, staged: self.staged.push(op) },
        }
    }

    /// The index after a sequence of writes.
    pub open spec fn write_all(self, ops: Seq<WriteOpView>) -> IndexView
        decreases ops.len(),
    {
        if ops.len() == 0 {
            self
        } else {
            self.write_all(ops.drop_last()).write(ops.last())
        }
    }

    /// The documents that readers see under `path`.
    pub open spec fn visible(self, path: Seq<char>) -> Seq<DocumentView> {
        kept(self.live, set![path])
    }

    /// Whether readers see a document under `path`.
    pub open spec fn is_indexed(self, path: Seq<char>) -> bool {
        self.visible(path).len() > 0
    }
}

/// The writes that put `doc` in place of whatever the index holds under
/// its path.
pub open spec fn upsert(doc: DocumentView) -> Seq<WriteOpView> {
    seq![
        WriteOpView::DeleteTerm { path: doc.metadata.path },
        WriteOpView::AddDocument(doc),
        WriteOpView::Commit,
    ]
}

/// The writes that remove whatever the index holds under `path`.
pub open spec fn deletion(path: Seq<char>) -> Seq<WriteOpView> {
    seq![WriteOpView::DeleteTerm { path }, WriteOpView::Commit]
}

/// One deletion for each path, then one commit.
pub open spec fn sweep(paths: Seq<Seq<char>>) -> Seq<WriteOpView> {
    Seq::new(paths.len(), |i: int| WriteOpView::DeleteTerm { path: paths[i] }).push(
        WriteOpView::Commit,
    )
}

/// The paths at the positions that are marked as not present.
pub open spec fn orphans(paths: Seq<Seq<char>>, present: Seq<bool>) -> Seq<Seq<char>>
    decreases paths.len(),
{
    if paths.len() == 0 || paths.len() != present.len() {
        Seq::empty()
    } else if present.last() {
        orphans(paths.drop_last(), present.drop_last())
    } else {
        orphans(paths.drop_last(), present.drop_last()).push(paths.last())
    }
}

/// Finds `upsert`.
pub fn upsert_ops(doc: IndexDocument) -> (ops: Vec<WriteOp>)
    ensures
        write_views(ops@) == upsert(doc@),
{
    let mut ops: Vec<WriteOp> = Vec::new();
    ops.push(WriteOp::DeleteTerm { path: doc.metadata.path.clone() });
    ops.push(WriteOp::AddDocument(doc));
    ops.push(WriteOp::Commit);
    assert(write_views(ops@) =~= upsert(doc@));
    ops
}

/// Finds `deletion`.
pub fn delete_ops(path: &str) -> (ops: Vec<WriteOp>)
    ensures
        write_views(ops@) == deletion(path@),
{
    let mut ops: Vec<WriteOp> = Vec::new();
    ops.push(WriteOp::DeleteTerm { path: path.to_owned() });
    ops.push(WriteOp::Commit);
    assert(write_views(ops@) =~= deletion(path@));
    ops
}

/// The paths of the indexed documents whose file is gone: `present[i]`
/// says whether the file of `paths[i]` exists. Where the two lists differ
/// in length, nothing counts as gone.
pub fn orphan_paths(paths: &Vec<String>, present: &Vec<bool>) -> (gone: Vec<String>)
    ensures
        string_views(gone@) == orphans(string_views(paths@), present@),
{
    let mut gone: Vec<String> = Vec::new();
    if paths.len() != present.len() {
        assert(string_views(gone@) =~= Seq::<Seq<char>>::empty());
        return gone;
    }
    let ghost all = string_views(paths@);
    let mut i: usize = 0;
    assert(string_views(gone@) =~= orphans(all.take(0), present@.take(0)));
    while i < paths.len()
        invariant
            i <= paths.len(),
            paths.len() == present.len(),
            all == string_views(paths@),
            string_views(gone@) == orphans(all.take(i as int), present@.take(i as int)),
        decreases paths.len() - i,
    {
        proof {
            assert(all.take(i + 1).drop_last() =~= all.take(i as int));
            assert(present@.take(i + 1).drop_last() =~= present@.take(i as int));
            assert(all.take(i + 1).last() == paths@[i as int]@);
        }
        if !present[i] {
            let path = paths[i].clone();
            proof {
                crate::text::lemma_string_views_push(gone@, path);
            }
            gone.push(path);
        }
        i += 1;
    }
    assert(all.take(paths.len() as int) =~= all);
    assert(present@.take(paths.len() as int) =~= present@);
    gone
}

/// Finds `sweep`.
pub fn sweep_ops(gone: &Vec<String>) -> (ops: Vec<WriteOp>)
    ensures
        write_views(ops@) == sweep(string_views(gone@)),
{
    let mut ops: Vec<WriteOp> = Vec::new();
    let mut i: usize = 0;
    while i < gone.len()
        invariant
            i <= gone.len(),
            ops@.len() == i,
            forall|k: int|
                0 <= k < i ==> (#[trigger] ops@[k])@ == (WriteOpView::DeleteTerm {
                    path: gone@[k]@,
                }),
        decreases gone.len() - i,
    {
        ops.push(WriteOp::DeleteTerm { path: gone[i].clone() });
        i += 1;
    }
    ops.push(WriteOp::Commit);
    assert(write_views(ops@) =~= sweep(string_views(gone@)));
    ops
}

/// Keeping by one set and then by another keeps by both.
pub proof fn lemma_kept_twice(docs: Seq<DocumentView>, a: Set<Seq<char>>, b: Set<Seq<char>>)
    ensures
        kept(kept(docs, a), b) == kept(docs, a.intersect(b)),
    decreases docs.len(),
{
    if docs.len() > 0 {
        lemma_kept_twice(docs.drop_last(), a, b);
        if a.contains(docs.last().metadata.path) {
            let head = kept(docs.drop_last(), a);
            assert(head.push(docs.last()).drop_last() =~= head);
        }
    }
}

/// Two sets that agree on the paths of the documents keep the same.
pub proof fn lemma_kept_agrees(docs: Seq<DocumentView>, a: Set<Seq<char>>, b: Set<Seq<char>>)
    requires
        forall|i: int|
            0 <= i < docs.len() ==> (a.contains((#[trigger] docs[i]).metadata.path) <==> b.contains(
                docs[i].metadata.path,
            )),
    ensures
        kept(docs, a) == kept(docs, b),
    decreases docs.len(),
{
    if docs.len() > 0 {
        let head = docs.drop_last();
        assert forall|i: int| 0 <= i < head.len() implies (a.contains(
            (#[trigger] head[i]).metadata.path,
        ) <==> b.contains(head[i].metadata.path)) by {
            assert(head[i] == docs[i]);
        }
        lemma_kept_agrees(head, a, b);
        assert(docs.last() == docs[docs.len() - 1]);
    }
}

/// Keeping by the empty set keeps nothing.
pub proof fn lemma_kept_none(docs: Seq<DocumentView>)
    ensures
        kept(docs, Set::empty()) == Seq::<DocumentView>::empty(),
    decreases docs.len(),
{
    if docs.len() > 0 {
        lemma_kept_none(docs.drop_last());
    }
}

/// Upsert: after a file was indexed, readers see exactly one document
/// under its path, the one that was written, with the modification time
/// that it was written with; and what they see under other paths is as
/// before. This holds for an index without staged writes, as the single
/// writer finds it.
pub proof fn lemma_upsert_leaves_one(index: IndexView, doc: DocumentView)
    requires
        index.staged.len() == 0,
    ensures
        index.write_all(upsert(doc)).staged.len() == 0,
        index.write_all(upsert(doc)).live == kept(index.live, all_but(doc.metadata.path)).push(doc),
        index.write_all(upsert(doc)).visible(doc.metadata.path) == seq![doc],
        forall|other: Seq<char>|
            other != doc.metadata.path ==> index.write_all(upsert(doc)).visible(other)
                == index.visible(other),
{
    reveal_with_fuel(IndexView::write_all, 4);
    reveal_with_fuel(effects, 3);
    let p = doc.metadata.path;
    let ops = upsert(doc);
    let first = ops.drop_last().drop_last();
    let second = ops.drop_last();
    assert(first =~= seq![ops[0]]);
    assert(first.drop_last() =~= Seq::<WriteOpView>::empty());
    assert(second.drop_last() =~= first);
    let s0 = index.write_all(first.drop_last());
    assert(s0 == index);
    let s1 = index.write_all(first);
    assert(s1.staged =~= seq![ops[0]]);
    let s2 = index.write_all(second);
    assert(s2.staged =~= seq![ops[0], ops[1]]);
    let s3 = index.write_all(ops);
    assert(s2.staged.drop_last() =~= seq![ops[0]]);
    assert(seq![ops[0]].drop_last() =~= Seq::<WriteOpView>::empty());
    let rest = kept(index.live, all_but(p));
    assert(s3.live == rest.push(doc));
    assert(rest.push(doc).drop_last() =~= rest);
    // Under the path itself, only the new document is left.
    lemma_kept_twice(index.live, all_but(p), set![p]);
    assert(all_but(p).intersect(set![p]) =~= Set::<Seq<char>>::empty());
    lemma_kept_none(index.live);
    assert(kept(rest.push(doc), set![p]) =~= seq![doc]);
    // Under any other path nothing has changed.
    assert forall|other: Seq<char>| other != p implies s3.visible(other) == index.visible(
        other,
    ) by {
        lemma_kept_twice(index.live, all_but(p), set![other]);
        assert(all_but(p).intersect(set![other]) =~= set![other]);
    }
}

/// Idempotence: indexing the same document a second time leaves the index
/// as the first time left it, with one document under the path.
pub proof fn lemma_upsert_twice(index: IndexView, doc: DocumentView)
    requires
        index.staged.len() == 0,
    ensures
        index.write_all(upsert(doc)).write_all(upsert(doc)) == index.write_all(upsert(doc)),
        index.write_all(upsert(doc)).write_all(upsert(doc)).visible(doc.metadata.path) == seq![doc],
{
    let p = doc.metadata.path;
    lemma_upsert_leaves_one(index, doc);
    let once = index.write_all(upsert(doc));
    lemma_upsert_leaves_one(once, doc);
    let twice = once.write_all(upsert(doc));
    let rest = kept(index.live, all_but(p));
    assert(rest.push(doc).drop_last() =~= rest);
    lemma_kept_twice(index.live, all_but(p), all_but(p));
    assert(all_but(p).intersect(all_but(p)) =~= all_but(p));
    assert(kept(rest.push(doc), all_but(p)) == rest);
    assert(twice.live == once.live);
    assert(twice.staged =~= once.staged);
}

/// Delete: after a path was deleted, readers see no document under it,
/// and what they see under other paths is as before.
pub proof fn lemma_delete_leaves_none(index: IndexView, path: Seq<char>)
    requires
        index.staged.len() == 0,
    ensures
        index.write_all(deletion(path)).staged.len() == 0,
        !index.write_all(deletion(path)).is_indexed(path),
        forall|other: Seq<char>|
            other != path ==> index.write_all(deletion(path)).visible(other) == index.visible(
                other,
            ),
{
    reveal_with_fuel(IndexView::write_all, 3);
    reveal_with_fuel(effects, 2);
    let ops = deletion(path);
    let first = ops.drop_last();
    assert(first =~= seq![ops[0]]);
    assert(first.drop_last() =~= Seq::<WriteOpView>::empty());
    let s1 = index.write_all(first);
    assert(s1.staged =~= seq![ops[0]]);
    assert(s1.staged.drop_last() =~= Seq::<WriteOpView>::empty());
    let s2 = index.write_all(ops);
    assert(s2.live == kept(index.live, all_but(path)));
    lemma_kept_twice(index.live, all_but(path), set![path]);
    assert(all_but(path).intersect(set![path]) =~= Set::<Seq<char>>::empty());
    lemma_kept_none(index.live);
    assert forall|other: Seq<char>| other != path implies s2.visible(other) == index.visible(
        other,
    ) by {
        lemma_kept_twice(index.live, all_but(path), set![other]);
        assert(all_but(path).intersect(set![other]) =~= set![other]);
    }
}

/// Whether readers see at most one document under each path.
pub open spec fn one_per_path(index: IndexView) -> bool {
    forall|path: Seq<char>| #[trigger] index.visible(path).len() <= 1
}

/// Keeping by a set keeps no more than there is.
pub proof fn lemma_kept_len(docs: Seq<DocumentView>, paths: Set<Seq<char>>)
    ensures
        kept(docs, paths).len() <= docs.len(),
    decreases docs.len(),
{
    if docs.len() > 0 {
        lemma_kept_len(docs.drop_last(), paths);
    }
}

/// One document for each path: where readers see at most one document
/// under each path, they still do after a file was indexed, after a path
/// was deleted, and after a sweep.
pub proof fn lemma_one_per_path_is_kept(
    index: IndexView,
    doc: DocumentView,
    path: Seq<char>,
    gone: Seq<Seq<char>>,
)
    requires
        index.staged.len() == 0,
        one_per_path(index),
    ensures
        one_per_path(index.write_all(upsert(doc))),
        one_per_path(index.write_all(deletion(path))),
        one_per_path(index.write_all(sweep(gone))),
{
    lemma_upsert_leaves_one(index, doc);
    let after = index.write_all(upsert(doc));
    assert forall|p: Seq<char>| #[trigger] after.visible(p).len() <= 1 by {
        if p != doc.metadata.path {
            assert(after.visible(p) == index.visible(p));
        }
    }
    lemma_delete_leaves_none(index, path);
    let after = index.write_all(deletion(path));
    assert forall|p: Seq<char>| #[trigger] after.visible(p).len() <= 1 by {
        if p != path {
            assert(after.visible(p) == index.visible(p));
        }
    }
    lemma_sweep_writes(index, gone);
    let after = index.write_all(sweep(gone));
    assert forall|p: Seq<char>| #[trigger] after.visible(p).len() <= 1 by {
        lemma_kept_twice(index.live, none_of(gone), set![p]);
        lemma_kept_twice(index.live, set![p], none_of(gone));
        assert(none_of(gone).intersect(set![p]) =~= set![p].intersect(none_of(gone)));
        lemma_kept_len(index.visible(p), none_of(gone));
        assert(index.visible(p).len() <= 1);
    }
}

/// The paths that are none of `gone`.
pub open spec fn none_of(gone: Seq<Seq<char>>) -> Set<Seq<char>> {
    Set::new(|p: Seq<char>| !gone.contains(p))
}

/// Staged deletions of the paths `gone` keep the documents under the
/// other paths.
proof fn lemma_deletions(docs: Seq<DocumentView>, gone: Seq<Seq<char>>)
    ensures
        effects(docs, Seq::new(gone.len(), |i: int| WriteOpView::DeleteTerm { path: gone[i] }))
            == kept(docs, none_of(gone)),
    decreases gone.len(),
{
    let ops = Seq::new(gone.len(), |i: int| WriteOpView::DeleteTerm { path: gone[i] });
    if gone.len() == 0 {
        assert forall|i: int| 0 <= i < docs.len() implies (none_of(gone).contains(
            (#[trigger] docs[i]).metadata.path,
        ) <==> Set::<Seq<char>>::full().contains(docs[i].metadata.path)) by {}
        lemma_kept_agrees(docs, none_of(gone), Set::full());
        lemma_kept_all(docs);
    } else {
        let head = gone.drop_last();
        lemma_deletions(docs, head);
        let head_ops = Seq::new(head.len(), |i: int| WriteOpView::DeleteTerm { path: head[i] });
        assert(ops.drop_last() =~= head_ops);
        lemma_kept_twice(docs, none_of(head), all_but(gone.last()));
        assert(none_of(head).intersect(all_but(gone.last())) =~= none_of(gone)) by {
            assert forall|p: Seq<char>|
                none_of(head).intersect(all_but(gone.last())).contains(p) <==> none_of(
                    gone,
                ).contains(p) by {
                if gone.contains(p) {
                    let k = choose|k: int| 0 <= k < gone.len() && gone[k] == p;
                    if k < head.len() {
                        assert(head[k] == p);
                    }
                }
                if head.contains(p) {
                    let k = choose|k: int| 0 <= k < head.len() && head[k] == p;
                    assert(gone[k] == p);
                }
                assert(gone[gone.len() - 1] == gone.last());
            }
        }
    }
}

/// Keeping by the set of all paths keeps everything.
pub proof fn lemma_kept_all(docs: Seq<DocumentView>)
    ensures
        kept(docs, Set::full()) == docs,
    decreases docs.len(),
{
    if docs.len() > 0 {
        lemma_kept_all(docs.drop_last());
        assert(docs.drop_last().push(docs.last()) =~= docs);
    }
}

/// A sweep stages its deletions and commits them.
proof fn lemma_sweep_writes(index: IndexView, gone: Seq<Seq<char>>)
    requires
        index.staged.len() == 0,
    ensures
        index.write_all(sweep(gone)).staged.len() == 0,
        index.write_all(sweep(gone)).live == kept(index.live, none_of(gone)),
{
    let deletions = Seq::new(gone.len(), |i: int| WriteOpView::DeleteTerm { path: gone[i] });
    assert(sweep(gone).drop_last() =~= deletions);
    lemma_staging(index, deletions);
    assert(index.staged + deletions =~= deletions);
    lemma_deletions(index.live, gone);
}

/// Writes other than commits are staged in their order.
proof fn lemma_staging(index: IndexView, ops: Seq<WriteOpView>)
    requires
        forall|i: int| 0 <= i < ops.len() ==> !((#[trigger] ops[i]) is Commit),
    ensures
        index.write_all(ops).live == index.live,
        index.write_all(ops).staged == index.staged + ops,
    decreases ops.len(),
{
    if ops.len() > 0 {
        let head = ops.drop_last();
        assert forall|i: int| 0 <= i < head.len() implies !((#[trigger] head[i]) is Commit) by {
            assert(head[i] == ops[i]);
        }
        lemma_staging(index, head);
        assert(!(ops[ops.len() - 1] is Commit));
        assert((index.staged + head).push(ops.last()) =~= index.staged + ops);
    } else {
        assert(index.staged + ops =~= index.staged);
    }
}

/// The paths of the documents.
pub open spec fn paths_of(docs: Seq<DocumentView>) -> Seq<Seq<char>> {
    Seq::new(docs.len(), |i: int| docs[i].metadata.path)
}

/// Orphan sweep: for the documents `index.live` and the set `files` of the
/// paths that exist, after the sweep of the documents whose path does not
/// exist readers see exactly the documents whose path exists.
pub proof fn lemma_sweep_keeps_existing(index: IndexView, files: Set<Seq<char>>)
    requires
        index.staged.len() == 0,
    ensures
        index.write_all(
            sweep(
                orphans(
                    paths_of(index.live),
                    Seq::new(index.live.len(), |i: int| files.contains(index.live[i].metadata.path)),
                ),
            ),
        ).live == kept(index.live, files),
{
    let docs = index.live;
    let paths = paths_of(docs);
    let present = Seq::new(docs.len(), |i: int| files.contains(docs[i].metadata.path));
    let gone = orphans(paths, present);
    lemma_sweep_writes(index, gone);
    assert forall|i: int| 0 <= i < docs.len() implies (none_of(gone).contains(
        (#[trigger] docs[i]).metadata.path,
    ) <==> files.contains(docs[i].metadata.path)) by {
        lemma_orphans(paths, present, docs[i].metadata.path);
        if !files.contains(docs[i].metadata.path) {
            assert(paths[i] == docs[i].metadata.path && !present[i]);
        }
        if gone.contains(docs[i].metadata.path) {
            let k = choose|k: int|
                0 <= k < paths.len() && paths[k] == docs[i].metadata.path && !present[k];
            assert(docs[k].metadata.path == docs[i].metadata.path);
        }
    }
    lemma_kept_agrees(docs, none_of(gone), files);
}

/// A path is among the orphans exactly if it stands at a position that is
/// marked as not present.
pub proof fn lemma_orphans(paths: Seq<Seq<char>>, present: Seq<bool>, p: Seq<char>)
    requires
        paths.len() == present.len(),
    ensures
        orphans(paths, present).contains(p) <==> exists|k: int|
            0 <= k < paths.len() && #[trigger] paths[k] == p && !present[k],
    decreases paths.len(),
{
    if paths.len() > 0 {
        let head = paths.drop_last();
        let marks = present.drop_last();
        lemma_orphans(head, marks, p);
        let n = paths.len() - 1;
        let all = orphans(paths, present);
        if all.contains(p) {
            let j = choose|j: int| 0 <= j < all.len() && all[j] == p;
            if !present.last() && j == all.len() - 1 {
                assert(paths[n] == p && !present[n]);
            } else {
                assert(orphans(head, marks)[j] == p);
                let k = choose|k: int| 0 <= k < head.len() && #[trigger] head[k] == p && !marks[k];
                assert(paths[k] == p && !present[k]);
            }
        }
        if exists|k: int| 0 <= k < paths.len() && #[trigger] paths[k] == p && !present[k] {
            let k = choose|k: int| 0 <= k < paths.len() && #[trigger] paths[k] == p && !present[k];
            if k < n {
                assert(head[k] == p && !marks[k]);
                let j = choose|j: int|
                    0 <= j < orphans(head, marks).len() && orphans(head, marks)[j] == p;
                assert(all[j] == p);
            } else {
                assert(all[all.len() - 1] == p);
            }
        }
    }
}

/// One write to the cache.
#[derive(Debug, Clone)]
pub enum CacheOp {
    /// Stores the tags of a path.
    SetKeywords { path: String, entry: CacheEntry },
    /// Removes the tags of a path.
    RemoveKeywords { path: String },
    /// Stores the metadata of a path.
    SaveMeta { path: String, meta: FileMetaEntry },
    /// Removes the metadata of a path.
    RemoveMeta { path: String },
}

/// What the cache holds.
pub struct CacheView {
    /// The digest and the tags of each path that has tags.
    pub keywords: Map<Seq<char>, (u64, Seq<Seq<char>>)>,
    /// The metadata of each path that has metadata.
    pub meta: Map<Seq<char>, FileMetaEntry>,
}

impl CacheView {
    /// The cache after one write.
    pub open spec fn write(self, op: CacheOp) -> CacheView {
        match op {
            CacheOp::SetKeywords { path, entry } => CacheView {
                keywords: self.keywords.insert(
                    path@,
                    (entry.content_hash, string_views(entry.keywords@)),
                ),
                ..self
            },
            CacheOp::RemoveKeywords { path } => CacheView {
                keywords: self.keywords.remove(path@),
                ..self
            },
            CacheOp::SaveMeta { path, meta } => CacheView {
                meta: self.meta.insert(path@, meta),
                ..self
            },
            CacheOp::RemoveMeta { path } => CacheView { meta: self.meta.remove(path@), ..self },
        }
    }

    /// The cache after a sequence of writes.
    pub open spec fn write_all(self, ops: Seq<CacheOp>) -> CacheView
        decreases ops.len(),
    {
        if ops.len() == 0 {
            self
        } else {
            self.write_all(ops.drop_last()).write(ops.last())
        }
    }

    /// Whether the cache holds anything for `path`.
    pub open spec fn knows(self, path: Seq<char>) -> bool {
        self.keywords.dom().contains(path) || self.meta.dom().contains(path)
    }
}

/// The cache writes that go with the deletion of a path: its tags and its
/// metadata are removed.
pub fn forget_ops(path: &str) -> (ops: Vec<CacheOp>)
    ensures
        ops@.len() == 2,
        ops@[0] matches CacheOp::RemoveKeywords { path: p } && p@ == path@,
        ops@[1] matches CacheOp::RemoveMeta { path: p } && p@ == path@,
{
    let mut ops: Vec<CacheOp> = Vec::new();
    ops.push(CacheOp::RemoveKeywords { path: path.to_owned() });
    ops.push(CacheOp::RemoveMeta { path: path.to_owned() });
    ops
}

/// After the cache writes of a deletion the cache holds nothing for the
/// path, and what it holds for other paths is as before.
pub proof fn lemma_forgotten(cache: CacheView, ops: Seq<CacheOp>, path: Seq<char>)
    requires
        ops.len() == 2,
        ops[0] matches CacheOp::RemoveKeywords { path: p } && p@ == path,
        ops[1] matches CacheOp::RemoveMeta { path: p } && p@ == path,
    ensures
        !cache.write_all(ops).knows(path),
        cache.write_all(ops).keywords == cache.keywords.remove(path),
        cache.write_all(ops).meta == cache.meta.remove(path),
{
    reveal_with_fuel(CacheView::write_all, 3);
    let first = ops.drop_last();
    assert(first.drop_last() =~= Seq::<CacheOp>::empty());
    assert(first.last() == ops[0]);
    assert(ops.last() == ops[1]);
    assert(cache.write_all(first.drop_last()) == cache);
    let end = cache.write_all(ops);
    assert(end.keywords =~= cache.keywords.remove(path));
    assert(end.meta =~= cache.meta.remove(path));
}

/// Where the tags of a document come from.
#[derive(Debug, Clone)]
pub enum TagSource {
    /// From the cache: the text is the one that the tags were made from.
    Cached(Vec<String>),
    /// Fresh from the keyword extractor, or none where there is no
    /// extractor or it failed. They are written back to the cache.
    Computed(Vec<String>),
}

impl TagSource {
    /// The tags.
    pub open spec fn tags(self) -> Seq<Seq<char>> {
        match self {
            TagSource::Cached(t) => string_views(t@),
            TagSource::Computed(t) => string_views(t@),
        }
    }
}

/// What indexing one file does.
pub struct IndexPlan {
    /// The canonical path of the file.
    pub path: String,
    /// The writes to the index.
    pub writes: Vec<WriteOp>,
    /// The tags to write back to the cache, if they are fresh.
    pub cache_tags: Option<CacheOp>,
    /// The metadata to record once the writes are committed.
    pub on_success: CacheOp,
}

/// Plans the indexing of a file: the document is made from the title, the
/// text, the tags and the metadata, and put in place of whatever the index
/// holds under the file's path. Fresh tags go to the cache with the digest
/// of the text. Once the index has the document, the cache records the
/// file's size and modification time as indexed.
pub fn plan_index(title: String, content: String, tags: TagSource, metadata: FileMetadata) -> (plan:
    IndexPlan)
    ensures
        plan.path@ == metadata.path@,
        write_views(plan.writes@) == upsert(
            DocumentView { title: title@, content: content@, tags: tags.tags(), metadata: metadata@ },
        ),
        match tags {
            TagSource::Cached(_) => plan.cache_tags is None,
            TagSource::Computed(t) => plan.cache_tags matches Some(
                CacheOp::SetKeywords { path, entry },
            ) && path@ == metadata.path@ && entry.content_hash == crate::cache::content_hash_of(
                content@,
            ) && string_views(entry.keywords@) == string_views(t@),
        },
        plan.on_success matches CacheOp::SaveMeta { path, meta } && path@ == metadata.path@ && meta
            == (FileMetaEntry {
            file_size: metadata.file_size,
            mtime: metadata.modified_time,
            indexed: true,
        }),
{
    let path = metadata.path.clone();
    let on_success = CacheOp::SaveMeta {
        path: metadata.path.clone(),
        meta: FileMetaEntry {
            file_size: metadata.file_size,
            mtime: metadata.modified_time,
            indexed: true,
        },
    };
    let (doc_tags, cache_tags) = match tags {
        TagSource::Cached(t) => (t, None),
        TagSource::Computed(t) => {
            let entry = new_cache_entry(content.as_str(), copy_strings(t.as_slice()));
            (t, Some(CacheOp::SetKeywords { path: metadata.path.clone(), entry }))
        },
    };
    let doc = IndexDocument::new(title, content, doc_tags, metadata);
    let writes = upsert_ops(doc);
    IndexPlan { path, writes, cache_tags, on_success }
}

/// The response to a file that was indexed.
pub fn index_response(path: &str, took_ms: u64) -> (r: IndexResponse)
    ensures
        r.success,
        r.message@ == "文件已索引"@,
        r.path@ == path@,
        r.took_ms == took_ms,
{
    IndexResponse {
        success: true,
        message: "文件已索引".to_owned(),
        path: path.to_owned(),
        took_ms,
    }
}

} // verus!
