//! The index database: the mapping from logical paths to content hashes,
//! and the sync state, replaced as a whole in one transaction.
//!
//! A new snapshot is first staged, where no reader sees it, and becomes the
//! visible snapshot only when it is committed. Whatever happens to a staged
//! snapshot short of the commit leaves the visible one as it was.

use vstd::prelude::*;
use crate::digest::ContentHash;
use crate::error::SyncError;
use crate::mode::OperatingMode;
use crate::store::hash_set;

verus! {

/// An identifier of a snapshot of the remote content tree. History is
/// linear, and a revision is its position in it: a later revision descends
/// from every earlier one.
#[derive(Clone, Copy, Debug, PartialEq, Eq, Structural)]
pub struct Revision {
    pub id: u64,
}

/// One logical path of a snapshot and the blob that it names.
#[derive(Debug, PartialEq, Eq)]
pub struct ContentEntry {
    pub logical_path: String,
    pub content_ref: ContentHash,
    pub size: u64,
    pub modified_at: u64,
}

/// A content entry as plain values.
pub struct EntryView {
    pub logical_path: Seq<char>,
    pub content_ref: Seq<u8>,
    pub size: u64,
    pub modified_at: u64,
}

impl View for ContentEntry {
    type V = EntryView;

    open spec fn view(&self) -> EntryView {
        EntryView {
            logical_path: self.logical_path@,
            content_ref: self.content_ref@,
            size: self.size,
            modified_at: self.modified_at,
        }
    }
}

impl Clone for ContentEntry {
    fn clone(&self) -> (copy: Self)
        ensures
            copy@ == self@,
    {
        ContentEntry {
            logical_path: self.logical_path.clone(),
            content_ref: self.content_ref.clone(),
            size: self.size,
            modified_at: self.modified_at,
        }
    }
}

/// The entries of a vector as plain values.
pub open spec fn entry_views(entries: Seq<ContentEntry>) -> Seq<EntryView> {
    entries.map_values(|entry: ContentEntry| entry@)
}

/// No logical path occurs twice.
pub open spec fn distinct_paths(entries: Seq<EntryView>) -> bool {
    forall|i: int, j: int|
        0 <= i < j < entries.len() ==> (#[trigger] entries[i]).logical_path != (
        #[trigger] entries[j]).logical_path
}

/// Whether an entry stands under `path`.
pub open spec fn has_path(entries: Seq<EntryView>, path: Seq<char>) -> bool {
    exists|i: int| 0 <= i < entries.len() && (#[trigger] entries[i]).logical_path == path
}

/// The position of an entry under `path`.
pub open spec fn path_index(entries: Seq<EntryView>, path: Seq<char>) -> int {
    choose|i: int| 0 <= i < entries.len() && (#[trigger] entries[i]).logical_path == path
}

/// The entries after a local write of `entry`: it takes the place of the
/// entry under its path, or is appended.
pub open spec fn upserted(entries: Seq<EntryView>, entry: EntryView) -> Seq<EntryView> {
    if has_path(entries, entry.logical_path) {
        entries.update(path_index(entries, entry.logical_path), entry)
    } else {
        entries.push(entry)
    }
}

/// The entries after the one under `path`, if any, was pruned.
pub open spec fn pruned(entries: Seq<EntryView>, path: Seq<char>) -> Seq<EntryView> {
    if has_path(entries, path) {
        entries.remove(path_index(entries, path))
    } else {
        entries
    }
}

/// The hashes that the entries refer to.
pub open spec fn references(entries: Seq<EntryView>) -> Set<Seq<u8>> {
    Set::new(
        |hash: Seq<u8>|
            exists|i: int| 0 <= i < entries.len() && (#[trigger] entries[i]).content_ref == hash,
    )
}

/// The persisted sync state.
#[derive(Clone, Copy, Debug, PartialEq, Eq)]
pub struct SyncState {
    /// The revision the cache was last brought level with, if any.
    pub last_synced_revision: Option<Revision>,
    pub mode: OperatingMode,
    /// Whether local content has diverged from `last_synced_revision`.
    pub dirty: bool,
}

/// A snapshot that was written but not committed.
pub struct Staged {
    pub entries: Vec<ContentEntry>,
    pub revision: Revision,
}

/// A staged snapshot as plain values.
pub struct StagedView {
    pub entries: Seq<EntryView>,
    pub revision: Revision,
}

impl View for Staged {
    type V = StagedView;

    open spec fn view(&self) -> StagedView {
        StagedView { entries: entry_views(self.entries@), revision: self.revision }
    }
}

/// The index database as plain values.
pub struct IndexView {
    /// The entries of the visible snapshot.
    pub entries: Seq<EntryView>,
    pub state: SyncState,
    /// The snapshot of a transaction that is under way.
    pub staged: Option<StagedView>,
}

impl IndexView {
    /// What a reader sees.
    pub open spec fn snapshot(self) -> (Seq<EntryView>, SyncState) {
        (self.entries, self.state)
    }

    /// The database once `entries` were staged for `revision`.
    pub open spec fn with_staged(self, entries: Seq<EntryView>, revision: Revision) -> IndexView {
        IndexView { staged: Some(StagedView { entries, revision }), ..self }
    }

    /// The database once the staged snapshot, if any, was committed: its
    /// entries are the visible ones and its revision the last synced one.
    pub open spec fn committed(self) -> IndexView {
        match self.staged {
            Some(staged) => IndexView {
                entries: staged.entries,
                state: SyncState { last_synced_revision: Some(staged.revision), ..self.state },
                staged: None,
            },
            None => self,
        }
    }

    /// The database once the staged snapshot was dropped.
    pub open spec fn rolled_back(self) -> IndexView {
        IndexView { staged: None, ..self }
    }

    /// The database once `entries` replaced the snapshot in one transaction.
    pub open spec fn applied(self, entries: Seq<EntryView>, revision: Revision) -> IndexView {
        self.with_staged(entries, revision).committed()
    }

    /// The database with the dirty flag set to `dirty`.
    pub open spec fn with_dirty(self, dirty: bool) -> IndexView {
        IndexView { state: SyncState { dirty, ..self.state }, ..self }
    }

    /// The database after a local write of `entry`.
    pub open spec fn with_entry(self, entry: EntryView) -> IndexView {
        IndexView { entries: upserted(self.entries, entry), ..self }.with_dirty(true)
    }

    /// The database after the entry under `path` was pruned.
    pub open spec fn without_path(self, path: Seq<char>) -> IndexView {
        if has_path(self.entries, path) {
            IndexView { entries: pruned(self.entries, path), ..self }.with_dirty(true)
        } else {
            self
        }
    }

    /// The hashes that the visible and the staged snapshot refer to.
    pub open spec fn referenced(self) -> Set<Seq<u8>> {
        match self.staged {
            Some(staged) => references(self.entries).union(references(staged.entries)),
            None => references(self.entries),
        }
    }
}

/// A transaction that is abandoned at any point before its commit leaves
/// the visible snapshot exactly as it was, and so does a transaction that
/// is rolled back.
pub proof fn lemma_uncommitted_snapshot_is_invisible(
    index: IndexView,
    entries: Seq<EntryView>,
    revision: Revision,
)
    ensures
        index.with_staged(entries, revision).snapshot() == index.snapshot(),
        index.with_staged(entries, revision).rolled_back().snapshot() == index.snapshot(),
        index.staged is None ==> index.with_staged(entries, revision).rolled_back() == index,
{
}

/// A committed transaction shows the new entries together with the new
/// revision, and touches neither the mode nor the dirty flag.
pub proof fn lemma_commit_advances_together(
    index: IndexView,
    entries: Seq<EntryView>,
    revision: Revision,
)
    ensures
        index.applied(entries, revision).entries == entries,
        index.applied(entries, revision).state.last_synced_revision == Some(revision),
        index.applied(entries, revision).state.mode == index.state.mode,
        index.applied(entries, revision).state.dirty == index.state.dirty,
        index.applied(entries, revision).staged is None,
{
}

/// Whether no logical path occurs twice among `entries`.
pub fn has_distinct_paths(entries: &Vec<ContentEntry>) -> (distinct: bool)
    ensures
        distinct == distinct_paths(entry_views(entries@)),
{
    let ghost views = entry_views(entries@);
    let mut j: usize = 0;
    while j < entries.len()
        invariant
            j <= entries.len(),
            views == entry_views(entries@),
            forall|a: int, b: int|
                0 <= a < b < j ==> (#[trigger] views[a]).logical_path != (
                #[trigger] views[b]).logical_path,
        decreases entries.len() - j,
    {
        let mut i: usize = 0;
        while i < j
            invariant
                i <= j < entries.len(),
                views == entry_views(entries@),
                forall|a: int| 0 <= a < i ==> (#[trigger] views[a]).logical_path != views[j as int].logical_path,
            decreases j - i,
        {
            if entries[i].logical_path == entries[j].logical_path {
                assert(views[i as int].logical_path == views[j as int].logical_path);
                return false;
            }
            i = i + 1;
        }
        j = j + 1;
    }
    true
}

/// The position of the entry under `path`, if there is one.
pub fn find_path(entries: &Vec<ContentEntry>, path: &String) -> (found: Option<usize>)
    ensures
        match found {
            Some(i) => i < entries.len() && entries@[i as int].logical_path@ == path@,
            None => !has_path(entry_views(entries@), path@),
        },
{
    let mut i: usize = 0;
    while i < entries.len()
        invariant
            i <= entries.len(),
            forall|k: int|
                0 <= k < i ==> (#[trigger] entry_views(entries@)[k]).logical_path != path@,
        decreases entries.len() - i,
    {
        if entries[i].logical_path == *path {
            return Some(i);
        }
        assert(entry_views(entries@)[i as int].logical_path == entries@[i as int].logical_path@);
        i = i + 1;
    }
    None
}

/// With distinct paths, the entry found under a path is the one that the
/// specification picks.
pub proof fn lemma_path_index(entries: Seq<EntryView>, i: int)
    requires
        distinct_paths(entries),
        0 <= i < entries.len(),
    ensures
        has_path(entries, entries[i].logical_path),
        path_index(entries, entries[i].logical_path) == i,
{
    let path = entries[i].logical_path;
    assert(has_path(entries, path));
    let k = path_index(entries, path);
    assert(0 <= k < entries.len() && entries[k].logical_path == path);
    assert(k == i);
}

/// A local write and a pruning keep the paths distinct.
pub proof fn lemma_edits_keep_paths_distinct(entries: Seq<EntryView>, entry: EntryView)
    requires
        distinct_paths(entries),
    ensures
        distinct_paths(upserted(entries, entry)),
        distinct_paths(pruned(entries, entry.logical_path)),
{
    let path = entry.logical_path;
    if has_path(entries, path) {
        let at = path_index(entries, path);
        let changed = entries.update(at, entry);
        assert forall|i: int, j: int| 0 <= i < j < changed.len() implies (
        #[trigger] changed[i]).logical_path != (#[trigger] changed[j]).logical_path by {
            assert(changed[i].logical_path == entries[i].logical_path);
            assert(changed[j].logical_path == entries[j].logical_path);
        }
        let fewer = entries.remove(at);
        assert forall|i: int, j: int| 0 <= i < j < fewer.len() implies (
        #[trigger] fewer[i]).logical_path != (#[trigger] fewer[j]).logical_path by {
            let a = if i < at { i } else { i + 1 };
            let b = if j < at { j } else { j + 1 };
            assert(fewer[i] == entries[a] && fewer[j] == entries[b]);
        }
    } else {
        let longer = entries.push(entry);
        assert forall|i: int, j: int| 0 <= i < j < longer.len() implies (
        #[trigger] longer[i]).logical_path != (#[trigger] longer[j]).logical_path by {
            assert(longer[i] == entries[i]);
            if j < entries.len() {
                assert(longer[j] == entries[j]);
            }
        }
    }
}

/// A fresh vector with copies of `entries`.
pub fn copy_entries(entries: &Vec<ContentEntry>) -> (copy: Vec<ContentEntry>)
    ensures
        entry_views(copy@) == entry_views(entries@),
{
    let mut copy: Vec<ContentEntry> = Vec::new();
    let mut i: usize = 0;
    while i < entries.len()
        invariant
            i <= entries.len(),
            copy.len() == i,
            forall|k: int| 0 <= k < i ==> (#[trigger] copy@[k])@ == entries@[k]@,
        decreases entries.len() - i,
    {
        copy.push(entries[i].clone());
        i = i + 1;
    }
    assert(entry_views(copy@) =~= entry_views(entries@));
    copy
}

/// Appends the hash of each entry to `hashes`.
fn collect_references(entries: &Vec<ContentEntry>, hashes: &mut Vec<ContentHash>)
    ensures
        final(hashes)@.len() == old(hashes)@.len() + entries@.len(),
        forall|k: int| 0 <= k < old(hashes)@.len() ==> (#[trigger] final(hashes)@[k]) == old(hashes)@[k],
        forall|k: int|
            0 <= k < entries@.len() ==> (#[trigger] final(hashes)@[old(hashes)@.len() + k])@
                == entries@[k].content_ref@,
{
    let ghost start = hashes@;
    let mut i: usize = 0;
    while i < entries.len()
        invariant
            i <= entries.len(),
            hashes@.len() == start.len() + i,
            forall|k: int| 0 <= k < start.len() ==> (#[trigger] hashes@[k]) == start[k],
            forall|k: int|
                0 <= k < i ==> (#[trigger] hashes@[start.len() + k])@ == entries@[k].content_ref@,
        decreases entries.len() - i,
    {
        hashes.push(entries[i].content_ref.clone());
        i = i + 1;
    }
}

/// The index database.
pub struct IndexDatabase {
    entries: Vec<ContentEntry>,
    state: SyncState,
    staged: Option<Staged>,
}

impl View for IndexDatabase {
    type V = IndexView;

    closed spec fn view(&self) -> IndexView {
        IndexView {
            entries: entry_views(self.entries@),
            state: self.state,
            staged: match self.staged {
                Some(staged) => Some(staged@),
                None => None,
            },
        }
    }
}

impl IndexDatabase {
    /// The database's invariant: a snapshot, visible or staged, holds one
    /// entry per logical path.
    pub open spec fn wf(&self) -> bool {
        &&& distinct_paths(self@.entries)
        &&& self@.staged matches Some(staged) ==> distinct_paths(staged.entries)
    }

    /// An empty database for a cache in `mode`: nothing was synced, nothing
    /// is dirty.
    pub fn new(mode: OperatingMode) -> (index: IndexDatabase)
        ensures
            index.wf(),
            index@.entries == Seq::<EntryView>::empty(),
            index@.state == (SyncState { last_synced_revision: None, mode, dirty: false }),
            index@.staged is None,
    {
        let index = IndexDatabase {
            entries: Vec::new(),
            state: SyncState { last_synced_revision: None, mode, dirty: false },
            staged: None,
        };
        assert(index@.entries =~= Seq::<EntryView>::empty());
        index
    }

    /// The visible snapshot: its entries and the sync state.
    pub fn read_snapshot(&self) -> (snapshot: (&Vec<ContentEntry>, SyncState))
        ensures
            (entry_views(snapshot.0@), snapshot.1) == self@.snapshot(),
    {
        (&self.entries, self.state)
    }

    /// The sync state.
    pub fn state(&self) -> (state: SyncState)
        ensures
            state == self@.state,
    {
        self.state
    }

    /// The staged snapshot, if a transaction is under way.
    pub fn staged(&self) -> (staged: Option<&Staged>)
        ensures
            match staged {
                Some(snapshot) => self@.staged == Some(snapshot@),
                None => self@.staged is None,
            },
    {
        self.staged.as_ref()
    }

    /// The entry under `path` in the visible snapshot.
    pub fn entry(&self, path: &String) -> (found: Option<&ContentEntry>)
        requires
            self.wf(),
        ensures
            match found {
                Some(entry) => has_path(self@.entries, path@) && entry@ == self@.entries[path_index(
                    self@.entries,
                    path@,
                )],
                None => !has_path(self@.entries, path@),
            },
    {
        match find_path(&self.entries, path) {
            Some(i) => {
                proof {
                    lemma_path_index(self@.entries, i as int);
                }
                Some(&self.entries[i])
            },
            None => None,
        }
    }

    /// The hashes that the visible and the staged snapshot refer to.
    pub fn referenced_hashes(&self) -> (hashes: Vec<ContentHash>)
        ensures
            hash_set(hashes@) == self@.referenced(),
    {
        let mut hashes: Vec<ContentHash> = Vec::new();
        collect_references(&self.entries, &mut hashes);
        let ghost visible = self.entries@.len();
        let ghost first = hashes@;
        assert forall|k: int| 0 <= k < visible implies (#[trigger] first[k])@
            == self@.entries[k].content_ref by {
            assert(first[0 + k]@ == self.entries@[k].content_ref@);
        }
        match &self.staged {
            Some(staged) => {
                collect_references(&staged.entries, &mut hashes);
            },
            None => {},
        }
        proof {
            let wanted = self@.referenced();
            let entries = self@.entries;
            assert forall|hash: Seq<u8>| hash_set(hashes@).contains(hash) implies wanted.contains(
                hash,
            ) by {
                let k = choose|k: int| 0 <= k < hashes@.len() && (#[trigger] hashes@[k])@ == hash;
                if k < visible {
                    assert(hashes@[k] == first[k]);
                    assert(entries[k].content_ref == hash);
                } else {
                    let staged = self@.staged->0;
                    assert(hashes@[visible + (k - visible)]@ == hash);
                    assert(staged.entries[k - visible].content_ref == hash);
                }
            }
            assert forall|hash: Seq<u8>| wanted.contains(hash) implies hash_set(hashes@).contains(
                hash,
            ) by {
                if references(entries).contains(hash) {
                    let i = choose|i: int|
                        0 <= i < entries.len() && (#[trigger] entries[i]).content_ref == hash;
                    assert(hashes@[i] == first[i]);
                    assert(hashes@[i]@ == hash);
                } else {
                    let staged = self@.staged->0;
                    let i = choose|i: int|
                        0 <= i < staged.entries.len() && (#[trigger] staged.entries[i]).content_ref
                            == hash;
                    assert(hashes@[visible + i]@ == hash);
                }
            }
            assert(hash_set(hashes@) =~= wanted);
        }
        hashes
    }

    /// Records that local content diverged from the last synced revision.
    pub fn mark_dirty(&mut self)
        ensures
            final(self)@ == old(self)@.with_dirty(true),
    {
        self.state.dirty = true;
    }

    /// Records that local content is level with the last synced revision.
    pub fn clear_dirty(&mut self)
        ensures
            final(self)@ == old(self)@.with_dirty(false),
    {
        self.state.dirty = false;
    }

    /// Stages `entries` as the snapshot of `revision`. Entries with a path
    /// that occurs twice are refused. Readers see no change either way.
    pub fn stage(&mut self, entries: Vec<ContentEntry>, revision: Revision) -> (staged: Result<
        (),
        SyncError,
    >)
        requires
            old(self).wf(),
        ensures
            final(self).wf(),
            staged is Ok <==> distinct_paths(entry_views(entries@)),
            match staged {
                Ok(_) => final(self)@ == old(self)@.with_staged(entry_views(entries@), revision),
                Err(error) => error is IndexWriteFailed && final(self)@ == old(self)@,
            },
    {
        if has_distinct_paths(&entries) {
            self.staged = Some(Staged { entries, revision });
            Ok(())
        } else {
            Err(SyncError::IndexWriteFailed)
        }
    }

    /// Commits the staged snapshot and says whether there was one.
    pub fn commit(&mut self) -> (done: bool)
        requires
            old(self).wf(),
        ensures
            final(self).wf(),
            done == old(self)@.staged is Some,
            final(self)@ == old(self)@.committed(),
    {
        match self.staged.take() {
            Some(staged) => {
                self.entries = staged.entries;
                self.state.last_synced_revision = Some(staged.revision);
                true
            },
            None => false,
        }
    }

    /// Drops the staged snapshot.
    pub fn rollback(&mut self)
        requires
            old(self).wf(),
        ensures
            final(self).wf(),
            final(self)@ == old(self)@.rolled_back(),
    {
        self.staged = None;
    }

    /// Replaces the whole entry set by `entries` and advances the last
    /// synced revision to `revision`, in one transaction. Entries with a path
    /// that occurs twice cannot be committed: the database is then exactly
    /// what it was.
    pub fn apply_snapshot(&mut self, entries: Vec<ContentEntry>, revision: Revision) -> (applied:
        Result<(), SyncError>)
        requires
            old(self).wf(),
        ensures
            final(self).wf(),
            applied is Ok <==> distinct_paths(entry_views(entries@)),
            match applied {
                Ok(_) => final(self)@ == old(self)@.applied(entry_views(entries@), revision),
                Err(error) => error is IndexWriteFailed && final(self)@ == old(self)@,
            },
    {
        match self.stage(entries, revision) {
            Ok(_) => {
                self.commit();
                Ok(())
            },
            Err(error) => Err(error),
        }
    }

    /// A local write: `entry` takes the place of the entry under its path or
    /// is added, and the cache becomes dirty.
    pub fn put_entry(&mut self, entry: ContentEntry)
        requires
            old(self).wf(),
        ensures
            final(self).wf(),
            final(self)@ == old(self)@.with_entry(entry@),
    {
        proof {
            lemma_edits_keep_paths_distinct(self@.entries, entry@);
        }
        match find_path(&self.entries, &entry.logical_path) {
            Some(i) => {
                proof {
                    lemma_path_index(self@.entries, i as int);
                }
                self.entries[i] = entry;
            },
            None => {
                self.entries.push(entry);
            },
        }
        self.state.dirty = true;
        assert(final(self)@.entries =~= upserted(old(self)@.entries, entry@));
    }

    /// Prunes the entry under `path` and says whether there was one. Pruning
    /// an entry makes the cache dirty.
    pub fn remove_entry(&mut self, path: &String) -> (removed: bool)
        requires
            old(self).wf(),
        ensures
            final(self).wf(),
            removed == has_path(old(self)@.entries, path@),
            final(self)@ == old(self)@.without_path(path@),
    {
        match find_path(&self.entries, path) {
            Some(i) => {
                proof {
                    lemma_path_index(self@.entries, i as int);
                    lemma_edits_keep_paths_distinct(self@.entries, self@.entries[i as int]);
                }
                self.entries.remove(i);
                self.state.dirty = true;
                assert(final(self)@.entries =~= pruned(old(self)@.entries, path@));
                true
            },
            None => false,
        }
    }
}

} // verus!
