//! The sync engine: the state machine that reconciles the remote, the
//! content store and the index database.
//!
//! The engine never talks to the remote or to the disk itself. It is driven
//! by events and answers each with the next thing to do: the caller asks
//! the remote or writes the staged snapshot durably, and reports back. The
//! visible snapshot changes in one place only, when the caller has reported
//! that the staged snapshot is durable.

use vstd::prelude::*;
use crate::digest::{blob_digest, copy_bytes, ContentHash};
use crate::error::{ConflictInfo, Failure, Phase, SyncError};
use crate::index::{
    copy_entries, distinct_paths, entry_views, has_path, path_index, references, upserted,
    ContentEntry, EntryView, IndexDatabase, IndexView, Revision, SyncState,
};
use crate::mode::{allowed, OperatingMode, Operation};
use crate::store::{hash_set, lookup, stored, ContentStore};
use crate::tree::{tree_view, unique_paths, TreeItem, TreeItemView};

verus! {

/// Where an invocation stands, with what it has learnt so far.
#[derive(Clone, Copy, Debug, PartialEq, Eq)]
pub enum Session {
    /// No operation has run yet.
    Idle,
    /// A fetch waits for the remote head.
    Resolving { force: bool },
    /// A fetch waits for the tree of `revision`, or an update for the
    /// remote's answer to a push based on `revision`.
    Transferring { operation: Operation, revision: Revision },
    /// The snapshot of `revision` is staged and waits to become durable.
    Committing { operation: Operation, revision: Revision },
    /// The last operation succeeded.
    Done,
    /// The last operation failed.
    Failed,
}

impl Session {
    /// Whether an operation is under way, holding the cache's writer lock.
    pub open spec fn in_flight(self) -> bool {
        self is Resolving || self is Transferring || self is Committing
    }

    /// The phase that the session is in.
    pub open spec fn phase_of(self) -> Phase {
        match self {
            Session::Idle => Phase::Idle,
            Session::Resolving { .. } => Phase::Resolving,
            Session::Transferring { .. } => Phase::Transferring,
            Session::Committing { .. } => Phase::Committing,
            Session::Done => Phase::Done,
            Session::Failed => Phase::Failed,
        }
    }

    /// Whether an operation is under way.
    pub fn is_in_flight(&self) -> (busy: bool)
        ensures
            busy == self.in_flight(),
    {
        match self {
            Session::Resolving { .. } => true,
            Session::Transferring { .. } => true,
            Session::Committing { .. } => true,
            _ => false,
        }
    }

    /// The phase that the session is in.
    pub fn phase(&self) -> (phase: Phase)
        ensures
            phase == self.phase_of(),
    {
        match self {
            Session::Idle => Phase::Idle,
            Session::Resolving { .. } => Phase::Resolving,
            Session::Transferring { .. } => Phase::Transferring,
            Session::Committing { .. } => Phase::Committing,
            Session::Done => Phase::Done,
            Session::Failed => Phase::Failed,
        }
    }
}

/// What the caller reports to the engine.
#[derive(Debug, PartialEq, Eq)]
pub enum Event {
    /// The operator asked for an operation. `force` lets a fetch discard
    /// local changes.
    Start { operation: Operation, force: bool },
    /// The remote named its head.
    HeadResolved(Revision),
    /// The remote handed out the complete tree that was asked for.
    TreeFetched { items: Vec<TreeItem>, fetched_at: u64 },
    /// The remote accepted the push and named the new revision.
    PushAccepted(Revision),
    /// The remote refused the push because its head had moved.
    PushRejected(ConflictInfo),
    /// The remote could not be reached.
    RemoteUnreachable,
    /// The staged snapshot and its blobs are durable.
    Persisted,
    /// The staged snapshot could not be written.
    PersistFailed,
}

/// What the engine asks the caller to do next.
#[derive(Debug, PartialEq, Eq)]
pub enum Action {
    /// Ask the remote for its head and report it.
    ResolveRemoteHead,
    /// Ask the remote for the tree of the revision and report it.
    FetchTree(Revision),
    /// Push `payload` on top of `base` and report the remote's answer.
    PushTree { base: Revision, payload: Vec<TreeItem> },
    /// Write the staged snapshot and its blobs durably and report the
    /// outcome.
    Persist,
    /// The operation succeeded: the cache is level with the revision.
    Finished(Revision),
    /// The operation failed.
    Failed(Failure),
    /// The event does not belong to the current phase. Nothing changed.
    Ignored,
}

/// The engine as plain values.
pub struct EngineView {
    pub store: Map<Seq<u8>, Seq<u8>>,
    pub index: IndexView,
    pub session: Session,
}

impl EngineView {
    /// No entry, visible or staged, refers to a blob that the store lacks,
    /// and a snapshot is staged exactly while the session is committing it.
    pub open spec fn consistent(self) -> bool {
        &&& self.index.referenced().subset_of(self.store.dom())
        &&& match self.session {
            Session::Committing { operation, revision } => self.index.staged matches Some(staged)
                && staged.revision == revision,
            _ => self.index.staged is None,
        }
    }
}

/// The entries that a fetched tree becomes: each path with the digest and
/// the size of its blob, stamped with the time of the fetch.
pub open spec fn entries_of(tree: Seq<TreeItemView>, fetched_at: u64) -> Seq<EntryView> {
    Seq::new(
        tree.len(),
        |i: int|
            EntryView {
                logical_path: tree[i].path,
                content_ref: blob_digest(tree[i].bytes),
                size: tree[i].bytes.len() as u64,
                modified_at: fetched_at,
            },
    )
}

/// The store after every blob of the tree was written to it, in order.
pub open spec fn store_with(store: Map<Seq<u8>, Seq<u8>>, tree: Seq<TreeItemView>) -> Map<
    Seq<u8>,
    Seq<u8>,
>
    decreases tree.len(),
{
    if tree.len() == 0 {
        store
    } else {
        stored(store_with(store, tree.drop_last()), tree.last().bytes)
    }
}

/// The tree that the entries publish: each path with the bytes that the
/// store holds under its hash.
pub open spec fn payload_of(entries: Seq<EntryView>, store: Map<Seq<u8>, Seq<u8>>) -> Seq<
    TreeItemView,
> {
    Seq::new(
        entries.len(),
        |i: int| TreeItemView { path: entries[i].logical_path, bytes: store[entries[i].content_ref] },
    )
}

/// The operation ends in failure: nothing but the session changes.
pub open spec fn refuses(
    pre: EngineView,
    post: EngineView,
    action: Action,
    error: SyncError,
    phase: Phase,
) -> bool {
    &&& post == (EngineView { session: Session::Failed, ..pre })
    &&& action == Action::Failed(Failure { error, phase })
}

/// The event is out of place: nothing changes at all.
pub open spec fn ignores(pre: EngineView, post: EngineView, action: Action) -> bool {
    post == pre && action == Action::Ignored
}

/// An operation starts. A fetch goes on to resolve the remote head. An
/// update passes the mode gate first, then needs a revision to publish on
/// top of, and goes on to push the visible snapshot.
pub open spec fn starts(
    pre: EngineView,
    operation: Operation,
    force: bool,
    post: EngineView,
    action: Action,
) -> bool {
    match operation {
        Operation::Fetch => {
            &&& post == (EngineView { session: Session::Resolving { force }, ..pre })
            &&& action == Action::ResolveRemoteHead
        },
        Operation::Update => if !allowed(Operation::Update, pre.index.state.mode) {
            refuses(pre, post, action, SyncError::ReadOnlyViolation, Phase::Resolving)
        } else {
            match pre.index.state.last_synced_revision {
                None => refuses(pre, post, action, SyncError::NothingToPublish, Phase::Resolving),
                Some(synced) => {
                    &&& post == (EngineView {
                        session: Session::Transferring {
                            operation: Operation::Update,
                            revision: synced,
                        },
                        ..pre
                    })
                    &&& action matches Action::PushTree { base, payload }
                    &&& base == synced
                    &&& tree_view(payload@) == payload_of(pre.index.entries, pre.store)
                },
            }
        },
    }
}

/// The head is known. A dirty cache is fetched into only by force.
pub open spec fn resolves(
    pre: EngineView,
    force: bool,
    head: Revision,
    post: EngineView,
    action: Action,
) -> bool {
    if pre.index.state.dirty && !force {
        refuses(pre, post, action, SyncError::LocalChangesPending, Phase::Resolving)
    } else {
        &&& post == (EngineView {
            session: Session::Transferring { operation: Operation::Fetch, revision: head },
            ..pre
        })
        &&& action == Action::FetchTree(head)
    }
}

/// The tree has arrived. Its blobs are written to the store one by one. If
/// the store takes them all, the entries are staged, unless a path occurs
/// twice. If the store fails on a blob, those before it stay behind and the
/// index is untouched.
pub open spec fn stages_fetch(
    pre: EngineView,
    revision: Revision,
    tree: Seq<TreeItemView>,
    fetched_at: u64,
    post: EngineView,
    action: Action,
) -> bool {
    ||| {
        &&& post.store == store_with(pre.store, tree)
        &&& if distinct_paths(entries_of(tree, fetched_at)) {
            &&& post.index == pre.index.with_staged(entries_of(tree, fetched_at), revision)
            &&& post.session == (Session::Committing { operation: Operation::Fetch, revision })
            &&& action == Action::Persist
        } else {
            &&& post.index == pre.index
            &&& post.session == Session::Failed
            &&& action == Action::Failed(
                Failure { error: SyncError::IndexWriteFailed, phase: Phase::Committing },
            )
        }
    }
    ||| {
        &&& exists|k: int|
            0 <= k < tree.len() && post.store == store_with(pre.store, #[trigger] tree.take(k))
        &&& post.index == pre.index
        &&& post.session == Session::Failed
        &&& action == Action::Failed(
            Failure { error: SyncError::ContentStoreIOError, phase: Phase::Transferring },
        )
    }
}

/// The push was accepted: the visible entries are staged for the new
/// revision.
pub open spec fn stages_update(
    pre: EngineView,
    revision: Revision,
    post: EngineView,
    action: Action,
) -> bool {
    &&& post == (EngineView {
        index: pre.index.with_staged(pre.index.entries, revision),
        session: Session::Committing { operation: Operation::Update, revision },
        ..pre
    })
    &&& action == Action::Persist
}

/// The push was refused: the conflict is handed on, nothing is retried.
pub open spec fn rejects(
    pre: EngineView,
    conflict: Seq<Seq<char>>,
    post: EngineView,
    action: Action,
) -> bool {
    &&& post == (EngineView { session: Session::Failed, ..pre })
    &&& action matches Action::Failed(failure)
    &&& failure.phase == Phase::Transferring
    &&& failure.error matches SyncError::UpdateConflict(info)
    &&& info@ == conflict
}

/// The staged snapshot is durable: it becomes the visible one, the last
/// synced revision advances with it, and the cache is clean.
pub open spec fn commits(pre: EngineView, revision: Revision, post: EngineView, action: Action) -> bool {
    &&& post == (EngineView {
        index: pre.index.committed().with_dirty(false),
        session: Session::Done,
        ..pre
    })
    &&& action == Action::Finished(revision)
}

/// The staged snapshot could not be written: it is dropped.
pub open spec fn abandons(pre: EngineView, post: EngineView, action: Action) -> bool {
    &&& post == (EngineView { index: pre.index.rolled_back(), session: Session::Failed, ..pre })
    &&& action == Action::Failed(
        Failure { error: SyncError::IndexWriteFailed, phase: Phase::Committing },
    )
}

/// The transition relation of the engine: what `post` and `action` may be
/// when `event` reaches the engine in state `pre`.
pub open spec fn step_spec(pre: EngineView, event: Event, post: EngineView, action: Action) -> bool {
    match event {
        Event::Start { operation, force } => if pre.session.in_flight() {
            ignores(pre, post, action)
        } else {
            starts(pre, operation, force, post, action)
        },
        Event::HeadResolved(head) => match pre.session {
            Session::Resolving { force } => resolves(pre, force, head, post, action),
            _ => ignores(pre, post, action),
        },
        Event::TreeFetched { items, fetched_at } => match pre.session {
            Session::Transferring { operation: Operation::Fetch, revision } => stages_fetch(
                pre,
                revision,
                tree_view(items@),
                fetched_at,
                post,
                action,
            ),
            _ => ignores(pre, post, action),
        },
        Event::PushAccepted(revision) => match pre.session {
            Session::Transferring { operation: Operation::Update, .. } => stages_update(
                pre,
                revision,
                post,
                action,
            ),
            _ => ignores(pre, post, action),
        },
        Event::PushRejected(conflict) => match pre.session {
            Session::Transferring { operation: Operation::Update, .. } => rejects(
                pre,
                conflict@,
                post,
                action,
            ),
            _ => ignores(pre, post, action),
        },
        Event::RemoteUnreachable => match pre.session {
            Session::Resolving { .. } => refuses(
                pre,
                post,
                action,
                SyncError::RemoteUnreachable,
                Phase::Resolving,
            ),
            Session::Transferring { .. } => refuses(
                pre,
                post,
                action,
                SyncError::RemoteUnreachable,
                Phase::Transferring,
            ),
            _ => ignores(pre, post, action),
        },
        Event::Persisted => match pre.session {
            Session::Committing { revision, .. } => commits(pre, revision, post, action),
            _ => ignores(pre, post, action),
        },
        Event::PersistFailed => match pre.session {
            Session::Committing { .. } => abandons(pre, post, action),
            _ => ignores(pre, post, action),
        },
    }
}

/// A fetch that is not forced spares a dirty cache: once the remote has
/// named its head the fetch fails with `LocalChangesPending`, and store,
/// entries and sync state are what they were.
pub proof fn lemma_unforced_fetch_spares_local_changes(
    pre: EngineView,
    head: Revision,
    started: EngineView,
    first: Action,
    post: EngineView,
    second: Action,
)
    requires
        !pre.session.in_flight(),
        pre.index.state.dirty,
        step_spec(pre, Event::Start { operation: Operation::Fetch, force: false }, started, first),
        step_spec(started, Event::HeadResolved(head), post, second),
    ensures
        first == Action::ResolveRemoteHead,
        second == Action::Failed(
            Failure { error: SyncError::LocalChangesPending, phase: Phase::Resolving },
        ),
        post.index == pre.index,
        post.store == pre.store,
        post.session == Session::Failed,
{
}

/// A read-only cache never publishes: an update fails with
/// `ReadOnlyViolation` at its start, before any request to the remote is
/// made, and changes neither store nor index.
pub proof fn lemma_read_only_never_publishes(
    pre: EngineView,
    force: bool,
    post: EngineView,
    action: Action,
)
    requires
        !pre.session.in_flight(),
        pre.index.state.mode == OperatingMode::ReadOnly,
        step_spec(pre, Event::Start { operation: Operation::Update, force }, post, action),
    ensures
        action == Action::Failed(
            Failure { error: SyncError::ReadOnlyViolation, phase: Phase::Resolving },
        ),
        post.index == pre.index,
        post.store == pre.store,
        post.session == Session::Failed,
{
}

/// A refused push is handed on as `UpdateConflict` with the very paths that
/// the remote listed, is not retried, and changes neither store nor index.
pub proof fn lemma_conflict_is_surfaced(
    pre: EngineView,
    conflict: ConflictInfo,
    post: EngineView,
    action: Action,
)
    requires
        pre.session matches Session::Transferring { operation: Operation::Update, .. },
        step_spec(pre, Event::PushRejected(conflict), post, action),
    ensures
        ({
            &&& action matches Action::Failed(failure)
            &&& failure.phase == Phase::Transferring
            &&& failure.error matches SyncError::UpdateConflict(info)
            &&& info@ == conflict@
        }),
        post.index == pre.index,
        post.store == pre.store,
        post.session == Session::Failed,
{
}

/// The visible snapshot changes in one transition only: when a staged
/// snapshot is reported durable. Whatever else happens, and whenever an
/// operation fails, readers see the entries and the sync state they saw
/// before. No transition changes the operating mode.
pub proof fn lemma_snapshot_changes_only_on_commit(
    pre: EngineView,
    event: Event,
    post: EngineView,
    action: Action,
)
    requires
        step_spec(pre, event, post, action),
    ensures
        (event is Persisted && pre.session is Committing) || post.index.snapshot()
            == pre.index.snapshot(),
        action is Failed ==> post.index.snapshot() == pre.index.snapshot(),
        action is Ignored ==> post == pre,
        post.index.state.mode == pre.index.state.mode,
{
}

/// A commit shows the staged entries, advances the last synced revision to
/// the staged revision and clears the dirty flag, all at once.
pub proof fn lemma_commit_is_whole(pre: EngineView, post: EngineView, action: Action)
    requires
        pre.consistent(),
        pre.session is Committing,
        step_spec(pre, Event::Persisted, post, action),
    ensures
        pre.index.staged matches Some(staged) && post.index.entries == staged.entries
            && post.index.state.last_synced_revision == Some(staged.revision) && action
            == Action::Finished(staged.revision),
        !post.index.state.dirty,
        post.index.state.mode == pre.index.state.mode,
        post.store == pre.store,
{
}

/// Collecting garbage removes no blob that a snapshot refers to: in a
/// consistent engine every entry still finds its blob, with the same bytes.
pub proof fn lemma_gc_keeps_referenced_blobs(pre: EngineView, i: int)
    requires
        pre.consistent(),
        0 <= i < pre.index.entries.len(),
    ensures
        lookup(pre.store.restrict(pre.index.referenced()), pre.index.entries[i].content_ref)
            == Some(pre.store[pre.index.entries[i].content_ref]),
{
    let hash = pre.index.entries[i].content_ref;
    assert(references(pre.index.entries).contains(hash));
    assert(pre.index.referenced().contains(hash));
}

/// No two blobs of the tree that differ have the same digest.
pub open spec fn collision_free(tree: Seq<TreeItemView>) -> bool {
    forall|i: int, j: int|
        0 <= i < tree.len() && 0 <= j < tree.len() && blob_digest((#[trigger] tree[i]).bytes)
            == blob_digest((#[trigger] tree[j]).bytes) ==> tree[i].bytes == tree[j].bytes
}

proof fn lemma_store_with_holds(store: Map<Seq<u8>, Seq<u8>>, tree: Seq<TreeItemView>, i: int)
    requires
        collision_free(tree),
        0 <= i < tree.len(),
    ensures
        store_with(store, tree).dom().contains(blob_digest(tree[i].bytes)),
        store_with(store, tree)[blob_digest(tree[i].bytes)] == tree[i].bytes,
    decreases tree.len(),
{
    let front = tree.drop_last();
    let last = tree.len() - 1;
    if i < last {
        assert(collision_free(front)) by {
            assert forall|a: int, b: int|
                0 <= a < front.len() && 0 <= b < front.len() && blob_digest(
                    (#[trigger] front[a]).bytes,
                ) == blob_digest((#[trigger] front[b]).bytes) implies front[a].bytes
                == front[b].bytes by {
                assert(front[a] == tree[a] && front[b] == tree[b]);
            }
        }
        lemma_store_with_holds(store, front, i);
        assert(front[i] == tree[i]);
        if blob_digest(tree[i].bytes) == blob_digest(tree[last].bytes) {
            assert(tree[i].bytes == tree[last].bytes);
        }
    }
}

/// A clean cache mirrors the revision it is level with. After a fetch the
/// entries publish exactly the tree that was fetched, as long as no two
/// blobs of the tree collide in their digest.
pub proof fn lemma_fetched_snapshot_mirrors_the_tree(
    store: Map<Seq<u8>, Seq<u8>>,
    tree: Seq<TreeItemView>,
    fetched_at: u64,
)
    ensures
        collision_free(tree) ==> payload_of(entries_of(tree, fetched_at), store_with(store, tree))
            == tree,
{
    if collision_free(tree) {
        let published = payload_of(entries_of(tree, fetched_at), store_with(store, tree));
        assert forall|i: int| 0 <= i < tree.len() implies published[i] == tree[i] by {
            lemma_store_with_holds(store, tree, i);
        }
        assert(published =~= tree);
    }
}

/// The engine after a local write of `bytes` under `path`.
pub open spec fn local_write(pre: EngineView, path: Seq<char>, bytes: Seq<u8>, modified_at: u64) -> EngineView {
    EngineView {
        store: stored(pre.store, bytes),
        index: pre.index.with_entry(
            EntryView {
                logical_path: path,
                content_ref: blob_digest(bytes),
                size: bytes.len() as u64,
                modified_at,
            },
        ),
        ..pre
    }
}

/// Writing a tree to the store loses no blob's hash, and files every blob of
/// the tree under the hash that its entry refers to.
pub proof fn lemma_store_with_covers(
    store: Map<Seq<u8>, Seq<u8>>,
    tree: Seq<TreeItemView>,
    fetched_at: u64,
)
    ensures
        store.dom().subset_of(store_with(store, tree).dom()),
        references(entries_of(tree, fetched_at)).subset_of(store_with(store, tree).dom()),
    decreases tree.len(),
{
    if tree.len() > 0 {
        let front = tree.drop_last();
        lemma_store_with_covers(store, front, fetched_at);
        let entries = entries_of(tree, fetched_at);
        assert forall|hash: Seq<u8>| references(entries).contains(hash) implies store_with(
            store,
            tree,
        ).dom().contains(hash) by {
            let i = choose|i: int| 0 <= i < entries.len() && (#[trigger] entries[i]).content_ref == hash;
            if i < front.len() {
                assert(entries_of(front, fetched_at)[i].content_ref == hash);
                assert(references(entries_of(front, fetched_at)).contains(hash));
            }
        }
    } else {
        assert forall|hash: Seq<u8>| references(entries_of(tree, fetched_at)).contains(
            hash,
        ) implies store.dom().contains(hash) by {
            let entries = entries_of(tree, fetched_at);
            let i = choose|i: int| 0 <= i < entries.len() && (#[trigger] entries[i]).content_ref == hash;
        }
    }
}

/// A local write refers to nothing but what was referred to before and the
/// blob that was written.
pub proof fn lemma_upserted_references(entries: Seq<EntryView>, entry: EntryView)
    ensures
        references(upserted(entries, entry)).subset_of(
            references(entries).insert(entry.content_ref),
        ),
{
    let after = upserted(entries, entry);
    assert forall|hash: Seq<u8>| references(after).contains(hash) implies references(
        entries,
    ).insert(entry.content_ref).contains(hash) by {
        let i = choose|i: int| 0 <= i < after.len() && (#[trigger] after[i]).content_ref == hash;
        if hash != entry.content_ref {
            assert(entries[i].content_ref == hash);
        }
    }
}

/// The entries of a snapshot with one entry per path publish a tree with
/// one item per path.
pub proof fn lemma_payload_has_unique_paths(entries: Seq<EntryView>, store: Map<Seq<u8>, Seq<u8>>)
    requires
        distinct_paths(entries),
    ensures
        unique_paths(payload_of(entries, store)),
{
    let payload = payload_of(entries, store);
    assert forall|i: int, j: int| 0 <= i < j < payload.len() implies (#[trigger] payload[i]).path != (
    #[trigger] payload[j]).path by {
        assert(entries[i].logical_path != entries[j].logical_path);
    }
}

/// Writes the blobs of `items` to the store and builds their entries.
fn stage_blobs(store: &mut ContentStore, items: &Vec<TreeItem>, fetched_at: u64) -> (staged: Result<
    Vec<ContentEntry>,
    SyncError,
>)
    requires
        old(store).wf(),
    ensures
        final(store).wf(),
        match staged {
            Ok(entries) => entry_views(entries@) == entries_of(tree_view(items@), fetched_at)
                && final(store)@ == store_with(old(store)@, tree_view(items@)),
            Err(error) => error is ContentStoreIOError && exists|k: int|
                0 <= k < items@.len() && final(store)@ == store_with(
                    old(store)@,
                    #[trigger] tree_view(items@).take(k),
                ),
        },
{
    let ghost tree = tree_view(items@);
    let ghost start = store@;
    let mut entries: Vec<ContentEntry> = Vec::new();
    let mut i: usize = 0;
    while i < items.len()
        invariant
            i <= items.len(),
            store.wf(),
            tree == tree_view(items@),
            start == old(store)@,
            store@ == store_with(start, tree.take(i as int)),
            entries.len() == i,
            forall|k: int|
                0 <= k < i ==> (#[trigger] entries@[k])@ == entries_of(tree, fetched_at)[k],
        decreases items.len() - i,
    {
        let bytes = copy_bytes(&items[i].bytes);
        let size = bytes.len() as u64;
        match store.put(bytes) {
            Ok(hash) => {
                entries.push(
                    ContentEntry {
                        logical_path: items[i].path.clone(),
                        content_ref: hash,
                        size,
                        modified_at: fetched_at,
                    },
                );
            },
            Err(error) => {
                assert(store@ == store_with(start, tree_view(items@).take(i as int)));
                return Err(error);
            },
        }
        proof {
            assert(tree.take(i + 1).drop_last() =~= tree.take(i as int));
            assert(tree.take(i + 1).last() == tree[i as int]);
        }
        i = i + 1;
    }
    proof {
        assert(tree.take(i as int) =~= tree);
        assert(entry_views(entries@) =~= entries_of(tree, fetched_at));
    }
    Ok(entries)
}

/// The synchronization engine of one local cache.
pub struct SyncEngine {
    store: ContentStore,
    index: IndexDatabase,
    session: Session,
}

impl View for SyncEngine {
    type V = EngineView;

    closed spec fn view(&self) -> EngineView {
        EngineView { store: self.store@, index: self.index@, session: self.session }
    }
}

impl SyncEngine {
    /// The engine's invariant: its components are well formed and fit
    /// together.
    pub closed spec fn wf(&self) -> bool {
        &&& self.store.wf()
        &&& self.index.wf()
        &&& self@.consistent()
    }

    /// A well-formed engine is consistent, and its snapshots hold one entry
    /// per path.
    pub proof fn lemma_wf(&self)
        requires
            self.wf(),
        ensures
            self@.consistent(),
            distinct_paths(self@.index.entries),
            self@.index.staged matches Some(staged) ==> distinct_paths(staged.entries),
    {
    }

    /// The engine of a fresh cache in `mode`: no blob, no entry, nothing
    /// synced.
    pub fn new(mode: OperatingMode) -> (engine: SyncEngine)
        ensures
            engine.wf(),
            engine@.store == Map::<Seq<u8>, Seq<u8>>::empty(),
            engine@.index.entries == Seq::<EntryView>::empty(),
            engine@.index.state == (SyncState { last_synced_revision: None, mode, dirty: false }),
            engine@.index.staged is None,
            engine@.session == Session::Idle,
    {
        SyncEngine { store: ContentStore::new(), index: IndexDatabase::new(mode), session: Session::Idle }
    }

    /// The engine of a cache that was loaded from its store and its index.
    /// A snapshot that was left staged is dropped. An entry that refers to a
    /// blob that the store lacks means that the cache is corrupt: the engine
    /// is then not built.
    pub fn restore(store: ContentStore, index: IndexDatabase) -> (restored: Result<
        SyncEngine,
        SyncError,
    >)
        requires
            store.wf(),
            index.wf(),
        ensures
            restored is Ok <==> references(index@.entries).subset_of(store@.dom()),
            match restored {
                Ok(engine) => engine.wf() && engine@ == (EngineView {
                    store: store@,
                    index: index@.rolled_back(),
                    session: Session::Idle,
                }),
                Err(error) => error is NotFound,
            },
    {
        let ghost loaded = index@;
        let mut cleared = index;
        cleared.rollback();
        let hashes = cleared.referenced_hashes();
        assert(hash_set(hashes@) == references(loaded.entries));
        let mut i: usize = 0;
        while i < hashes.len()
            invariant
                i <= hashes.len(),
                store.wf(),
                loaded == index@,
                hash_set(hashes@) == references(loaded.entries),
                forall|k: int| 0 <= k < i ==> store@.dom().contains((#[trigger] hashes@[k])@),
            decreases hashes.len() - i,
        {
            if !store.contains(&hashes[i]) {
                assert(hash_set(hashes@).contains(hashes@[i as int]@));
                assert(references(loaded.entries).contains(hashes@[i as int]@));
                return Err(SyncError::NotFound);
            }
            i = i + 1;
        }
        assert forall|hash: Seq<u8>| references(loaded.entries).contains(hash) implies store@.dom().contains(
            hash,
        ) by {
            assert(hash_set(hashes@).contains(hash));
            let k = choose|k: int| 0 <= k < hashes@.len() && (#[trigger] hashes@[k])@ == hash;
        }
        Ok(SyncEngine { store, index: cleared, session: Session::Idle })
    }

    /// The content store.
    pub fn store(&self) -> (store: &ContentStore)
        requires
            self.wf(),
        ensures
            store.wf(),
            store@ == self@.store,
    {
        &self.store
    }

    /// The index database.
    pub fn index(&self) -> (index: &IndexDatabase)
        requires
            self.wf(),
        ensures
            index.wf(),
            index@ == self@.index,
    {
        &self.index
    }

    /// Where the current invocation stands.
    pub fn session(&self) -> (session: Session)
        ensures
            session == self@.session,
    {
        self.session
    }

    /// The visible snapshot: its entries and the sync state.
    pub fn read_snapshot(&self) -> (snapshot: (&Vec<ContentEntry>, SyncState))
        ensures
            (entry_views(snapshot.0@), snapshot.1) == self@.index.snapshot(),
    {
        self.index.read_snapshot()
    }

    /// The bytes of the visible entry under `path`. `NotFound` means that
    /// the snapshot has no such path.
    pub fn read_content(&self, path: &String) -> (content: Result<&Vec<u8>, SyncError>)
        requires
            self.wf(),
        ensures
            match content {
                Ok(bytes) => has_path(self@.index.entries, path@) && bytes@
                    == self@.store[self@.index.entries[path_index(
                    self@.index.entries,
                    path@,
                )].content_ref],
                Err(error) => error is NotFound && !has_path(self@.index.entries, path@),
            },
    {
        match self.index.entry(path) {
            Some(entry) => {
                proof {
                    let at = path_index(self@.index.entries, path@);
                    assert(references(self@.index.entries).contains(
                        self@.index.entries[at].content_ref,
                    ));
                }
                Ok(self.store.read(&entry.content_ref))
            },
            None => Err(SyncError::NotFound),
        }
    }

    fn halt(&mut self, error: SyncError, phase: Phase) -> (action: Action)
        ensures
            final(self).store == old(self).store,
            final(self).index == old(self).index,
            final(self).session == Session::Failed,
            action == Action::Failed(Failure { error, phase }),
    {
        self.session = Session::Failed;
        Action::Failed(Failure { error, phase })
    }

    /// The tree that publishes the visible snapshot.
    fn build_payload(&self) -> (payload: Vec<TreeItem>)
        requires
            self.wf(),
        ensures
            tree_view(payload@) == payload_of(self@.index.entries, self@.store),
    {
        let (entries, _) = self.index.read_snapshot();
        let ghost wanted = payload_of(self@.index.entries, self@.store);
        let mut payload: Vec<TreeItem> = Vec::new();
        let mut i: usize = 0;
        while i < entries.len()
            invariant
                i <= entries.len(),
                self.wf(),
                entry_views(entries@) == self@.index.entries,
                wanted == payload_of(self@.index.entries, self@.store),
                payload.len() == i,
                forall|k: int| 0 <= k < i ==> (#[trigger] payload@[k])@ == wanted[k],
            decreases entries.len() - i,
        {
            let entry = &entries[i];
            proof {
                assert(self@.index.entries[i as int] == entry@);
                assert(references(self@.index.entries).contains(entry@.content_ref));
            }
            let bytes = copy_bytes(self.store.read(&entry.content_ref));
            payload.push(TreeItem { path: entry.logical_path.clone(), bytes });
            i = i + 1;
        }
        assert(tree_view(payload@) =~= wanted);
        payload
    }

    fn start(&mut self, operation: Operation, force: bool) -> (action: Action)
        requires
            old(self).wf(),
            !old(self)@.session.in_flight(),
        ensures
            final(self).wf(),
            starts(old(self)@, operation, force, final(self)@, action),
    {
        match operation {
            Operation::Fetch => {
                self.session = Session::Resolving { force };
                Action::ResolveRemoteHead
            },
            Operation::Update => {
                let state = self.index.state();
                if !crate::mode::allow(Operation::Update, state.mode) {
                    return self.halt(SyncError::ReadOnlyViolation, Phase::Resolving);
                }
                match state.last_synced_revision {
                    None => self.halt(SyncError::NothingToPublish, Phase::Resolving),
                    Some(base) => {
                        let payload = self.build_payload();
                        self.session =
                        Session::Transferring { operation: Operation::Update, revision: base };
                        Action::PushTree { base, payload }
                    },
                }
            },
        }
    }

    fn stage_fetch(&mut self, revision: Revision, items: Vec<TreeItem>, fetched_at: u64) -> (action:
        Action)
        requires
            old(self).wf(),
            old(self)@.session == (Session::Transferring { operation: Operation::Fetch, revision }),
        ensures
            final(self).wf(),
            stages_fetch(old(self)@, revision, tree_view(items@), fetched_at, final(self)@, action),
    {
        let ghost tree = tree_view(items@);
        let ghost before = self@;
        match stage_blobs(&mut self.store, &items, fetched_at) {
            Ok(entries) => {
                proof {
                    lemma_store_with_covers(before.store, tree, fetched_at);
                }
                match self.index.stage(entries, revision) {
                    Ok(_) => {
                        self.session =
                        Session::Committing { operation: Operation::Fetch, revision };
                        Action::Persist
                    },
                    Err(error) => self.halt(error, Phase::Committing),
                }
            },
            Err(error) => {
                proof {
                    let k = choose|k: int|
                        0 <= k < tree.len() && self.store@ == store_with(
                            before.store,
                            #[trigger] tree.take(k),
                        );
                    lemma_store_with_covers(before.store, tree.take(k), fetched_at);
                }
                self.halt(error, Phase::Transferring)
            },
        }
    }

    /// Takes the next event and says what to do next. An event that does
    /// not belong to the current phase is ignored. The visible snapshot
    /// changes only on `Persisted`.
    pub fn step(&mut self, event: Event) -> (action: Action)
        requires
            old(self).wf(),
        ensures
            final(self).wf(),
            step_spec(old(self)@, event, final(self)@, action),
    {
        match event {
            Event::Start { operation, force } => {
                if self.session.is_in_flight() {
                    Action::Ignored
                } else {
                    self.start(operation, force)
                }
            },
            Event::HeadResolved(head) => match self.session {
                Session::Resolving { force } => {
                    if self.index.state().dirty && !force {
                        self.halt(SyncError::LocalChangesPending, Phase::Resolving)
                    } else {
                        self.session =
                        Session::Transferring { operation: Operation::Fetch, revision: head };
                        Action::FetchTree(head)
                    }
                },
                _ => Action::Ignored,
            },
            Event::TreeFetched { items, fetched_at } => match self.session {
                Session::Transferring { operation: Operation::Fetch, revision } => self.stage_fetch(
                    revision,
                    items,
                    fetched_at,
                ),
                _ => Action::Ignored,
            },
            Event::PushAccepted(revision) => match self.session {
                Session::Transferring { operation: Operation::Update, .. } => {
                    let entries = copy_entries(self.index.read_snapshot().0);
                    let staged = self.index.stage(entries, revision);
                    assert(staged is Ok);
                    self.session = Session::Committing { operation: Operation::Update, revision };
                    Action::Persist
                },
                _ => Action::Ignored,
            },
            Event::PushRejected(conflict) => match self.session {
                Session::Transferring { operation: Operation::Update, .. } => self.halt(
                    SyncError::UpdateConflict(conflict),
                    Phase::Transferring,
                ),
                _ => Action::Ignored,
            },
            Event::RemoteUnreachable => match self.session {
                Session::Resolving { .. } => self.halt(
                    SyncError::RemoteUnreachable,
                    Phase::Resolving,
                ),
                Session::Transferring { .. } => self.halt(
                    SyncError::RemoteUnreachable,
                    Phase::Transferring,
                ),
                _ => Action::Ignored,
            },
            Event::Persisted => match self.session {
                Session::Committing { revision, .. } => {
                    self.index.commit();
                    self.index.clear_dirty();
                    self.session = Session::Done;
                    Action::Finished(revision)
                },
                _ => Action::Ignored,
            },
            Event::PersistFailed => match self.session {
                Session::Committing { .. } => {
                    self.index.rollback();
                    self.halt(SyncError::IndexWriteFailed, Phase::Committing)
                },
                _ => Action::Ignored,
            },
        }
    }

    /// Gives an operation up, as on a timeout or an interrupt, and says
    /// whether one was under way. A staged snapshot is dropped. Readers see
    /// what they saw before, and the store keeps every blob.
    pub fn abort(&mut self) -> (aborted: bool)
        requires
            old(self).wf(),
        ensures
            final(self).wf(),
            aborted == old(self)@.session.in_flight(),
            final(self)@ == (if aborted {
                EngineView {
                    index: old(self)@.index.rolled_back(),
                    session: Session::Failed,
                    ..old(self)@
                }
            } else {
                old(self)@
            }),
            final(self)@.index.snapshot() == old(self)@.index.snapshot(),
    {
        if self.session.is_in_flight() {
            self.index.rollback();
            self.session = Session::Failed;
            true
        } else {
            false
        }
    }

    /// A local edit: writes `bytes` to the store, puts them under `path` in
    /// the visible snapshot and marks the cache dirty. While an operation is
    /// under way the edit is refused with `Busy`; when the store cannot take
    /// the blob, with `ContentStoreIOError`. A refused edit changes nothing.
    pub fn write_local(&mut self, path: String, bytes: Vec<u8>, modified_at: u64) -> (written:
        Result<ContentHash, SyncError>)
        requires
            old(self).wf(),
        ensures
            final(self).wf(),
            old(self)@.session.in_flight() ==> written matches Err(SyncError::Busy),
            match written {
                Ok(hash) => hash@ == blob_digest(bytes@) && final(self)@ == local_write(
                    old(self)@,
                    path@,
                    bytes@,
                    modified_at,
                ),
                Err(error) => final(self)@ == old(self)@ && (if old(self)@.session.in_flight() {
                    error is Busy
                } else {
                    error is ContentStoreIOError
                }),
            },
    {
        if self.session.is_in_flight() {
            return Err(SyncError::Busy);
        }
        let size = bytes.len() as u64;
        match self.store.put(bytes) {
            Ok(hash) => {
                let entry = ContentEntry {
                    logical_path: path,
                    content_ref: hash.clone(),
                    size,
                    modified_at,
                };
                proof {
                    lemma_upserted_references(self.index@.entries, entry@);
                }
                self.index.put_entry(entry);
                Ok(hash)
            },
            Err(error) => Err(error),
        }
    }

    /// Removes from the store every blob that neither the visible nor the
    /// staged snapshot refers to, and returns how many were removed. A blob
    /// that a snapshot refers to is never removed and keeps its bytes.
    pub fn collect_garbage(&mut self) -> (removed: usize)
        requires
            old(self).wf(),
        ensures
            final(self).wf(),
            final(self)@ == (EngineView {
                store: old(self)@.store.restrict(old(self)@.index.referenced()),
                ..old(self)@
            }),
            forall|hash: Seq<u8>| #[trigger]
                old(self)@.index.referenced().contains(hash) ==> lookup(final(self)@.store, hash)
                    == lookup(old(self)@.store, hash) && lookup(final(self)@.store, hash) is Some,
            removed == old(self)@.store.dom().len() - final(self)@.store.dom().len(),
    {
        let reachable = self.index.referenced_hashes();
        self.store.gc(&reachable)
    }
}

} // verus!
