//! Whole operations: the engine driven against a remote held in memory.
//!
//! Here the remote answers at once and a staged snapshot is durable as soon
//! as it is staged, so each operation runs the engine from its start to
//! `Done` or `Failed`.

use vstd::prelude::*;
use crate::engine::{
    entries_of, lemma_payload_has_unique_paths, payload_of, store_with, Action, EngineView, Event,
    Session, SyncEngine,
};
use crate::error::{Failure, Phase, SyncError};
use crate::index::Revision;
use crate::mode::{allowed, Operation};
use crate::remote::{MemoryRemote, PushError, RemoteView};
use crate::tree::diverged_paths;

verus! {

/// The operation is refused because another one is under way.
pub open spec fn busy(pre: EngineView, post: EngineView, outcome: Result<Revision, Failure>) -> bool {
    post == pre && outcome == Err::<Revision, Failure>(
        Failure { error: SyncError::Busy, phase: pre.session.phase_of() },
    )
}

/// The operation failed with `error` in `phase`, and only the session
/// changed.
pub open spec fn fails(
    pre: EngineView,
    post: EngineView,
    outcome: Result<Revision, Failure>,
    error: SyncError,
    phase: Phase,
) -> bool {
    post == (EngineView { session: Session::Failed, ..pre }) && outcome == Err::<Revision, Failure>(
        Failure { error, phase },
    )
}

/// What a fetch does to the engine. In order: it is refused while another
/// operation is under way; it needs the remote; it spares a dirty cache
/// unless forced; then it stores the blobs of the head's tree and replaces
/// the snapshot by the tree's entries, clean and level with the head. If the
/// store fails on a blob, the index stays as it was.
pub open spec fn fetch_spec(
    pre: EngineView,
    remote: RemoteView,
    force: bool,
    now: u64,
    post: EngineView,
    outcome: Result<Revision, Failure>,
) -> bool {
    let head = remote.head();
    let tree = remote.tree_at(head);
    if pre.session.in_flight() {
        busy(pre, post, outcome)
    } else if !remote.online {
        fails(pre, post, outcome, SyncError::RemoteUnreachable, Phase::Resolving)
    } else if pre.index.state.dirty && !force {
        fails(pre, post, outcome, SyncError::LocalChangesPending, Phase::Resolving)
    } else {
        ||| {
            &&& outcome == Ok::<Revision, Failure>(head)
            &&& post == (EngineView {
                store: store_with(pre.store, tree),
                index: pre.index.applied(entries_of(tree, now), head).with_dirty(false),
                session: Session::Done,
            })
        }
        ||| {
            &&& outcome == Err::<Revision, Failure>(
                Failure { error: SyncError::ContentStoreIOError, phase: Phase::Transferring },
            )
            &&& post.index == pre.index
            &&& post.session == Session::Failed
            &&& exists|k: int|
                0 <= k < tree.len() && post.store == store_with(pre.store, #[trigger] tree.take(k))
        }
    }
}

/// What an update does to the engine and to the remote. In order: it is
/// refused while another operation is under way; a read-only cache may not
/// publish; there must be a revision to publish on top of; the remote must
/// be reachable; that revision must still be the remote's head, or else the
/// update fails with the paths on which the head diverged from it. Only
/// then the visible snapshot is pushed and becomes the new head, and the
/// cache is clean and level with it. In every other case the remote, the
/// store and the index stay as they were.
pub open spec fn update_spec(
    pre: EngineView,
    remote: RemoteView,
    post: EngineView,
    remote_after: RemoteView,
    outcome: Result<Revision, Failure>,
) -> bool {
    if pre.session.in_flight() {
        busy(pre, post, outcome) && remote_after == remote
    } else if !allowed(Operation::Update, pre.index.state.mode) {
        fails(pre, post, outcome, SyncError::ReadOnlyViolation, Phase::Resolving) && remote_after
            == remote
    } else {
        match pre.index.state.last_synced_revision {
            None => fails(pre, post, outcome, SyncError::NothingToPublish, Phase::Resolving)
                && remote_after == remote,
            Some(base) => if !remote.online {
                fails(pre, post, outcome, SyncError::RemoteUnreachable, Phase::Transferring)
                    && remote_after == remote
            } else if base != remote.head() {
                &&& remote_after == remote
                &&& post == (EngineView { session: Session::Failed, ..pre })
                &&& outcome matches Err(failure)
                &&& failure.phase == Phase::Transferring
                &&& failure.error matches SyncError::UpdateConflict(info)
                &&& info@ == diverged_paths(remote.tree_at(base), remote.tree_at(remote.head()))
            } else {
                &&& remote_after == remote.pushed(payload_of(pre.index.entries, pre.store))
                &&& outcome == Ok::<Revision, Failure>(remote_after.head())
                &&& remote_after.head().id == base.id + 1
                &&& post == (EngineView {
                    index: pre.index.applied(pre.index.entries, remote_after.head()).with_dirty(
                        false,
                    ),
                    session: Session::Done,
                    ..pre
                })
            },
        }
    }
}

/// Reports a staged snapshot as durable and takes the engine's verdict.
fn conclude(engine: &mut SyncEngine, action: Action) -> (outcome: Result<Revision, Failure>)
    requires
        old(engine).wf(),
        action is Persist || action is Failed,
        action is Persist ==> old(engine)@.session is Committing,
    ensures
        final(engine).wf(),
        match action {
            Action::Failed(failure) => final(engine)@ == old(engine)@ && outcome == Err::<
                Revision,
                Failure,
            >(failure),
            _ => old(engine)@.session matches Session::Committing { revision, .. } && outcome == Ok::<
                Revision,
                Failure,
            >(revision) && final(engine)@ == (EngineView {
                index: old(engine)@.index.committed().with_dirty(false),
                session: Session::Done,
                ..old(engine)@
            }),
        },
{
    match action {
        Action::Failed(failure) => Err(failure),
        _ => {
            let phase = engine.session().phase();
            match engine.step(Event::Persisted) {
                Action::Finished(revision) => Ok(revision),
                _ => Err(Failure { error: SyncError::IndexWriteFailed, phase }),
            }
        },
    }
}

/// Pulls the remote head into the cache.
pub fn fetch(engine: &mut SyncEngine, remote: &MemoryRemote, force: bool, now: u64) -> (outcome:
    Result<Revision, Failure>)
    requires
        old(engine).wf(),
        remote.wf(),
    ensures
        final(engine).wf(),
        fetch_spec(old(engine)@, remote@, force, now, final(engine)@, outcome),
{
    let session = engine.session();
    if session.is_in_flight() {
        return Err(Failure { error: SyncError::Busy, phase: session.phase() });
    }
    proof {
        old(engine).lemma_wf();
    }
    engine.step(Event::Start { operation: Operation::Fetch, force });
    let resolved = match remote.resolve_remote_head() {
        Ok(head) => engine.step(Event::HeadResolved(head)),
        Err(_) => engine.step(Event::RemoteUnreachable),
    };
    let staged = match resolved {
        Action::FetchTree(revision) => match remote.fetch_tree(revision) {
            Ok(items) => engine.step(Event::TreeFetched { items, fetched_at: now }),
            Err(_) => engine.step(Event::RemoteUnreachable),
        },
        other => other,
    };
    proof {
        let tree = remote@.tree_at(remote@.head());
        assert(crate::index::distinct_paths(entries_of(tree, now))) by {
            let entries = entries_of(tree, now);
            assert forall|i: int, j: int| 0 <= i < j < entries.len() implies (
            #[trigger] entries[i]).logical_path != (#[trigger] entries[j]).logical_path by {
                assert(tree[i].path != tree[j].path);
            }
        }
    }
    conclude(engine, staged)
}

/// Publishes the visible snapshot as the new remote head.
pub fn update(engine: &mut SyncEngine, remote: &mut MemoryRemote) -> (outcome: Result<
    Revision,
    Failure,
>)
    requires
        old(engine).wf(),
        old(remote).wf(),
    ensures
        final(engine).wf(),
        final(remote).wf(),
        update_spec(old(engine)@, old(remote)@, final(engine)@, final(remote)@, outcome),
{
    let session = engine.session();
    if session.is_in_flight() {
        return Err(Failure { error: SyncError::Busy, phase: session.phase() });
    }
    proof {
        old(engine).lemma_wf();
        lemma_payload_has_unique_paths(old(engine)@.index.entries, old(engine)@.store);
    }
    let staged = match engine.step(Event::Start { operation: Operation::Update, force: false }) {
        Action::PushTree { base, payload } => match remote.push_tree(base, payload) {
            Ok(revision) => engine.step(Event::PushAccepted(revision)),
            Err(PushError::Conflict(conflict)) => engine.step(Event::PushRejected(conflict)),
            Err(PushError::Unreachable) => engine.step(Event::RemoteUnreachable),
        },
        other => other,
    };
    conclude(engine, staged)
}

} // verus!
