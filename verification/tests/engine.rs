use emphasize::digest::ContentHash;
use emphasize::engine::{Action, Event, Session, SyncEngine};
use emphasize::error::{ConflictInfo, Failure, Phase, SyncError};
use emphasize::index::{ContentEntry, IndexDatabase, Revision, SyncState};
use emphasize::mode::{OperatingMode, Operation};
use emphasize::store::ContentStore;
use emphasize::tree::TreeItem;

fn item(path: &str, bytes: &str) -> TreeItem {
    TreeItem { path: path.to_string(), bytes: bytes.as_bytes().to_vec() }
}

fn x_id() -> ContentHash {
    ContentHash {
        bytes: vec![
            0xc1, 0xb0, 0x73, 0x0e, 0x01, 0x33, 0x44, 0x7b, 0xad, 0xcf, 0xd4, 0x7f, 0xd1, 0x44,
            0xe2, 0x54, 0x80, 0x7b, 0x06, 0xe1,
        ],
    }
}

fn y_id() -> ContentHash {
    ContentHash {
        bytes: vec![
            0xe2, 0x5f, 0x18, 0x14, 0xe5, 0x15, 0x79, 0xd5, 0xf5, 0x5c, 0x0f, 0x1f, 0xe0, 0x13,
            0x5d, 0xdb, 0x28, 0xa4, 0x7f, 0x4a,
        ],
    }
}

fn failed(error: SyncError, phase: Phase) -> Action {
    Action::Failed(Failure { error, phase })
}

fn start(operation: Operation, force: bool) -> Event {
    Event::Start { operation, force }
}

fn synced(mode: OperatingMode) -> SyncEngine {
    let mut engine = SyncEngine::new(mode);
    assert_eq!(engine.step(start(Operation::Fetch, false)), Action::ResolveRemoteHead);
    assert_eq!(
        engine.step(Event::HeadResolved(Revision { id: 1 })),
        Action::FetchTree(Revision { id: 1 })
    );
    let tree = vec![item("a.txt", "x")];
    assert_eq!(engine.step(Event::TreeFetched { items: tree, fetched_at: 10 }), Action::Persist);
    assert_eq!(engine.step(Event::Persisted), Action::Finished(Revision { id: 1 }));
    engine
}

#[test]
fn new_engine_is_idle_and_empty() {
    let engine = SyncEngine::new(OperatingMode::ReadOnly);
    assert_eq!(engine.session(), Session::Idle);
    assert_eq!(engine.session().phase(), Phase::Idle);
    assert!(!engine.session().is_in_flight());
    let (entries, state) = engine.read_snapshot();
    assert!(entries.is_empty());
    assert_eq!(
        state,
        SyncState { last_synced_revision: None, mode: OperatingMode::ReadOnly, dirty: false }
    );
    assert_eq!(engine.store().len(), 0);
}

#[test]
fn fetch_walks_through_the_phases() {
    let mut engine = SyncEngine::new(OperatingMode::ReadOnly);
    assert_eq!(engine.step(start(Operation::Fetch, false)), Action::ResolveRemoteHead);
    assert_eq!(engine.session(), Session::Resolving { force: false });
    assert_eq!(engine.session().phase(), Phase::Resolving);
    let head = Revision { id: 3 };
    assert_eq!(engine.step(Event::HeadResolved(head)), Action::FetchTree(head));
    assert_eq!(
        engine.session(),
        Session::Transferring { operation: Operation::Fetch, revision: head }
    );
    let tree = vec![item("a.txt", "x"), item("b.txt", "y")];
    assert_eq!(engine.step(Event::TreeFetched { items: tree, fetched_at: 77 }), Action::Persist);
    assert_eq!(
        engine.session(),
        Session::Committing { operation: Operation::Fetch, revision: head }
    );
    assert!(engine.read_snapshot().0.is_empty());
    assert_eq!(engine.read_snapshot().1.last_synced_revision, None);
    assert_eq!(engine.step(Event::Persisted), Action::Finished(head));
    assert_eq!(engine.session(), Session::Done);
    let (entries, state) = engine.read_snapshot();
    assert_eq!(
        entries,
        &vec![
            ContentEntry {
                logical_path: "a.txt".to_string(),
                content_ref: x_id(),
                size: 1,
                modified_at: 77
            },
            ContentEntry {
                logical_path: "b.txt".to_string(),
                content_ref: y_id(),
                size: 1,
                modified_at: 77
            },
        ]
    );
    assert_eq!(state.last_synced_revision, Some(head));
    assert!(!state.dirty);
    assert_eq!(engine.store().get(&x_id()), Ok(&b"x".to_vec()));
    assert_eq!(engine.read_content(&"b.txt".to_string()), Ok(&b"y".to_vec()));
    assert_eq!(engine.read_content(&"c.txt".to_string()), Err(SyncError::NotFound));
}

#[test]
fn unforced_fetch_spares_local_changes() {
    let mut engine = synced(OperatingMode::ReadWrite);
    engine.write_local("a.txt".to_string(), b"y".to_vec(), 20).unwrap();
    let before = (engine.read_snapshot().0.clone(), engine.read_snapshot().1);
    assert!(before.1.dirty);
    assert_eq!(engine.step(start(Operation::Fetch, false)), Action::ResolveRemoteHead);
    assert_eq!(
        engine.step(Event::HeadResolved(Revision { id: 2 })),
        failed(SyncError::LocalChangesPending, Phase::Resolving)
    );
    assert_eq!(engine.session(), Session::Failed);
    assert_eq!((engine.read_snapshot().0.clone(), engine.read_snapshot().1), before);
}

#[test]
fn forced_fetch_discards_local_changes() {
    let mut engine = synced(OperatingMode::ReadWrite);
    engine.write_local("a.txt".to_string(), b"y".to_vec(), 20).unwrap();
    assert_eq!(engine.step(start(Operation::Fetch, true)), Action::ResolveRemoteHead);
    let head = Revision { id: 2 };
    assert_eq!(engine.step(Event::HeadResolved(head)), Action::FetchTree(head));
    let tree = vec![item("a.txt", "x")];
    assert_eq!(engine.step(Event::TreeFetched { items: tree, fetched_at: 30 }), Action::Persist);
    assert_eq!(engine.step(Event::Persisted), Action::Finished(head));
    let (entries, state) = engine.read_snapshot();
    assert_eq!(entries.len(), 1);
    assert_eq!(entries[0].content_ref, x_id());
    assert_eq!(entries[0].modified_at, 30);
    assert_eq!(state.last_synced_revision, Some(head));
    assert!(!state.dirty);
}

#[test]
fn unreachable_remote_fails_the_fetch_in_its_phase() {
    let mut engine = SyncEngine::new(OperatingMode::ReadWrite);
    engine.step(start(Operation::Fetch, false));
    assert_eq!(
        engine.step(Event::RemoteUnreachable),
        failed(SyncError::RemoteUnreachable, Phase::Resolving)
    );
    assert_eq!(engine.session().phase(), Phase::Failed);
    engine.step(start(Operation::Fetch, false));
    engine.step(Event::HeadResolved(Revision { id: 1 }));
    assert_eq!(
        engine.step(Event::RemoteUnreachable),
        failed(SyncError::RemoteUnreachable, Phase::Transferring)
    );
    assert!(engine.read_snapshot().0.is_empty());
    assert_eq!(engine.read_snapshot().1.last_synced_revision, None);
}

#[test]
fn tree_with_a_doubled_path_is_not_committed() {
    let mut engine = synced(OperatingMode::ReadWrite);
    engine.step(start(Operation::Fetch, false));
    engine.step(Event::HeadResolved(Revision { id: 2 }));
    let tree = vec![item("b.txt", "y"), item("b.txt", "x")];
    assert_eq!(
        engine.step(Event::TreeFetched { items: tree, fetched_at: 1 }),
        failed(SyncError::IndexWriteFailed, Phase::Committing)
    );
    let (entries, state) = engine.read_snapshot();
    assert_eq!(entries.len(), 1);
    assert_eq!(entries[0].logical_path, "a.txt");
    assert_eq!(state.last_synced_revision, Some(Revision { id: 1 }));
    assert!(engine.index().staged().is_none());
    assert!(engine.store().contains(&y_id()));
}

#[test]
fn fault_while_persisting_leaves_the_previous_snapshot() {
    let mut engine = synced(OperatingMode::ReadWrite);
    let before = (engine.read_snapshot().0.clone(), engine.read_snapshot().1);
    engine.step(start(Operation::Fetch, false));
    engine.step(Event::HeadResolved(Revision { id: 2 }));
    let tree = vec![item("b.txt", "y")];
    assert_eq!(engine.step(Event::TreeFetched { items: tree, fetched_at: 1 }), Action::Persist);
    assert!(engine.index().staged().is_some());
    assert_eq!(
        engine.step(Event::PersistFailed),
        failed(SyncError::IndexWriteFailed, Phase::Committing)
    );
    assert_eq!((engine.read_snapshot().0.clone(), engine.read_snapshot().1), before);
    assert!(engine.index().staged().is_none());
    assert_eq!(engine.session(), Session::Failed);
}

#[test]
fn read_only_update_fails_before_any_request() {
    let mut engine = synced(OperatingMode::ReadOnly);
    assert_eq!(
        engine.step(start(Operation::Update, false)),
        failed(SyncError::ReadOnlyViolation, Phase::Resolving)
    );
    assert_eq!(engine.session(), Session::Failed);
    assert_eq!(engine.read_snapshot().1.last_synced_revision, Some(Revision { id: 1 }));
}

#[test]
fn update_without_lineage_has_nothing_to_publish() {
    let mut engine = SyncEngine::new(OperatingMode::ReadWrite);
    assert_eq!(
        engine.step(start(Operation::Update, false)),
        failed(SyncError::NothingToPublish, Phase::Resolving)
    );
}

#[test]
fn update_pushes_the_snapshot_and_commits_the_new_revision() {
    let mut engine = synced(OperatingMode::ReadWrite);
    engine.write_local("b.txt".to_string(), b"y".to_vec(), 20).unwrap();
    assert_eq!(
        engine.step(start(Operation::Update, false)),
        Action::PushTree {
            base: Revision { id: 1 },
            payload: vec![item("a.txt", "x"), item("b.txt", "y")]
        }
    );
    assert_eq!(
        engine.session(),
        Session::Transferring { operation: Operation::Update, revision: Revision { id: 1 } }
    );
    assert_eq!(engine.step(Event::PushAccepted(Revision { id: 2 })), Action::Persist);
    assert!(engine.read_snapshot().1.dirty);
    assert_eq!(engine.step(Event::Persisted), Action::Finished(Revision { id: 2 }));
    let (entries, state) = engine.read_snapshot();
    assert_eq!(entries.len(), 2);
    assert_eq!(state.last_synced_revision, Some(Revision { id: 2 }));
    assert!(!state.dirty);
}

#[test]
fn conflict_is_surfaced_and_changes_nothing() {
    let mut engine = synced(OperatingMode::ReadWrite);
    engine.write_local("a.txt".to_string(), b"y".to_vec(), 20).unwrap();
    let before = (engine.read_snapshot().0.clone(), engine.read_snapshot().1);
    engine.step(start(Operation::Update, false));
    let conflict = ConflictInfo { paths: vec!["a.txt".to_string()] };
    assert_eq!(
        engine.step(Event::PushRejected(conflict)),
        failed(
            SyncError::UpdateConflict(ConflictInfo { paths: vec!["a.txt".to_string()] }),
            Phase::Transferring
        )
    );
    assert_eq!((engine.read_snapshot().0.clone(), engine.read_snapshot().1), before);
    assert_eq!(engine.session(), Session::Failed);
}

#[test]
fn unreachable_remote_fails_the_push() {
    let mut engine = synced(OperatingMode::ReadWrite);
    engine.step(start(Operation::Update, false));
    assert_eq!(
        engine.step(Event::RemoteUnreachable),
        failed(SyncError::RemoteUnreachable, Phase::Transferring)
    );
    assert_eq!(engine.read_snapshot().1.last_synced_revision, Some(Revision { id: 1 }));
}

#[test]
fn events_out_of_place_are_ignored() {
    let mut engine = SyncEngine::new(OperatingMode::ReadWrite);
    assert_eq!(engine.step(Event::HeadResolved(Revision { id: 1 })), Action::Ignored);
    assert_eq!(engine.step(Event::Persisted), Action::Ignored);
    assert_eq!(engine.step(Event::PersistFailed), Action::Ignored);
    assert_eq!(engine.step(Event::RemoteUnreachable), Action::Ignored);
    assert_eq!(engine.step(Event::PushAccepted(Revision { id: 1 })), Action::Ignored);
    assert_eq!(engine.step(Event::PushRejected(ConflictInfo { paths: Vec::new() })), Action::Ignored);
    assert_eq!(
        engine.step(Event::TreeFetched { items: vec![item("a", "x")], fetched_at: 0 }),
        Action::Ignored
    );
    assert_eq!(engine.session(), Session::Idle);
    assert_eq!(engine.store().len(), 0);
    engine.step(start(Operation::Fetch, false));
    assert_eq!(engine.step(start(Operation::Update, false)), Action::Ignored);
    assert_eq!(engine.step(Event::PushAccepted(Revision { id: 1 })), Action::Ignored);
    assert_eq!(engine.session(), Session::Resolving { force: false });
}

#[test]
fn local_write_stores_the_blob_and_marks_dirty() {
    let mut engine = synced(OperatingMode::ReadWrite);
    assert_eq!(engine.write_local("a.txt".to_string(), b"y".to_vec(), 20), Ok(y_id()));
    let (entries, state) = engine.read_snapshot();
    assert_eq!(
        entries,
        &vec![ContentEntry {
            logical_path: "a.txt".to_string(),
            content_ref: y_id(),
            size: 1,
            modified_at: 20
        }]
    );
    assert!(state.dirty);
    assert_eq!(state.last_synced_revision, Some(Revision { id: 1 }));
    assert_eq!(engine.read_content(&"a.txt".to_string()), Ok(&b"y".to_vec()));
    assert_eq!(engine.store().len(), 2);
}

#[test]
fn local_write_is_refused_while_an_operation_runs() {
    let mut engine = synced(OperatingMode::ReadWrite);
    engine.step(start(Operation::Fetch, false));
    assert_eq!(
        engine.write_local("a.txt".to_string(), b"y".to_vec(), 20),
        Err(SyncError::Busy)
    );
    assert!(!engine.read_snapshot().1.dirty);
    assert_eq!(engine.store().len(), 1);
}

#[test]
fn garbage_collection_keeps_every_referenced_blob() {
    let mut engine = synced(OperatingMode::ReadWrite);
    engine.write_local("a.txt".to_string(), b"y".to_vec(), 20).unwrap();
    engine.write_local("b.txt".to_string(), b"z".to_vec(), 21).unwrap();
    assert_eq!(engine.store().len(), 3);
    assert_eq!(engine.collect_garbage(), 1);
    assert_eq!(engine.store().len(), 2);
    assert!(!engine.store().contains(&x_id()));
    let entries = engine.read_snapshot().0.clone();
    for entry in entries.iter() {
        assert!(engine.store().contains(&entry.content_ref));
    }
    assert_eq!(engine.read_content(&"a.txt".to_string()), Ok(&b"y".to_vec()));
    assert_eq!(engine.read_content(&"b.txt".to_string()), Ok(&b"z".to_vec()));
    assert_eq!(engine.collect_garbage(), 0);
}

#[test]
fn garbage_collection_spares_a_staged_snapshot() {
    let mut engine = synced(OperatingMode::ReadWrite);
    engine.step(start(Operation::Fetch, false));
    engine.step(Event::HeadResolved(Revision { id: 2 }));
    engine.step(Event::TreeFetched { items: vec![item("b.txt", "y")], fetched_at: 1 });
    assert_eq!(engine.collect_garbage(), 0);
    assert!(engine.store().contains(&x_id()));
    assert!(engine.store().contains(&y_id()));
    assert_eq!(engine.step(Event::Persisted), Action::Finished(Revision { id: 2 }));
    assert_eq!(engine.collect_garbage(), 1);
    assert!(!engine.store().contains(&x_id()));
    assert_eq!(engine.read_content(&"b.txt".to_string()), Ok(&b"y".to_vec()));
}

#[test]
fn restore_checks_that_no_reference_dangles() {
    let mut store = ContentStore::new();
    let hash = store.put(b"x".to_vec()).unwrap();
    let mut index = IndexDatabase::new(OperatingMode::ReadWrite);
    let entry = ContentEntry {
        logical_path: "a.txt".to_string(),
        content_ref: hash,
        size: 1,
        modified_at: 0,
    };
    index.apply_snapshot(vec![entry.clone()], Revision { id: 4 }).unwrap();
    index.stage(Vec::new(), Revision { id: 5 }).unwrap();
    let engine = SyncEngine::restore(store, index).unwrap();
    assert_eq!(engine.session(), Session::Idle);
    assert!(engine.index().staged().is_none());
    assert_eq!(engine.read_snapshot().0, &vec![entry.clone()]);
    assert_eq!(engine.read_snapshot().1.last_synced_revision, Some(Revision { id: 4 }));

    let mut dangling = IndexDatabase::new(OperatingMode::ReadWrite);
    dangling.apply_snapshot(vec![entry], Revision { id: 4 }).unwrap();
    assert!(matches!(
        SyncEngine::restore(ContentStore::new(), dangling),
        Err(SyncError::NotFound)
    ));
}

#[test]
fn abort_gives_the_operation_up() {
    let mut engine = synced(OperatingMode::ReadWrite);
    assert!(!engine.abort());
    assert_eq!(engine.session(), Session::Done);
    let before = (engine.read_snapshot().0.clone(), engine.read_snapshot().1);
    engine.step(start(Operation::Fetch, false));
    engine.step(Event::HeadResolved(Revision { id: 2 }));
    engine.step(Event::TreeFetched { items: vec![item("b.txt", "y")], fetched_at: 1 });
    assert!(engine.index().staged().is_some());
    assert!(engine.abort());
    assert_eq!(engine.session(), Session::Failed);
    assert!(engine.index().staged().is_none());
    assert_eq!((engine.read_snapshot().0.clone(), engine.read_snapshot().1), before);
    assert!(engine.store().contains(&y_id()));
    assert_eq!(engine.step(Event::Persisted), Action::Ignored);
    assert_eq!(engine.step(start(Operation::Fetch, false)), Action::ResolveRemoteHead);
}
