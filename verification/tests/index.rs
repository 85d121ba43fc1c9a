use emphasize::digest::ContentHash;
use emphasize::error::SyncError;
use emphasize::index::{
    copy_entries, find_path, has_distinct_paths, ContentEntry, IndexDatabase, Revision, SyncState,
};
use emphasize::mode::OperatingMode;
use emphasize::store::names_hash;

fn entry(path: &str, hash: u8) -> ContentEntry {
    ContentEntry {
        logical_path: path.to_string(),
        content_ref: ContentHash { bytes: vec![hash; 20] },
        size: 1,
        modified_at: 5,
    }
}

fn fresh(mode: OperatingMode) -> SyncState {
    SyncState { last_synced_revision: None, mode, dirty: false }
}

#[test]
fn new_index_is_empty_and_clean() {
    let index = IndexDatabase::new(OperatingMode::ReadOnly);
    let (entries, state) = index.read_snapshot();
    assert!(entries.is_empty());
    assert_eq!(state, fresh(OperatingMode::ReadOnly));
    assert_eq!(index.state(), fresh(OperatingMode::ReadOnly));
    assert!(index.staged().is_none());
}

#[test]
fn apply_snapshot_replaces_entries_and_advances_revision() {
    let mut index = IndexDatabase::new(OperatingMode::ReadWrite);
    assert_eq!(index.apply_snapshot(vec![entry("a.txt", 1)], Revision { id: 1 }), Ok(()));
    assert_eq!(
        index.apply_snapshot(vec![entry("b.txt", 2), entry("c.txt", 3)], Revision { id: 2 }),
        Ok(())
    );
    let (entries, state) = index.read_snapshot();
    assert_eq!(entries, &vec![entry("b.txt", 2), entry("c.txt", 3)]);
    assert_eq!(state.last_synced_revision, Some(Revision { id: 2 }));
    assert_eq!(state.mode, OperatingMode::ReadWrite);
    assert!(!state.dirty);
    assert!(index.staged().is_none());
}

#[test]
fn apply_snapshot_keeps_the_dirty_flag() {
    let mut index = IndexDatabase::new(OperatingMode::ReadWrite);
    index.mark_dirty();
    assert_eq!(index.apply_snapshot(vec![entry("a.txt", 1)], Revision { id: 4 }), Ok(()));
    assert!(index.state().dirty);
}

#[test]
fn failed_apply_leaves_the_snapshot_intact() {
    let mut index = IndexDatabase::new(OperatingMode::ReadWrite);
    index.apply_snapshot(vec![entry("a.txt", 1)], Revision { id: 1 }).unwrap();
    let doubled = vec![entry("b.txt", 2), entry("c.txt", 3), entry("b.txt", 4)];
    assert_eq!(index.apply_snapshot(doubled, Revision { id: 2 }), Err(SyncError::IndexWriteFailed));
    let (entries, state) = index.read_snapshot();
    assert_eq!(entries, &vec![entry("a.txt", 1)]);
    assert_eq!(state.last_synced_revision, Some(Revision { id: 1 }));
    assert!(index.staged().is_none());
}

#[test]
fn staged_snapshot_is_invisible_until_commit() {
    let mut index = IndexDatabase::new(OperatingMode::ReadWrite);
    index.apply_snapshot(vec![entry("a.txt", 1)], Revision { id: 1 }).unwrap();
    assert_eq!(index.stage(vec![entry("b.txt", 2)], Revision { id: 2 }), Ok(()));
    {
        let (entries, state) = index.read_snapshot();
        assert_eq!(entries, &vec![entry("a.txt", 1)]);
        assert_eq!(state.last_synced_revision, Some(Revision { id: 1 }));
    }
    let staged = index.staged().unwrap();
    assert_eq!(staged.entries, vec![entry("b.txt", 2)]);
    assert_eq!(staged.revision, Revision { id: 2 });
    assert!(index.commit());
    let (entries, state) = index.read_snapshot();
    assert_eq!(entries, &vec![entry("b.txt", 2)]);
    assert_eq!(state.last_synced_revision, Some(Revision { id: 2 }));
    assert!(index.staged().is_none());
}

#[test]
fn fault_before_commit_leaves_the_previous_snapshot() {
    let mut index = IndexDatabase::new(OperatingMode::ReadWrite);
    index.apply_snapshot(vec![entry("a.txt", 1)], Revision { id: 1 }).unwrap();
    index.mark_dirty();
    index.stage(vec![entry("b.txt", 2)], Revision { id: 2 }).unwrap();
    index.rollback();
    let (entries, state) = index.read_snapshot();
    assert_eq!(entries, &vec![entry("a.txt", 1)]);
    assert_eq!(
        state,
        SyncState {
            last_synced_revision: Some(Revision { id: 1 }),
            mode: OperatingMode::ReadWrite,
            dirty: true
        }
    );
    assert!(index.staged().is_none());
    assert!(!index.commit());
    assert_eq!(index.read_snapshot().0, &vec![entry("a.txt", 1)]);
}

#[test]
fn stage_refuses_a_path_that_occurs_twice() {
    let mut index = IndexDatabase::new(OperatingMode::ReadWrite);
    let doubled = vec![entry("a.txt", 1), entry("a.txt", 1)];
    assert_eq!(index.stage(doubled, Revision { id: 1 }), Err(SyncError::IndexWriteFailed));
    assert!(index.staged().is_none());
}

#[test]
fn dirty_flag_is_set_and_cleared() {
    let mut index = IndexDatabase::new(OperatingMode::ReadWrite);
    index.mark_dirty();
    assert!(index.state().dirty);
    index.mark_dirty();
    assert!(index.state().dirty);
    index.clear_dirty();
    assert!(!index.state().dirty);
    assert_eq!(index.state().last_synced_revision, None);
}

#[test]
fn put_entry_replaces_by_path_and_marks_dirty() {
    let mut index = IndexDatabase::new(OperatingMode::ReadWrite);
    index.apply_snapshot(vec![entry("a.txt", 1), entry("b.txt", 2)], Revision { id: 1 }).unwrap();
    index.put_entry(entry("a.txt", 9));
    assert_eq!(index.read_snapshot().0, &vec![entry("a.txt", 9), entry("b.txt", 2)]);
    assert!(index.state().dirty);
    index.put_entry(entry("c.txt", 3));
    assert_eq!(
        index.read_snapshot().0,
        &vec![entry("a.txt", 9), entry("b.txt", 2), entry("c.txt", 3)]
    );
    assert_eq!(index.state().last_synced_revision, Some(Revision { id: 1 }));
}

#[test]
fn remove_entry_prunes_and_marks_dirty() {
    let mut index = IndexDatabase::new(OperatingMode::ReadWrite);
    index.apply_snapshot(vec![entry("a.txt", 1), entry("b.txt", 2)], Revision { id: 1 }).unwrap();
    assert!(!index.remove_entry(&"z.txt".to_string()));
    assert!(!index.state().dirty);
    assert!(index.remove_entry(&"a.txt".to_string()));
    assert_eq!(index.read_snapshot().0, &vec![entry("b.txt", 2)]);
    assert!(index.state().dirty);
}

#[test]
fn entry_is_found_by_path() {
    let mut index = IndexDatabase::new(OperatingMode::ReadWrite);
    index.apply_snapshot(vec![entry("a.txt", 1), entry("b.txt", 2)], Revision { id: 1 }).unwrap();
    assert_eq!(index.entry(&"b.txt".to_string()), Some(&entry("b.txt", 2)));
    assert_eq!(index.entry(&"c.txt".to_string()), None);
}

#[test]
fn referenced_hashes_cover_visible_and_staged() {
    let mut index = IndexDatabase::new(OperatingMode::ReadWrite);
    index.apply_snapshot(vec![entry("a.txt", 1), entry("b.txt", 2)], Revision { id: 1 }).unwrap();
    index.stage(vec![entry("c.txt", 3)], Revision { id: 2 }).unwrap();
    let hashes = index.referenced_hashes();
    for wanted in [1u8, 2, 3] {
        assert!(names_hash(&hashes, &ContentHash { bytes: vec![wanted; 20] }));
    }
    assert!(!names_hash(&hashes, &ContentHash { bytes: vec![4; 20] }));
}

#[test]
fn distinct_paths_are_recognised() {
    assert!(has_distinct_paths(&Vec::new()));
    assert!(has_distinct_paths(&vec![entry("a", 1), entry("b", 1)]));
    assert!(!has_distinct_paths(&vec![entry("a", 1), entry("b", 2), entry("a", 3)]));
}

#[test]
fn find_path_gives_the_position() {
    let entries = vec![entry("a", 1), entry("b", 2)];
    assert_eq!(find_path(&entries, &"b".to_string()), Some(1));
    assert_eq!(find_path(&entries, &"c".to_string()), None);
}

#[test]
fn entries_are_copied() {
    let entries = vec![entry("a", 1), entry("b", 2)];
    assert_eq!(copy_entries(&entries), entries);
    assert_eq!(entry("a", 1).clone(), entry("a", 1));
}
