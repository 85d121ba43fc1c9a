use emphasize::digest::{copy_bytes, digest_outcome, hash_blob, same_bytes, ContentHash, DIGEST_LEN};
use emphasize::error::SyncError;
use emphasize::mode::{OperatingMode, Operation};
use emphasize::store::{names_hash, ContentStore};

fn hello_id() -> Vec<u8> {
    vec![
        0x95, 0xd0, 0x9f, 0x2b, 0x10, 0x15, 0x93, 0x47, 0xee, 0xce, 0x71, 0x39, 0x9a, 0x7e, 0x2e,
        0x90, 0x7e, 0xa3, 0xdf, 0x4f,
    ]
}

fn empty_id() -> Vec<u8> {
    vec![
        0xe6, 0x9d, 0xe2, 0x9b, 0xb2, 0xd1, 0xd6, 0x43, 0x4b, 0x8b, 0x29, 0xae, 0x77, 0x5a, 0xd8,
        0xc2, 0xe4, 0x8c, 0x53, 0x91,
    ]
}

#[test]
fn gate_is_a_lookup_table() {
    assert!(emphasize::mode::allow(Operation::Fetch, OperatingMode::ReadOnly));
    assert!(!emphasize::mode::allow(Operation::Update, OperatingMode::ReadOnly));
    assert!(emphasize::mode::allow(Operation::Fetch, OperatingMode::ReadWrite));
    assert!(emphasize::mode::allow(Operation::Update, OperatingMode::ReadWrite));
}

#[test]
fn hash_is_the_git_blob_id() {
    let hash = hash_blob(&b"hello world".to_vec()).unwrap();
    assert_eq!(hash.bytes, hello_id());
    assert_eq!(hash.bytes.len(), DIGEST_LEN);
}

#[test]
fn hash_of_no_bytes() {
    let hash = hash_blob(&Vec::new()).unwrap();
    assert_eq!(hash.bytes, empty_id());
}

#[test]
fn hash_depends_on_the_bytes_alone() {
    let first = hash_blob(&b"same".to_vec()).unwrap();
    let second = hash_blob(&b"same".to_vec()).unwrap();
    let other = hash_blob(&b"other".to_vec()).unwrap();
    assert!(first.same(&second));
    assert!(!first.same(&other));
}

#[test]
fn hashing_fault_is_a_store_fault() {
    let fault = git2::Error::from_str("out of memory");
    assert_eq!(digest_outcome(Err(fault)), Err(SyncError::ContentStoreIOError));
    assert_eq!(digest_outcome(Ok(vec![1, 2, 3])), Ok(ContentHash { bytes: vec![1, 2, 3] }));
}

#[test]
fn bytes_are_copied_and_compared() {
    let source = vec![1u8, 2, 3];
    assert_eq!(copy_bytes(&source), source);
    assert_eq!(copy_bytes(&Vec::new()), Vec::<u8>::new());
    assert!(same_bytes(&source, &vec![1, 2, 3]));
    assert!(!same_bytes(&source, &vec![1, 2, 4]));
    assert!(!same_bytes(&source, &vec![1, 2]));
    assert!(same_bytes(&Vec::new(), &Vec::new()));
}

#[test]
fn hash_clone_keeps_the_bytes() {
    let hash = ContentHash { bytes: vec![7, 8, 9] };
    assert_eq!(hash.clone(), hash);
}

#[test]
fn get_returns_what_put_stored() {
    let mut store = ContentStore::new();
    let hash = store.put(b"hello world".to_vec()).unwrap();
    assert_eq!(hash.bytes, hello_id());
    assert_eq!(store.get(&hash), Ok(&b"hello world".to_vec()));
    assert!(store.contains(&hash));
}

#[test]
fn get_returns_empty_blob() {
    let mut store = ContentStore::new();
    let hash = store.put(Vec::new()).unwrap();
    assert_eq!(store.get(&hash), Ok(&Vec::new()));
}

#[test]
fn put_is_idempotent() {
    let mut store = ContentStore::new();
    let first = store.put(b"once".to_vec()).unwrap();
    assert_eq!(store.len(), 1);
    let second = store.put(b"once".to_vec()).unwrap();
    assert_eq!(first, second);
    assert_eq!(store.len(), 1);
    assert_eq!(store.get(&first), Ok(&b"once".to_vec()));
}

#[test]
fn distinct_blobs_are_kept_apart() {
    let mut store = ContentStore::new();
    let x = store.put(b"x".to_vec()).unwrap();
    let y = store.put(b"y".to_vec()).unwrap();
    assert_ne!(x, y);
    assert_eq!(store.len(), 2);
    assert_eq!(store.get(&x), Ok(&b"x".to_vec()));
    assert_eq!(store.get(&y), Ok(&b"y".to_vec()));
}

#[test]
fn get_of_absent_hash_is_not_found() {
    let store = ContentStore::new();
    let hash = ContentHash { bytes: hello_id() };
    assert_eq!(store.get(&hash), Err(SyncError::NotFound));
    assert!(!store.contains(&hash));
    assert_eq!(store.len(), 0);
}

#[test]
fn insert_replaces_what_stood_under_the_hash() {
    let mut store = ContentStore::new();
    store.insert(ContentHash { bytes: vec![1] }, b"old".to_vec());
    store.insert(ContentHash { bytes: vec![2] }, b"other".to_vec());
    store.insert(ContentHash { bytes: vec![1] }, b"new".to_vec());
    assert_eq!(store.len(), 2);
    assert_eq!(store.get(&ContentHash { bytes: vec![1] }), Ok(&b"new".to_vec()));
    assert_eq!(store.get(&ContentHash { bytes: vec![2] }), Ok(&b"other".to_vec()));
}

#[test]
fn gc_removes_exactly_the_unreachable() {
    let mut store = ContentStore::new();
    let a = store.put(b"a".to_vec()).unwrap();
    let b = store.put(b"b".to_vec()).unwrap();
    let c = store.put(b"c".to_vec()).unwrap();
    let absent = ContentHash { bytes: vec![0; 20] };
    let removed = store.gc(&vec![c.clone(), absent.clone(), a.clone()]);
    assert_eq!(removed, 1);
    assert_eq!(store.len(), 2);
    assert_eq!(store.get(&a), Ok(&b"a".to_vec()));
    assert_eq!(store.get(&c), Ok(&b"c".to_vec()));
    assert_eq!(store.get(&b), Err(SyncError::NotFound));
    assert!(!store.contains(&absent));
}

#[test]
fn gc_with_nothing_reachable_empties_the_store() {
    let mut store = ContentStore::new();
    store.put(b"a".to_vec()).unwrap();
    store.put(b"b".to_vec()).unwrap();
    assert_eq!(store.gc(&Vec::new()), 2);
    assert_eq!(store.len(), 0);
}

#[test]
fn gc_can_be_repeated() {
    let mut store = ContentStore::new();
    let a = store.put(b"a".to_vec()).unwrap();
    store.put(b"b".to_vec()).unwrap();
    assert_eq!(store.gc(&vec![a.clone()]), 1);
    assert_eq!(store.gc(&vec![a.clone()]), 0);
    assert_eq!(store.get(&a), Ok(&b"a".to_vec()));
}

#[test]
fn names_hash_searches_the_vector() {
    let hashes = vec![ContentHash { bytes: vec![1] }, ContentHash { bytes: vec![2] }];
    assert!(names_hash(&hashes, &ContentHash { bytes: vec![2] }));
    assert!(!names_hash(&hashes, &ContentHash { bytes: vec![3] }));
    assert!(!names_hash(&Vec::new(), &ContentHash { bytes: vec![1] }));
}

#[test]
fn only_faults_of_reach_and_lock_are_retryable() {
    assert!(SyncError::RemoteUnreachable.is_retryable());
    assert!(SyncError::Busy.is_retryable());
    assert!(!SyncError::LocalChangesPending.is_retryable());
    assert!(!SyncError::ReadOnlyViolation.is_retryable());
    assert!(!SyncError::NothingToPublish.is_retryable());
    assert!(!SyncError::IndexWriteFailed.is_retryable());
    assert!(!SyncError::ContentStoreIOError.is_retryable());
    assert!(!SyncError::NotFound.is_retryable());
}

#[test]
fn hex_text_of_a_hash() {
    let hash = ContentHash { bytes: hello_id() };
    assert_eq!(hash.to_hex(), b"95d09f2b10159347eece71399a7e2e907ea3df4f".to_vec());
    assert_eq!(ContentHash { bytes: vec![0x00, 0x0f, 0xf0, 0xff] }.to_hex(), b"000ff0ff".to_vec());
    assert_eq!(ContentHash { bytes: Vec::new() }.to_hex(), Vec::<u8>::new());
}

#[test]
fn hash_is_read_back_from_its_hex_text() {
    let hash = ContentHash { bytes: empty_id() };
    assert_eq!(ContentHash::from_hex(&hash.to_hex()), Some(hash));
    assert_eq!(
        ContentHash::from_hex(&b"00a1ff".to_vec()),
        Some(ContentHash { bytes: vec![0x00, 0xa1, 0xff] })
    );
    assert_eq!(ContentHash::from_hex(&Vec::new()), Some(ContentHash { bytes: Vec::new() }));
}

#[test]
fn text_that_is_no_hex_text_is_refused() {
    assert_eq!(ContentHash::from_hex(&b"abc".to_vec()), None);
    assert_eq!(ContentHash::from_hex(&b"AB".to_vec()), None);
    assert_eq!(ContentHash::from_hex(&b"0g".to_vec()), None);
    assert_eq!(ContentHash::from_hex(&b"g0".to_vec()), None);
    assert_eq!(ContentHash::from_hex(&b"0/".to_vec()), None);
    assert_eq!(ContentHash::from_hex(&b"0:".to_vec()), None);
    assert_eq!(ContentHash::from_hex(&b"0`".to_vec()), None);
}

#[test]
fn blob_is_kept_below_a_two_digit_directory() {
    let (directory, file) = ContentHash { bytes: hello_id() }.fan_out();
    assert_eq!(directory, b"95".to_vec());
    assert_eq!(file, b"d09f2b10159347eece71399a7e2e907ea3df4f".to_vec());
    let (directory, file) = ContentHash { bytes: vec![0xab] }.fan_out();
    assert_eq!(directory, b"ab".to_vec());
    assert_eq!(file, Vec::<u8>::new());
    let (directory, file) = ContentHash { bytes: Vec::new() }.fan_out();
    assert_eq!(directory, Vec::<u8>::new());
    assert_eq!(file, Vec::<u8>::new());
}

#[test]
fn every_error_has_its_message() {
    assert_eq!(SyncError::RemoteUnreachable.message(), "the remote could not be reached");
    assert_eq!(
        SyncError::LocalChangesPending.message(),
        "local changes are pending; fetch with --force to discard them"
    );
    assert_eq!(SyncError::ReadOnlyViolation.message(), "this cache is read-only and cannot publish");
    assert_eq!(
        SyncError::NothingToPublish.message(),
        "nothing was fetched yet; fetch before the first update"
    );
    assert_eq!(
        SyncError::UpdateConflict(emphasize::error::ConflictInfo { paths: Vec::new() }).message(),
        "the remote changed since the last fetch"
    );
    assert_eq!(SyncError::IndexWriteFailed.message(), "the index database could not be written");
    assert_eq!(SyncError::ContentStoreIOError.message(), "the content store could not be written");
    assert_eq!(SyncError::NotFound.message(), "a blob is missing from the cache");
    assert_eq!(SyncError::Busy.message(), "another operation is running on this cache");
}
