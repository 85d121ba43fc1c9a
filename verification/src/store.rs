//! The content store: blobs keyed by their content hash.
//!
//! The store is viewed as a map from hash to bytes. Writing a blob files it
//! under its digest, replacing whatever stood there, so that a blob read
//! back through the hash that `put` returned is the blob that was written.

use vstd::prelude::*;
use crate::digest::{blob_digest, hash_blob, ContentHash};
use crate::error::SyncError;

verus! {

/// A stored blob with the hash it is filed under.
pub struct Blob {
    pub hash: ContentHash,
    pub bytes: Vec<u8>,
}

/// No hash occurs twice among the blobs.
pub open spec fn distinct_hashes(blobs: Seq<Blob>) -> bool {
    forall|i: int, j: int|
        0 <= i < j < blobs.len() ==> (#[trigger] blobs[i]).hash@ != (#[trigger] blobs[j]).hash@
}

/// Whether some blob is filed under `hash`.
pub open spec fn holds(blobs: Seq<Blob>, hash: Seq<u8>) -> bool {
    exists|i: int| 0 <= i < blobs.len() && (#[trigger] blobs[i]).hash@ == hash
}

/// The position of a blob filed under `hash`.
pub open spec fn slot(blobs: Seq<Blob>, hash: Seq<u8>) -> int {
    choose|i: int| 0 <= i < blobs.len() && (#[trigger] blobs[i]).hash@ == hash
}

/// The map from hash to bytes that a sequence of blobs stands for.
pub open spec fn map_of(blobs: Seq<Blob>) -> Map<Seq<u8>, Seq<u8>> {
    Map::new(|hash: Seq<u8>| holds(blobs, hash), |hash: Seq<u8>| blobs[slot(blobs, hash)].bytes@)
}

/// The set of hashes that a vector of hashes names.
pub open spec fn hash_set(hashes: Seq<ContentHash>) -> Set<Seq<u8>> {
    Set::new(
        |hash: Seq<u8>| exists|i: int| 0 <= i < hashes.len() && (#[trigger] hashes[i])@ == hash,
    )
}

/// The store after `bytes` was written to it.
pub open spec fn stored(store: Map<Seq<u8>, Seq<u8>>, bytes: Seq<u8>) -> Map<Seq<u8>, Seq<u8>> {
    store.insert(blob_digest(bytes), bytes)
}

/// What reading `hash` from the store yields.
pub open spec fn lookup(store: Map<Seq<u8>, Seq<u8>>, hash: Seq<u8>) -> Option<Seq<u8>> {
    if store.dom().contains(hash) {
        Some(store[hash])
    } else {
        None
    }
}

/// Every blob is filed under the digest of its own bytes.
pub open spec fn content_addressed(store: Map<Seq<u8>, Seq<u8>>) -> bool {
    forall|hash: Seq<u8>| #[trigger] store.dom().contains(hash) ==> blob_digest(store[hash]) == hash
}

/// With distinct hashes, the blob at position `i` is what the map holds
/// under its hash.
pub proof fn lemma_map_of_slot(blobs: Seq<Blob>, i: int)
    requires
        distinct_hashes(blobs),
        0 <= i < blobs.len(),
    ensures
        map_of(blobs).dom().contains(blobs[i].hash@),
        map_of(blobs)[blobs[i].hash@] == blobs[i].bytes@,
{
    let hash = blobs[i].hash@;
    assert(holds(blobs, hash));
    let k = slot(blobs, hash);
    assert(0 <= k < blobs.len() && blobs[k].hash@ == hash);
    assert(k == i);
}

/// A blob that was written is read back unchanged through its digest.
pub proof fn lemma_read_after_write(store: Map<Seq<u8>, Seq<u8>>, bytes: Seq<u8>)
    ensures
        lookup(stored(store, bytes), blob_digest(bytes)) == Some(bytes),
{
}

/// Writing the same bytes a second time changes nothing: the hash is the
/// same and the store holds what it held after the first write.
pub proof fn lemma_write_is_idempotent(store: Map<Seq<u8>, Seq<u8>>, bytes: Seq<u8>)
    ensures
        stored(stored(store, bytes), bytes) == stored(store, bytes),
{
    assert(stored(stored(store, bytes), bytes) =~= stored(store, bytes));
}

/// Writing and collecting both keep every blob under the digest of its bytes.
pub proof fn lemma_addressing_is_kept(
    store: Map<Seq<u8>, Seq<u8>>,
    bytes: Seq<u8>,
    reachable: Set<Seq<u8>>,
)
    requires
        content_addressed(store),
    ensures
        content_addressed(stored(store, bytes)),
        content_addressed(store.restrict(reachable)),
        content_addressed(Map::<Seq<u8>, Seq<u8>>::empty()),
{
}

/// Whether `hash` occurs in `hashes`.
pub fn names_hash(hashes: &Vec<ContentHash>, hash: &ContentHash) -> (found: bool)
    ensures
        found == hash_set(hashes@).contains(hash@),
{
    let mut i: usize = 0;
    while i < hashes.len()
        invariant
            i <= hashes.len(),
            forall|k: int| 0 <= k < i ==> (#[trigger] hashes@[k])@ != hash@,
        decreases hashes.len() - i,
    {
        if hashes[i].same(hash) {
            return true;
        }
        i = i + 1;
    }
    false
}

/// A sequence of blobs with distinct hashes stands for `store` when each of
/// its blobs is in `store` and `store` holds nothing else.
pub proof fn lemma_map_of_is(blobs: Seq<Blob>, store: Map<Seq<u8>, Seq<u8>>)
    requires
        distinct_hashes(blobs),
        forall|i: int|
            0 <= i < blobs.len() ==> store.dom().contains((#[trigger] blobs[i]).hash@)
                && store[blobs[i].hash@] == blobs[i].bytes@,
        forall|hash: Seq<u8>| #[trigger] store.dom().contains(hash) ==> holds(blobs, hash),
    ensures
        map_of(blobs) == store,
{
    assert forall|hash: Seq<u8>| map_of(blobs).dom().contains(hash) implies store.dom().contains(
        hash,
    ) && store[hash] == map_of(blobs)[hash] by {
        let i = slot(blobs, hash);
        lemma_map_of_slot(blobs, i);
    }
    assert(map_of(blobs) =~= store);
}

/// Appending a blob under a hash that is not held yet adds it to the map.
pub proof fn lemma_map_of_push(blobs: Seq<Blob>, blob: Blob)
    requires
        distinct_hashes(blobs),
        !holds(blobs, blob.hash@),
    ensures
        distinct_hashes(blobs.push(blob)),
        map_of(blobs.push(blob)) == map_of(blobs).insert(blob.hash@, blob.bytes@),
{
    let longer = blobs.push(blob);
    let store = map_of(blobs).insert(blob.hash@, blob.bytes@);
    assert forall|i: int, j: int| 0 <= i < j < longer.len() implies (#[trigger] longer[i]).hash@
        != (#[trigger] longer[j]).hash@ by {
        assert(longer[i] == blobs[i]);
        if j < blobs.len() {
            assert(longer[j] == blobs[j]);
        }
    }
    assert forall|i: int| 0 <= i < longer.len() implies store.dom().contains(
        (#[trigger] longer[i]).hash@,
    ) && store[longer[i].hash@] == longer[i].bytes@ by {
        if i < blobs.len() {
            assert(longer[i] == blobs[i]);
            lemma_map_of_slot(blobs, i);
        }
    }
    assert forall|hash: Seq<u8>| #[trigger] store.dom().contains(hash) implies holds(
        longer,
        hash,
    ) by {
        if hash == blob.hash@ {
            assert(longer[blobs.len() as int].hash@ == hash);
        } else {
            let i = slot(blobs, hash);
            assert(longer[i].hash@ == hash);
        }
    }
    lemma_map_of_is(longer, store);
}

/// Replacing a blob by another under the same hash replaces it in the map.
pub proof fn lemma_map_of_update(blobs: Seq<Blob>, at: int, blob: Blob)
    requires
        distinct_hashes(blobs),
        0 <= at < blobs.len(),
        blobs[at].hash@ == blob.hash@,
    ensures
        distinct_hashes(blobs.update(at, blob)),
        map_of(blobs.update(at, blob)) == map_of(blobs).insert(blob.hash@, blob.bytes@),
{
    let changed = blobs.update(at, blob);
    let store = map_of(blobs).insert(blob.hash@, blob.bytes@);
    assert forall|i: int| 0 <= i < changed.len() implies (#[trigger] changed[i]).hash@
        == blobs[i].hash@ by {}
    assert forall|i: int, j: int| 0 <= i < j < changed.len() implies (#[trigger] changed[i]).hash@
        != (#[trigger] changed[j]).hash@ by {
        assert(blobs[i].hash@ != blobs[j].hash@);
    }
    assert forall|i: int| 0 <= i < changed.len() implies store.dom().contains(
        (#[trigger] changed[i]).hash@,
    ) && store[changed[i].hash@] == changed[i].bytes@ by {
        if i != at {
            assert(changed[i] == blobs[i]);
            lemma_map_of_slot(blobs, i);
            assert(blobs[i].hash@ != blobs[at].hash@);
        }
    }
    assert forall|hash: Seq<u8>| #[trigger] store.dom().contains(hash) implies holds(
        changed,
        hash,
    ) by {
        if hash == blob.hash@ {
            assert(changed[at].hash@ == hash);
        } else {
            let i = slot(blobs, hash);
            assert(changed[i].hash@ == hash);
        }
    }
    lemma_map_of_is(changed, store);
}

/// A sequence of blobs with distinct hashes stands for a map with one key
/// for each blob.
pub proof fn lemma_map_of_size(blobs: Seq<Blob>)
    requires
        distinct_hashes(blobs),
    ensures
        map_of(blobs).dom().finite(),
        map_of(blobs).dom().len() == blobs.len(),
    decreases blobs.len(),
{
    if blobs.len() == 0 {
        assert(map_of(blobs).dom() =~= Set::<Seq<u8>>::empty());
    } else {
        let front = blobs.drop_last();
        let last = blobs.last();
        assert(distinct_hashes(front)) by {
            assert forall|i: int, j: int| 0 <= i < j < front.len() implies (#[trigger] front[i]).hash@
                != (#[trigger] front[j]).hash@ by {
                assert(front[i] == blobs[i] && front[j] == blobs[j]);
            }
        }
        assert(!holds(front, last.hash@)) by {
            if holds(front, last.hash@) {
                let i = slot(front, last.hash@);
                assert(front[i] == blobs[i]);
                assert(blobs[i].hash@ != blobs[blobs.len() - 1].hash@);
            }
        }
        lemma_map_of_size(front);
        lemma_map_of_push(front, last);
        assert(front.push(last) =~= blobs);
        assert(map_of(blobs).dom() =~= map_of(front).dom().insert(last.hash@));
    }
}

/// The hashes of the blobs from position `from` on.
spec fn tail_hashes(blobs: Seq<Blob>, from: int) -> Set<Seq<u8>> {
    Set::new(
        |hash: Seq<u8>| exists|i: int| from <= i < blobs.len() && (#[trigger] blobs[i]).hash@ == hash,
    )
}

/// What a sweep has kept once the blobs from `from` on have been looked at.
spec fn swept(blobs: Seq<Blob>, reachable: Set<Seq<u8>>, from: int) -> Map<
    Seq<u8>,
    Seq<u8>,
> {
    map_of(blobs).restrict(reachable).restrict(tail_hashes(blobs, from))
}

/// Looking at one more blob keeps it exactly when it is reachable.
proof fn lemma_swept_step(blobs: Seq<Blob>, reachable: Set<Seq<u8>>, at: int)
    requires
        distinct_hashes(blobs),
        0 <= at < blobs.len(),
    ensures
        !swept(blobs, reachable, at + 1).dom().contains(blobs[at].hash@),
        reachable.contains(blobs[at].hash@) ==> swept(blobs, reachable, at) == swept(
            blobs,
            reachable,
            at + 1,
        ).insert(blobs[at].hash@, blobs[at].bytes@),
        !reachable.contains(blobs[at].hash@) ==> swept(blobs, reachable, at) == swept(
            blobs,
            reachable,
            at + 1,
        ),
{
    let key = blobs[at].hash@;
    lemma_map_of_slot(blobs, at);
    assert(!tail_hashes(blobs, at + 1).contains(key)) by {
        if tail_hashes(blobs, at + 1).contains(key) {
            let i = choose|i: int| at + 1 <= i < blobs.len() && (#[trigger] blobs[i]).hash@ == key;
            assert(blobs[at].hash@ != blobs[i].hash@);
        }
    }
    assert forall|hash: Seq<u8>| tail_hashes(blobs, at).contains(hash) <==> (hash == key
        || tail_hashes(blobs, at + 1).contains(hash)) by {
        if tail_hashes(blobs, at).contains(hash) {
            let i = choose|i: int| at <= i < blobs.len() && (#[trigger] blobs[i]).hash@ == hash;
            if i != at {
                assert(at + 1 <= i < blobs.len() && blobs[i].hash@ == hash);
            }
        }
        if tail_hashes(blobs, at + 1).contains(hash) {
            let i = choose|i: int| at + 1 <= i < blobs.len() && (#[trigger] blobs[i]).hash@ == hash;
            assert(at <= i < blobs.len() && blobs[i].hash@ == hash);
        }
        if hash == key {
            assert(at <= at < blobs.len() && blobs[at].hash@ == hash);
        }
    }
    if reachable.contains(key) {
        assert(swept(blobs, reachable, at) =~= swept(blobs, reachable, at + 1).insert(
            key,
            blobs[at].bytes@,
        ));
    } else {
        assert(swept(blobs, reachable, at) =~= swept(blobs, reachable, at + 1));
    }
}

/// Keeps the blobs whose hash is named in `reachable`.
fn sweep(blobs: Vec<Blob>, reachable: &Vec<ContentHash>) -> (kept: Vec<Blob>)
    requires
        distinct_hashes(blobs@),
    ensures
        distinct_hashes(kept@),
        map_of(kept@) == map_of(blobs@).restrict(hash_set(reachable@)),
        kept.len() <= blobs.len(),
{
    let ghost all = blobs@;
    let mut rest = blobs;
    let mut kept: Vec<Blob> = Vec::new();
    proof {
        assert(swept(all, hash_set(reachable@), all.len() as int) =~= map_of(kept@));
    }
    while rest.len() > 0
        invariant
            distinct_hashes(all),
            rest@ == all.subrange(0, rest.len() as int),
            kept.len() + rest.len() <= all.len(),
            distinct_hashes(kept@),
            map_of(kept@) == swept(all, hash_set(reachable@), rest.len() as int),
        decreases rest.len(),
    {
        let ghost at = rest.len() - 1;
        let blob = rest.pop().unwrap();
        proof {
            assert(blob == all[at]);
            lemma_swept_step(all, hash_set(reachable@), at);
        }
        if names_hash(reachable, &blob.hash) {
            proof {
                lemma_map_of_push(kept@, blob);
            }
            kept.push(blob);
        }
    }
    proof {
        assert(swept(all, hash_set(reachable@), 0) =~= map_of(all).restrict(hash_set(reachable@)))
            by {
            assert forall|hash: Seq<u8>| map_of(all).dom().contains(hash) implies tail_hashes(
                all,
                0,
            ).contains(hash) by {
                let i = slot(all, hash);
                assert(0 <= i < all.len() && all[i].hash@ == hash);
            }
        }
    }
    kept
}

/// A content-addressed blob store.
pub struct ContentStore {
    blobs: Vec<Blob>,
}

impl View for ContentStore {
    type V = Map<Seq<u8>, Seq<u8>>;

    closed spec fn view(&self) -> Map<Seq<u8>, Seq<u8>> {
        map_of(self.blobs@)
    }
}

impl ContentStore {
    /// The store's invariant: every hash is held once.
    pub closed spec fn wf(&self) -> bool {
        distinct_hashes(self.blobs@)
    }

    /// A store holds finitely many blobs.
    pub proof fn lemma_finite(&self)
        requires
            self.wf(),
        ensures
            self@.dom().finite(),
    {
        lemma_map_of_size(self.blobs@);
    }

    /// An empty store.
    pub fn new() -> (store: ContentStore)
        ensures
            store.wf(),
            store@ == Map::<Seq<u8>, Seq<u8>>::empty(),
    {
        let store = ContentStore { blobs: Vec::new() };
        assert(store@ =~= Map::<Seq<u8>, Seq<u8>>::empty());
        store
    }

    /// How many blobs the store holds: one for each hash.
    pub fn len(&self) -> (n: usize)
        requires
            self.wf(),
        ensures
            n == self@.dom().len(),
    {
        proof {
            lemma_map_of_size(self.blobs@);
        }
        self.blobs.len()
    }

    fn find(&self, hash: &ContentHash) -> (found: Option<usize>)
        requires
            self.wf(),
        ensures
            match found {
                Some(i) => i < self.blobs.len() && self.blobs@[i as int].hash@ == hash@
                    && self@.dom().contains(hash@) && self@[hash@] == self.blobs@[i as int].bytes@,
                None => !self@.dom().contains(hash@),
            },
    {
        let mut i: usize = 0;
        while i < self.blobs.len()
            invariant
                i <= self.blobs.len(),
                distinct_hashes(self.blobs@),
                forall|k: int| 0 <= k < i ==> (#[trigger] self.blobs@[k]).hash@ != hash@,
            decreases self.blobs.len() - i,
        {
            if self.blobs[i].hash.same(hash) {
                proof {
                    lemma_map_of_slot(self.blobs@, i as int);
                }
                return Some(i);
            }
            i = i + 1;
        }
        None
    }

    /// Whether a blob is filed under `hash`.
    pub fn contains(&self, hash: &ContentHash) -> (present: bool)
        requires
            self.wf(),
        ensures
            present == self@.dom().contains(hash@),
    {
        self.find(hash).is_some()
    }

    /// The bytes filed under `hash`, or `NotFound` where there are none.
    pub fn get(&self, hash: &ContentHash) -> (read: Result<&Vec<u8>, SyncError>)
        requires
            self.wf(),
        ensures
            match read {
                Ok(bytes) => lookup(self@, hash@) == Some(bytes@),
                Err(error) => error is NotFound && lookup(self@, hash@) is None,
            },
    {
        match self.find(hash) {
            Some(i) => Ok(&self.blobs[i].bytes),
            None => Err(SyncError::NotFound),
        }
    }

    /// The bytes filed under a hash that is held.
    pub(crate) fn read(&self, hash: &ContentHash) -> (bytes: &Vec<u8>)
        requires
            self.wf(),
            self@.dom().contains(hash@),
        ensures
            bytes@ == self@[hash@],
    {
        let at = self.find(hash).unwrap();
        &self.blobs[at].bytes
    }

    /// Files `bytes` under `hash`, in place of what stood there.
    pub fn insert(&mut self, hash: ContentHash, bytes: Vec<u8>)
        requires
            old(self).wf(),
        ensures
            final(self).wf(),
            final(self)@ == old(self)@.insert(hash@, bytes@),
    {
        match self.find(&hash) {
            Some(i) => {
                let blob = Blob { hash, bytes };
                proof {
                    lemma_map_of_update(self.blobs@, i as int, blob);
                }
                self.blobs[i] = blob;
            },
            None => {
                let blob = Blob { hash, bytes };
                proof {
                    lemma_map_of_push(self.blobs@, blob);
                }
                self.blobs.push(blob);
            },
        }
    }

    /// Writes `bytes` under their content hash and returns the hash. Writing
    /// bytes that are already held changes nothing. When the hash cannot be
    /// computed the store is left as it was.
    pub fn put(&mut self, bytes: Vec<u8>) -> (written: Result<ContentHash, SyncError>)
        requires
            old(self).wf(),
        ensures
            final(self).wf(),
            match written {
                Ok(hash) => hash@ == blob_digest(bytes@) && final(self)@ == stored(
                    old(self)@,
                    bytes@,
                ),
                Err(error) => error is ContentStoreIOError && final(self)@ == old(self)@,
            },
    {
        match hash_blob(&bytes) {
            Ok(hash) => {
                let filed = hash.clone();
                self.insert(filed, bytes);
                Ok(hash)
            },
            Err(error) => Err(error),
        }
    }

    /// Removes every blob whose hash is not named in `reachable`, and returns
    /// how many were removed. A blob that is named stays, with its bytes.
    pub fn gc(&mut self, reachable: &Vec<ContentHash>) -> (removed: usize)
        requires
            old(self).wf(),
        ensures
            final(self).wf(),
            final(self)@ == old(self)@.restrict(hash_set(reachable@)),
            removed == old(self)@.dom().len() - final(self)@.dom().len(),
    {
        let mut held: Vec<Blob> = Vec::new();
        std::mem::swap(&mut self.blobs, &mut held);
        let before = held.len();
        let kept = sweep(held, reachable);
        proof {
            lemma_map_of_size(held@);
            lemma_map_of_size(kept@);
        }
        let removed = before - kept.len();
        self.blobs = kept;
        removed
    }
}

} // verus!
