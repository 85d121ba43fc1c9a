//! Content hashes: a blob is addressed by the object id that git gives its
//! bytes, so the cache mirrors the objects of the remote repository.

use vstd::prelude::*;
use crate::error::SyncError;

verus! {

#[verifier::external_type_specification]
#[verifier::external_body]
pub struct ExGitError(git2::Error);

/// The git object id (SHA-1 over the blob header and the bytes) of a blob.
/// It is computed by libgit2 and depends on the bytes alone.
pub uninterp spec fn blob_digest(bytes: Seq<u8>) -> Seq<u8>;

/// The length in bytes of every digest.
pub const DIGEST_LEN: usize = 20;

/// The content hash of a blob.
#[derive(Debug, PartialEq, Eq)]
pub struct ContentHash {
    pub bytes: Vec<u8>,
}

impl View for ContentHash {
    type V = Seq<u8>;

    open spec fn view(&self) -> Seq<u8> {
        self.bytes@
    }
}

impl Clone for ContentHash {
    fn clone(&self) -> (copy: Self)
        ensures
            copy@ == self@,
    {
        ContentHash { bytes: copy_bytes(&self.bytes) }
    }
}

impl ContentHash {
    /// Whether two hashes are the same sequence of bytes.
    pub fn same(&self, other: &ContentHash) -> (equal: bool)
        ensures
            equal == (self@ == other@),
    {
        same_bytes(&self.bytes, &other.bytes)
    }
}

/// The lower-case hexadecimal digit of a value below sixteen, as ASCII.
pub open spec fn hex_digit_of(nibble: u8) -> u8 {
    if nibble < 10 {
        (48 + nibble) as u8
    } else {
        (87 + nibble) as u8
    }
}

/// The lower-case hexadecimal text of `bytes`, two ASCII digits per byte,
/// the high half first.
pub open spec fn hex_of(bytes: Seq<u8>) -> Seq<u8> {
    Seq::new(
        2 * bytes.len(),
        |i: int|
            if i % 2 == 0 {
                hex_digit_of(bytes[i / 2] / 16)
            } else {
                hex_digit_of(bytes[i / 2] % 16)
            },
    )
}

/// Different bytes have different hexadecimal texts.
pub proof fn lemma_hex_is_injective(a: Seq<u8>, b: Seq<u8>)
    requires
        hex_of(a) == hex_of(b),
    ensures
        a == b,
{
    assert(a.len() == b.len()) by {
        assert(hex_of(a).len() == 2 * a.len());
        assert(hex_of(b).len() == 2 * b.len());
    }
    assert forall|i: int| 0 <= i < a.len() implies a[i] == b[i] by {
        assert(hex_of(a)[2 * i] == hex_of(b)[2 * i]);
        assert(hex_of(a)[2 * i + 1] == hex_of(b)[2 * i + 1]);
        assert(hex_of(a)[2 * i] == hex_digit_of(a[i] / 16));
        assert(hex_of(a)[2 * i + 1] == hex_digit_of(a[i] % 16));
        assert(hex_of(b)[2 * i] == hex_digit_of(b[i] / 16));
        assert(hex_of(b)[2 * i + 1] == hex_digit_of(b[i] % 16));
    }
    assert(a =~= b);
}

fn hex_digit(nibble: u8) -> (digit: u8)
    requires
        nibble < 16,
    ensures
        digit == hex_digit_of(nibble),
{
    if nibble < 10 {
        48 + nibble
    } else {
        87 + nibble
    }
}

fn digit_value(digit: u8) -> (value: Option<u8>)
    ensures
        match value {
            Some(nibble) => nibble < 16 && hex_digit_of(nibble) == digit,
            None => forall|nibble: u8| nibble < 16 ==> hex_digit_of(nibble) != digit,
        },
{
    if 48 <= digit && digit <= 57 {
        Some(digit - 48)
    } else if 97 <= digit && digit <= 102 {
        Some(digit - 87)
    } else {
        None
    }
}

impl ContentHash {
    /// The hash as lower-case hexadecimal text in ASCII: the name under
    /// which its blob is kept on disk.
    pub fn to_hex(&self) -> (text: Vec<u8>)
        ensures
            text@ == hex_of(self@),
    {
        let mut text: Vec<u8> = Vec::new();
        let mut i: usize = 0;
        while i < self.bytes.len()
            invariant
                i <= self.bytes.len(),
                text.len() == 2 * i,
                forall|k: int| 0 <= k < 2 * i ==> text@[k] == hex_of(self@)[k],
            decreases self.bytes.len() - i,
        {
            let byte = self.bytes[i];
            text.push(hex_digit(byte / 16));
            text.push(hex_digit(byte % 16));
            i = i + 1;
        }
        assert(text@ =~= hex_of(self@));
        text
    }

    /// The hash that `text` is the hexadecimal text of. Text of odd length,
    /// or with a character that is no lower-case hexadecimal digit, is the
    /// text of no hash.
    pub fn from_hex(text: &Vec<u8>) -> (parsed: Option<ContentHash>)
        ensures
            match parsed {
                Some(hash) => hex_of(hash@) == text@,
                None => forall|bytes: Seq<u8>| hex_of(bytes) != text@,
            },
    {
        if text.len() % 2 != 0 {
            assert forall|bytes: Seq<u8>| hex_of(bytes) != text@ by {
                assert(hex_of(bytes).len() == 2 * bytes.len());
            }
            return None;
        }
        let mut bytes: Vec<u8> = Vec::new();
        let mut i: usize = 0;
        while 2 * i < text.len()
            invariant
                text.len() % 2 == 0,
                2 * i <= text.len(),
                bytes.len() == i,
                forall|k: int| 0 <= k < 2 * i ==> hex_of(bytes@)[k] == text@[k],
            decreases text.len() - 2 * i,
        {
            let ghost before = bytes@;
            match (digit_value(text[2 * i]), digit_value(text[2 * i + 1])) {
                (Some(high), Some(low)) => {
                    let byte = high * 16 + low;
                    assert(byte / 16 == high && byte % 16 == low);
                    bytes.push(byte);
                    assert forall|k: int| 0 <= k < 2 * (i + 1) implies hex_of(bytes@)[k]
                        == text@[k] by {
                        if k < 2 * i {
                            assert(bytes@[k / 2] == before[k / 2]);
                            assert(hex_of(before)[k] == text@[k]);
                        }
                    }
                },
                _ => {
                    assert forall|other: Seq<u8>| hex_of(other) != text@ by {
                        if hex_of(other) == text@ {
                            assert(hex_of(other).len() == 2 * other.len());
                            assert(hex_of(other)[2 * i] == hex_digit_of(other[i as int] / 16));
                            assert(hex_of(other)[2 * i + 1] == hex_digit_of(other[i as int] % 16));
                        }
                    }
                    return None;
                },
            }
            i = i + 1;
        }
        assert(hex_of(bytes@) =~= text@);
        Some(ContentHash { bytes })
    }

    /// Where the blob of the hash is kept below the store's directory: the
    /// directory named by the first two digits of the hexadecimal text, and
    /// in it the file named by the rest.
    pub fn fan_out(&self) -> (place: (Vec<u8>, Vec<u8>))
        ensures
            place.0@ + place.1@ == hex_of(self@),
            place.0@.len() == (if self@.len() == 0 { 0int } else { 2int }),
    {
        let text = self.to_hex();
        let mut directory: Vec<u8> = Vec::new();
        let mut file: Vec<u8> = Vec::new();
        let mut i: usize = 0;
        while i < text.len()
            invariant
                i <= text.len(),
                text@.len() == 2 * self@.len(),
                directory@ + file@ == text@.take(i as int),
                directory@.len() == (if i < 2 { i as int } else { 2int }),
                file@.len() == (if i < 2 { 0int } else { i - 2 }),
            decreases text.len() - i,
        {
            let ghost before = directory@ + file@;
            if i < 2 {
                directory.push(text[i]);
            } else {
                file.push(text[i]);
            }
            assert(directory@ + file@ =~= before.push(text@[i as int]));
            assert(text@.take(i + 1) =~= text@.take(i as int).push(text@[i as int]));
            i = i + 1;
        }
        assert(text@.take(i as int) =~= text@);
        (directory, file)
    }
}

/// A hash is read back from its own hexadecimal text.
pub proof fn lemma_hex_round_trip(bytes: Seq<u8>, parsed: Option<ContentHash>)
    requires
        match parsed {
            Some(hash) => hex_of(hash@) == hex_of(bytes),
            None => forall|other: Seq<u8>| hex_of(other) != hex_of(bytes),
        },
    ensures
        parsed matches Some(hash) && hash@ == bytes,
{
    match parsed {
        Some(hash) => {
            lemma_hex_is_injective(hash@, bytes);
        },
        None => {
            assert(hex_of(bytes) == hex_of(bytes));
        },
    }
}

/// A fresh vector with the bytes of `source`.
pub fn copy_bytes(source: &Vec<u8>) -> (copy: Vec<u8>)
    ensures
        copy@ == source@,
{
    let mut copy: Vec<u8> = Vec::new();
    let mut i: usize = 0;
    while i < source.len()
        invariant
            i <= source.len(),
            copy@ == source@.subrange(0, i as int),
        decreases source.len() - i,
    {
        copy.push(source[i]);
        i = i + 1;
    }
    copy
}

/// Whether two vectors hold the same bytes.
pub fn same_bytes(a: &Vec<u8>, b: &Vec<u8>) -> (equal: bool)
    ensures
        equal == (a@ == b@),
{
    if a.len() != b.len() {
        return false;
    }
    let mut i: usize = 0;
    while i < a.len()
        invariant
            i <= a.len(),
            a.len() == b.len(),
            a@.subrange(0, i as int) == b@.subrange(0, i as int),
        decreases a.len() - i,
    {
        if a[i] != b[i] {
            return false;
        }
        assert(a@.subrange(0, i + 1) == a@.subrange(0, i as int).push(a@[i as int]));
        assert(b@.subrange(0, i + 1) == b@.subrange(0, i as int).push(b@[i as int]));
        i = i + 1;
    }
    assert(a@ == a@.subrange(0, i as int));
    assert(b@ == b@.subrange(0, i as int));
    true
}

/// Calls `git2::Oid::hash_object` for a blob and copies the id out of
/// `Oid::as_bytes`. When libgit2 reports success the id is the digest of the
/// bytes, twenty bytes long; nothing is claimed of when it reports an error.
#[verifier::external_body]
fn git_blob_oid(bytes: &Vec<u8>) -> (outcome: Result<Vec<u8>, git2::Error>)
    ensures
        outcome matches Ok(id) ==> id@ == blob_digest(bytes@) && id@.len() == DIGEST_LEN,
{
    match git2::Oid::hash_object(git2::ObjectType::Blob, bytes.as_slice()) {
        Ok(oid) => Ok(oid.as_bytes().to_vec()),
        Err(error) => Err(error),
    }
}

/// Turns what the hashing call handed back into the library's own terms: an
/// id becomes a content hash, an error of libgit2 a content store fault.
pub fn digest_outcome(outcome: Result<Vec<u8>, git2::Error>) -> (hashed: Result<
    ContentHash,
    SyncError,
>)
    ensures
        match outcome {
            Ok(id) => hashed matches Ok(hash) && hash@ == id@,
            Err(_) => hashed matches Err(error) && error is ContentStoreIOError,
        },
{
    match outcome {
        Ok(id) => Ok(ContentHash { bytes: id }),
        Err(_) => Err(SyncError::ContentStoreIOError),
    }
}

/// The content hash of `bytes`. Whether libgit2 can hash is not decided
/// here; when it does, the hash is the digest of the bytes.
pub fn hash_blob(bytes: &Vec<u8>) -> (hashed: Result<ContentHash, SyncError>)
    ensures
        match hashed {
            Ok(hash) => hash@ == blob_digest(bytes@) && hash@.len() == DIGEST_LEN,
            Err(error) => error is ContentStoreIOError,
        },
{
    digest_outcome(git_blob_oid(bytes))
}

} // verus!
