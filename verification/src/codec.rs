//! Framing of byte fields for the files that hold a cache on disk.
//!
//! A file is a run of fields. Each field is written as its length, a 64-bit
//! little-endian number, followed by its bytes. Bytes are read back as
//! fields only if they are exactly the framing of those fields.

use vstd::prelude::*;
use vstd::bytes::{
    lemma_auto_spec_u64_to_from_le_bytes, spec_u64_from_le_bytes, spec_u64_to_le_bytes,
    u64_from_le_bytes, u64_to_le_bytes,
};
use vstd::slice::slice_subrange;

verus! {

/// The fields of a vector as sequences of bytes.
pub open spec fn field_views(fields: Seq<Vec<u8>>) -> Seq<Seq<u8>> {
    fields.map_values(|field: Vec<u8>| field@)
}

/// One field as it is written: its length, then its bytes.
pub open spec fn framed_field(field: Seq<u8>) -> Seq<u8> {
    spec_u64_to_le_bytes(field.len() as u64) + field
}

/// The fields as they are written, one after the other.
pub open spec fn framed(fields: Seq<Seq<u8>>) -> Seq<u8>
    decreases fields.len(),
{
    if fields.len() == 0 {
        Seq::empty()
    } else {
        framed_field(fields[0]) + framed(fields.skip(1))
    }
}

/// The length of every field can be written as a 64-bit number.
pub open spec fn fits(fields: Seq<Seq<u8>>) -> bool {
    forall|i: int| 0 <= i < fields.len() ==> (#[trigger] fields[i]).len() <= u64::MAX
}

/// The fields that the bytes are read as, front to back.
pub open spec fn unframed(bytes: Seq<u8>) -> Option<Seq<Seq<u8>>>
    decreases bytes.len(),
{
    if bytes.len() == 0 {
        Some(Seq::empty())
    } else if bytes.len() < 8 {
        None
    } else {
        let length = spec_u64_from_le_bytes(bytes.take(8)) as int;
        if length > bytes.len() - 8 {
            None
        } else {
            match unframed(bytes.skip(8 + length)) {
                Some(rest) => Some(seq![bytes.subrange(8, 8 + length)] + rest),
                None => None,
            }
        }
    }
}

/// Fields that were written are read back as they were.
pub proof fn lemma_unframe_after_frame(fields: Seq<Seq<u8>>)
    requires
        fits(fields),
    ensures
        unframed(framed(fields)) == Some(fields),
    decreases fields.len(),
{
    lemma_auto_spec_u64_to_from_le_bytes();
    if fields.len() > 0 {
        let first = fields[0];
        let rest = fields.skip(1);
        let bytes = framed(fields);
        let length = first.len() as int;
        assert(fits(rest)) by {
            assert forall|i: int| 0 <= i < rest.len() implies (#[trigger] rest[i]).len()
                <= u64::MAX by {
                assert(rest[i] == fields[i + 1]);
            }
        }
        lemma_unframe_after_frame(rest);
        assert(bytes.take(8) =~= spec_u64_to_le_bytes(first.len() as u64));
        assert(bytes.skip(8 + length) =~= framed(rest));
        assert(bytes.subrange(8, 8 + length) =~= first);
        assert(seq![first] + rest =~= fields);
    }
}

/// Bytes are read as fields only if they are the framing of those fields.
pub proof fn lemma_frame_after_unframe(bytes: Seq<u8>)
    ensures
        unframed(bytes) matches Some(fields) ==> framed(fields) == bytes && fits(fields),
    decreases bytes.len(),
{
    lemma_auto_spec_u64_to_from_le_bytes();
    if bytes.len() >= 8 {
        let length = spec_u64_from_le_bytes(bytes.take(8)) as int;
        if length <= bytes.len() - 8 {
            let tail = bytes.skip(8 + length);
            lemma_frame_after_unframe(tail);
            if let Some(rest) = unframed(tail) {
                let first = bytes.subrange(8, 8 + length);
                let fields = seq![first] + rest;
                assert(fields[0] == first);
                assert(fields.skip(1) =~= rest);
                assert(spec_u64_to_le_bytes(first.len() as u64) == bytes.take(8));
                assert(framed(fields) =~= bytes);
                assert forall|i: int| 0 <= i < fields.len() implies (#[trigger] fields[i]).len()
                    <= u64::MAX by {
                    if i > 0 {
                        assert(fields[i] == rest[i - 1]);
                    }
                }
            }
        }
    }
}

/// Writing one more field appends its framing.
pub proof fn lemma_framed_push(fields: Seq<Seq<u8>>, field: Seq<u8>)
    ensures
        framed(fields.push(field)) == framed(fields) + framed_field(field),
    decreases fields.len(),
{
    let longer = fields.push(field);
    if fields.len() == 0 {
        assert(longer.skip(1) =~= Seq::<Seq<u8>>::empty());
        assert(longer[0] == field);
        assert(framed(longer.skip(1)) =~= Seq::<u8>::empty());
        assert(framed(fields) =~= Seq::<u8>::empty());
        assert(framed(longer) =~= framed_field(field));
        assert(framed(fields) + framed_field(field) =~= framed_field(field));
    } else {
        lemma_framed_push(fields.skip(1), field);
        assert(longer.skip(1) =~= fields.skip(1).push(field));
        assert(longer[0] == fields[0]);
        assert(framed(longer) =~= framed(fields) + framed_field(field));
    }
}

/// Appends the bytes of `more` to `bytes`.
pub fn append_bytes(bytes: &mut Vec<u8>, more: &Vec<u8>)
    ensures
        final(bytes)@ == old(bytes)@ + more@,
{
    let ghost start = bytes@;
    let mut i: usize = 0;
    while i < more.len()
        invariant
            i <= more.len(),
            bytes@ == start + more@.take(i as int),
        decreases more.len() - i,
    {
        bytes.push(more[i]);
        assert(more@.take(i + 1) =~= more@.take(i as int).push(more@[i as int]));
        assert(bytes@ =~= start + more@.take(i + 1));
        i = i + 1;
    }
    assert(more@.take(i as int) =~= more@);
}

/// A fresh vector with the bytes of `bytes` from `from` up to `to`.
pub fn copy_range(bytes: &Vec<u8>, from: usize, to: usize) -> (copy: Vec<u8>)
    requires
        from <= to <= bytes.len(),
    ensures
        copy@ == bytes@.subrange(from as int, to as int),
{
    let mut copy: Vec<u8> = Vec::new();
    let mut i: usize = from;
    while i < to
        invariant
            from <= i <= to <= bytes.len(),
            copy@ == bytes@.subrange(from as int, i as int),
        decreases to - i,
    {
        copy.push(bytes[i]);
        assert(bytes@.subrange(from as int, i + 1) =~= bytes@.subrange(from as int, i as int).push(
            bytes@[i as int],
        ));
        i = i + 1;
    }
    copy
}

/// Writes the fields one after the other, each behind its length.
pub fn frame(fields: &Vec<Vec<u8>>) -> (bytes: Vec<u8>)
    ensures
        bytes@ == framed(field_views(fields@)),
{
    let ghost views = field_views(fields@);
    let mut bytes: Vec<u8> = Vec::new();
    let mut i: usize = 0;
    assert(views.take(0) =~= Seq::<Seq<u8>>::empty());
    while i < fields.len()
        invariant
            i <= fields.len(),
            views == field_views(fields@),
            bytes@ == framed(views.take(i as int)),
        decreases fields.len() - i,
    {
        let length = u64_to_le_bytes(fields[i].len() as u64);
        append_bytes(&mut bytes, &length);
        append_bytes(&mut bytes, &fields[i]);
        proof {
            lemma_framed_push(views.take(i as int), views[i as int]);
            assert(views.take(i + 1) =~= views.take(i as int).push(views[i as int]));
            assert(bytes@ =~= framed(views.take(i as int)) + framed_field(views[i as int]));
        }
        i = i + 1;
    }
    assert(views.take(i as int) =~= views);
    bytes
}

/// Reads the bytes as fields. Bytes that are the framing of no fields, such
/// as a file that was cut short, are refused.
pub fn unframe(bytes: &Vec<u8>) -> (fields: Option<Vec<Vec<u8>>>)
    ensures
        match fields {
            Some(fields) => framed(field_views(fields@)) == bytes@,
            None => forall|other: Seq<Seq<u8>>| fits(other) ==> framed(other) != bytes@,
        },
{
    let mut fields: Vec<Vec<u8>> = Vec::new();
    let mut at: usize = 0;
    assert(bytes@.skip(0) =~= bytes@);
    assert(field_views(fields@) =~= Seq::<Seq<u8>>::empty());
    assert(forall|rest: Seq<Seq<u8>>| Seq::<Seq<u8>>::empty() + rest =~= rest);
    while at < bytes.len()
        invariant
            at <= bytes.len(),
            unframed(bytes@) == (match unframed(bytes@.skip(at as int)) {
                Some(rest) => Some(field_views(fields@) + rest),
                None => None,
            }),
        decreases bytes.len() - at,
    {
        let ghost tail = bytes@.skip(at as int);
        let ghost done = field_views(fields@);
        if bytes.len() - at < 8 {
            proof {
                assert(unframed(tail) is None);
                assert forall|other: Seq<Seq<u8>>| fits(other) implies framed(other) != bytes@ by {
                    if framed(other) == bytes@ {
                        lemma_unframe_after_frame(other);
                    }
                }
            }
            return None;
        }
        let length = u64_from_le_bytes(slice_subrange(bytes.as_slice(), at, at + 8));
        assert(bytes@.subrange(at as int, at + 8) =~= tail.take(8));
        if length > (bytes.len() - at - 8) as u64 {
            proof {
                assert(unframed(tail) is None);
                assert forall|other: Seq<Seq<u8>>| fits(other) implies framed(other) != bytes@ by {
                    if framed(other) == bytes@ {
                        lemma_unframe_after_frame(other);
                    }
                }
            }
            return None;
        }
        let from = at + 8;
        let to = from + length as usize;
        let field = copy_range(bytes, from, to);
        proof {
            assert(field@ =~= tail.subrange(8, 8 + length));
            assert(bytes@.skip(to as int) =~= tail.skip(8 + length));
            let next = unframed(bytes@.skip(to as int));
            if let Some(rest) = next {
                assert(field_views(fields@.push(field)) + rest =~= done + (seq![field@] + rest));
            }
        }
        fields.push(field);
        at = to;
    }
    proof {
        assert(bytes@.skip(at as int) =~= Seq::<u8>::empty());
        assert(field_views(fields@) + Seq::<Seq<u8>>::empty() =~= field_views(fields@));
        lemma_frame_after_unframe(bytes@);
    }
    Some(fields)
}

/// Different fields have different framings.
pub proof fn lemma_framed_is_injective(a: Seq<Seq<u8>>, b: Seq<Seq<u8>>)
    requires
        fits(a),
        fits(b),
        framed(a) == framed(b),
    ensures
        a == b,
{
    lemma_unframe_after_frame(a);
    lemma_unframe_after_frame(b);
}

/// One entry of an index file. Its path is held as the bytes of its text.
#[derive(Clone, Debug, PartialEq, Eq)]
pub struct EntryImage {
    pub path: Vec<u8>,
    pub content_ref: Vec<u8>,
    pub size: u64,
    pub modified_at: u64,
}

/// What an index file holds: the sync state and the entries.
#[derive(Clone, Debug, PartialEq, Eq)]
pub struct IndexImage {
    pub last_synced_revision: Option<u64>,
    pub read_write: bool,
    pub dirty: bool,
    pub entries: Vec<EntryImage>,
}

/// An entry of an index file as plain values.
pub struct EntryImageView {
    pub path: Seq<u8>,
    pub content_ref: Seq<u8>,
    pub size: u64,
    pub modified_at: u64,
}

/// The content of an index file as plain values.
pub struct IndexImageView {
    pub last_synced_revision: Option<u64>,
    pub read_write: bool,
    pub dirty: bool,
    pub entries: Seq<EntryImageView>,
}

impl View for EntryImage {
    type V = EntryImageView;

    open spec fn view(&self) -> EntryImageView {
        EntryImageView {
            path: self.path@,
            content_ref: self.content_ref@,
            size: self.size,
            modified_at: self.modified_at,
        }
    }
}

impl View for IndexImage {
    type V = IndexImageView;

    open spec fn view(&self) -> IndexImageView {
        IndexImageView {
            last_synced_revision: self.last_synced_revision,
            read_write: self.read_write,
            dirty: self.dirty,
            entries: self.entries@.map_values(|entry: EntryImage| entry@),
        }
    }
}

/// A flag as the byte that stands for it.
pub open spec fn flag_byte(flag: bool) -> u8 {
    if flag {
        1
    } else {
        0
    }
}

/// The field of the sync state: whether a revision was synced, the
/// revision (zero where none was), the mode and the dirty flag.
pub open spec fn state_field(image: IndexImageView) -> Seq<u8> {
    seq![flag_byte(image.last_synced_revision is Some)] + spec_u64_to_le_bytes(
        match image.last_synced_revision {
            Some(revision) => revision,
            None => 0,
        },
    ) + seq![flag_byte(image.read_write), flag_byte(image.dirty)]
}

/// The field of an entry's numbers: its size, then its time.
pub open spec fn meta_field(entry: EntryImageView) -> Seq<u8> {
    spec_u64_to_le_bytes(entry.size) + spec_u64_to_le_bytes(entry.modified_at)
}

/// The fields of the entries: for each its numbers, its hash and its path.
pub open spec fn entry_fields(entries: Seq<EntryImageView>) -> Seq<Seq<u8>> {
    Seq::new(
        3 * entries.len(),
        |i: int|
            if i % 3 == 0 {
                meta_field(entries[i / 3])
            } else if i % 3 == 1 {
                entries[i / 3].content_ref
            } else {
                entries[i / 3].path
            },
    )
}

/// The fields of an index file.
pub open spec fn image_fields(image: IndexImageView) -> Seq<Seq<u8>> {
    seq![state_field(image)] + entry_fields(image.entries)
}

/// The bytes of an index file.
pub open spec fn image_bytes(image: IndexImageView) -> Seq<u8> {
    framed(image_fields(image))
}

/// The length of every hash and path can be written as a 64-bit number.
pub open spec fn image_fits(image: IndexImageView) -> bool {
    forall|i: int|
        0 <= i < image.entries.len() ==> (#[trigger] image.entries[i]).path.len() <= u64::MAX
            && image.entries[i].content_ref.len() <= u64::MAX
}

proof fn lemma_image_fields_fit(image: IndexImageView)
    requires
        image_fits(image),
    ensures
        fits(image_fields(image)),
        image_fields(image).len() == 1 + 3 * image.entries.len(),
        image_fields(image)[0] == state_field(image),
        state_field(image).len() == 11,
        forall|k: int|
            0 <= k < image.entries.len() ==> {
                &&& (#[trigger] image_fields(image)[1 + 3 * k]) == meta_field(image.entries[k])
                &&& image_fields(image)[2 + 3 * k] == image.entries[k].content_ref
                &&& image_fields(image)[3 + 3 * k] == image.entries[k].path
                &&& meta_field(image.entries[k]).len() == 16
            },
{
    lemma_auto_spec_u64_to_from_le_bytes();
    let fields = image_fields(image);
    let tail = entry_fields(image.entries);
    assert forall|k: int| 0 <= k < image.entries.len() implies {
        &&& (#[trigger] fields[1 + 3 * k]) == meta_field(image.entries[k])
        &&& fields[2 + 3 * k] == image.entries[k].content_ref
        &&& fields[3 + 3 * k] == image.entries[k].path
        &&& meta_field(image.entries[k]).len() == 16
    } by {
        assert(fields[1 + 3 * k] == tail[3 * k]);
        assert(fields[2 + 3 * k] == tail[3 * k + 1]);
        assert(fields[3 + 3 * k] == tail[3 * k + 2]);
    }
    assert forall|i: int| 0 <= i < fields.len() implies (#[trigger] fields[i]).len() <= u64::MAX by {
        if i > 0 {
            let k = (i - 1) / 3;
            assert(fields[i] == tail[i - 1]);
            assert(0 <= k < image.entries.len());
            let entry = image.entries[k];
            assert(entry.path.len() <= u64::MAX);
        }
    }
}

fn flag_of(byte: u8) -> (flag: Option<bool>)
    ensures
        match flag {
            Some(flag) => flag_byte(flag) == byte,
            None => byte > 1,
        },
{
    if byte == 0 {
        Some(false)
    } else if byte == 1 {
        Some(true)
    } else {
        None
    }
}

fn byte_of(flag: bool) -> (byte: u8)
    ensures
        byte == flag_byte(flag),
{
    if flag {
        1
    } else {
        0
    }
}

/// The fields of an index file.
pub fn index_fields(image: &IndexImage) -> (fields: Vec<Vec<u8>>)
    ensures
        field_views(fields@) == image_fields(image@),
{
    let mut state: Vec<u8> = Vec::new();
    state.push(byte_of(image.last_synced_revision.is_some()));
    let revision = match image.last_synced_revision {
        Some(revision) => revision,
        None => 0,
    };
    append_bytes(&mut state, &u64_to_le_bytes(revision));
    state.push(byte_of(image.read_write));
    state.push(byte_of(image.dirty));
    assert(state@ =~= state_field(image@));
    let mut fields: Vec<Vec<u8>> = Vec::new();
    fields.push(state);
    let mut i: usize = 0;
    while i < image.entries.len()
        invariant
            i <= image.entries.len(),
            fields.len() == 1 + 3 * i,
            forall|k: int|
                0 <= k < fields.len() ==> (#[trigger] fields@[k])@ == image_fields(image@)[k],
        decreases image.entries.len() - i,
    {
        let entry = &image.entries[i];
        let mut meta = u64_to_le_bytes(entry.size);
        append_bytes(&mut meta, &u64_to_le_bytes(entry.modified_at));
        let ghost tail = entry_fields(image@.entries);
        proof {
            assert(image@.entries[i as int] == entry@);
            assert(image_fields(image@)[1 + 3 * i] == tail[3 * i]);
            assert(image_fields(image@)[2 + 3 * i] == tail[3 * i + 1]);
            assert(image_fields(image@)[3 + 3 * i] == tail[3 * i + 2]);
        }
        fields.push(meta);
        fields.push(copy_range(&entry.content_ref, 0, entry.content_ref.len()));
        fields.push(copy_range(&entry.path, 0, entry.path.len()));
        proof {
            assert(entry.content_ref@.subrange(0, entry.content_ref@.len() as int)
                =~= entry.content_ref@);
            assert(entry.path@.subrange(0, entry.path@.len() as int) =~= entry.path@);
        }
        i = i + 1;
    }
    assert(field_views(fields@) =~= image_fields(image@));
    fields
}

/// The bytes of an index file.
pub fn encode_index(image: &IndexImage) -> (bytes: Vec<u8>)
    ensures
        bytes@ == image_bytes(image@),
{
    frame(&index_fields(image))
}

/// Reads fields as the content of an index file. Fields that no index
/// file is made of are refused.
pub fn index_of_fields(fields: &Vec<Vec<u8>>) -> (image: Option<IndexImage>)
    ensures
        match image {
            Some(image) => image_fields(image@) == field_views(fields@) && image_fits(image@),
            None => forall|other: IndexImageView|
                image_fits(other) ==> image_fields(other) != field_views(fields@),
        },
{
    let ghost views = field_views(fields@);
    proof {
        lemma_auto_spec_u64_to_from_le_bytes();
        assert forall|other: IndexImageView| image_fits(other) && image_fields(other)
            == views implies {
            &&& views.len() == 1 + 3 * other.entries.len()
            &&& views[0] == state_field(other)
            &&& state_field(other).len() == 11
        } by {
            lemma_image_fields_fit(other);
        }
    }
    if fields.len() == 0 || (fields.len() - 1) % 3 != 0 {
        return None;
    }
    let state = &fields[0];
    if state.len() != 11 {
        return None;
    }
    assert(views[0] == state@);
    let revision = u64_from_le_bytes(slice_subrange(state.as_slice(), 1, 9));
    let (synced, read_write, dirty) = match (flag_of(state[0]), flag_of(state[9]), flag_of(state[10])) {
        (Some(synced), Some(read_write), Some(dirty)) => (synced, read_write, dirty),
        _ => {
            assert forall|other: IndexImageView| image_fits(other) implies image_fields(other)
                != views by {
                if image_fields(other) == views {
                    assert(state_field(other)[0] == state@[0]);
                    assert(state_field(other)[9] == state@[9]);
                    assert(state_field(other)[10] == state@[10]);
                }
            }
            return None;
        },
    };
    if !synced && revision != 0 {
        assert forall|other: IndexImageView| image_fits(other) implies image_fields(other)
            != views by {
            if image_fields(other) == views {
                assert(state_field(other)[0] == state@[0]);
                assert(state_field(other).subrange(1, 9) =~= spec_u64_to_le_bytes(0));
            }
        }
        return None;
    }
    let last_synced_revision = if synced { Some(revision) } else { None };
    let count = (fields.len() - 1) / 3;
    let mut entries: Vec<EntryImage> = Vec::new();
    let mut i: usize = 0;
    while i < count
        invariant
            i <= count,
            fields.len() == 1 + 3 * count,
            views == field_views(fields@),
            entries.len() == i,
            forall|k: int|
                0 <= k < i ==> {
                    &&& meta_field((#[trigger] entries@[k])@) == views[1 + 3 * k]
                    &&& entries@[k]@.content_ref == views[2 + 3 * k]
                    &&& entries@[k]@.path == views[3 + 3 * k]
                },
        decreases count - i,
    {
        let meta = &fields[1 + 3 * i];
        if meta.len() != 16 {
            assert forall|other: IndexImageView| image_fits(other) implies image_fields(other)
                != views by {
                if image_fields(other) == views {
                    lemma_image_fields_fit(other);
                    assert(image_fields(other)[1 + 3 * i] == meta_field(other.entries[i as int]));
                    assert(views[1 + 3 * i] == meta@);
                }
            }
            return None;
        }
        let size = u64_from_le_bytes(slice_subrange(meta.as_slice(), 0, 8));
        let modified_at = u64_from_le_bytes(slice_subrange(meta.as_slice(), 8, 16));
        let content_ref = copy_range(&fields[2 + 3 * i], 0, fields[2 + 3 * i].len());
        let path = copy_range(&fields[3 + 3 * i], 0, fields[3 + 3 * i].len());
        let entry = EntryImage { path, content_ref, size, modified_at };
        proof {
            lemma_auto_spec_u64_to_from_le_bytes();
            assert(views[1 + 3 * i] == meta@);
            assert(meta_field(entry@) =~= meta@.subrange(0, 8) + meta@.subrange(8, 16));
            assert(meta@.subrange(0, 8) + meta@.subrange(8, 16) =~= meta@);
            assert(entry@.content_ref =~= views[2 + 3 * i]);
            assert(entry@.path =~= views[3 + 3 * i]);
        }
        entries.push(entry);
        i = i + 1;
    }
    let image = IndexImage { last_synced_revision, read_write, dirty, entries };
    proof {
        lemma_auto_spec_u64_to_from_le_bytes();
        assert(state_field(image@) =~= state@) by {
            assert(state@.subrange(1, 9) == spec_u64_to_le_bytes(revision));
            assert(state@ =~= seq![state@[0]] + state@.subrange(1, 9) + seq![state@[9], state@[10]]);
        }
        let made = image_fields(image@);
        let tail = entry_fields(image@.entries);
        assert(made.len() == views.len());
        assert forall|j: int| 0 <= j < made.len() implies made[j] == views[j] by {
            if j > 0 {
                let k = (j - 1) / 3;
                assert(made[j] == tail[j - 1]);
                assert(image@.entries[k] == entries@[k]@);
                assert(meta_field(entries@[k]@) == views[1 + 3 * k]);
            }
        }
        assert(made =~= views);
        assert forall|k: int| 0 <= k < image@.entries.len() implies (
        #[trigger] image@.entries[k]).path.len() <= u64::MAX && image@.entries[k].content_ref.len()
            <= u64::MAX by {
            assert(image@.entries[k] == entries@[k]@);
            assert(entries@[k].path.len() <= usize::MAX);
            assert(entries@[k].content_ref.len() <= usize::MAX);
        }
    }
    Some(image)
}

/// Reads the bytes of an index file. Bytes that are the file of no index
/// are refused.
pub fn decode_index(bytes: &Vec<u8>) -> (image: Option<IndexImage>)
    ensures
        match image {
            Some(image) => image_bytes(image@) == bytes@ && image_fits(image@),
            None => forall|other: IndexImageView|
                image_fits(other) ==> image_bytes(other) != bytes@,
        },
{
    match unframe(bytes) {
        Some(fields) => {
            let image = index_of_fields(&fields);
            proof {
                if image is None {
                    assert forall|other: IndexImageView| image_fits(other) implies image_bytes(
                        other,
                    ) != bytes@ by {
                        if image_bytes(other) == bytes@ {
                            lemma_image_fields_fit(other);
                            lemma_frame_after_unframe(bytes@);
                            lemma_unframe_after_frame(image_fields(other));
                            assert forall|i: int| 0 <= i < fields@.len() implies (
                            #[trigger] field_views(fields@)[i]).len() <= u64::MAX by {
                                assert(fields@[i].len() <= usize::MAX);
                            }
                            lemma_unframe_after_frame(field_views(fields@));
                        }
                    }
                }
            }
            image
        },
        None => {
            proof {
                assert forall|other: IndexImageView| image_fits(other) implies image_bytes(other)
                    != bytes@ by {
                    lemma_image_fields_fit(other);
                }
            }
            None
        },
    }
}

/// An index file is read back as what was written to it.
pub proof fn lemma_index_round_trip(image: IndexImageView, read: Option<IndexImage>)
    requires
        image_fits(image),
        match read {
            Some(read) => image_bytes(read@) == image_bytes(image) && image_fits(read@),
            None => forall|other: IndexImageView|
                image_fits(other) ==> image_bytes(other) != image_bytes(image),
        },
    ensures
        read matches Some(read) && read@ == image,
{
    lemma_auto_spec_u64_to_from_le_bytes();
    match read {
        Some(read) => {
            let other = read@;
            lemma_image_fields_fit(image);
            lemma_image_fields_fit(other);
            lemma_framed_is_injective(image_fields(image), image_fields(other));
            assert(state_field(image) == state_field(other));
            assert(state_field(image)[0] == state_field(other)[0]);
            assert(state_field(image)[9] == state_field(other)[9]);
            assert(state_field(image)[10] == state_field(other)[10]);
            assert(state_field(image).subrange(1, 9) == state_field(other).subrange(1, 9));
            let lhs = match image.last_synced_revision {
                Some(revision) => revision,
                None => 0,
            };
            let rhs = match other.last_synced_revision {
                Some(revision) => revision,
                None => 0,
            };
            assert(state_field(image).subrange(1, 9) =~= spec_u64_to_le_bytes(lhs));
            assert(state_field(other).subrange(1, 9) =~= spec_u64_to_le_bytes(rhs));
            assert(lhs == rhs) by {
                assert(spec_u64_from_le_bytes(spec_u64_to_le_bytes(lhs)) == lhs);
                assert(spec_u64_from_le_bytes(spec_u64_to_le_bytes(rhs)) == rhs);
            }
            assert(image.entries.len() == other.entries.len());
            assert forall|k: int| 0 <= k < image.entries.len() implies image.entries[k]
                == other.entries[k] by {
                let a = image.entries[k];
                let b = other.entries[k];
                assert(image_fields(image)[1 + 3 * k] == meta_field(a));
                assert(image_fields(other)[1 + 3 * k] == meta_field(b));
                assert(image_fields(image)[2 + 3 * k] == a.content_ref);
                assert(image_fields(image)[3 + 3 * k] == a.path);
                assert(meta_field(a).subrange(0, 8) =~= spec_u64_to_le_bytes(a.size));
                assert(meta_field(b).subrange(0, 8) =~= spec_u64_to_le_bytes(b.size));
                assert(meta_field(a).subrange(8, 16) =~= spec_u64_to_le_bytes(a.modified_at));
                assert(meta_field(b).subrange(8, 16) =~= spec_u64_to_le_bytes(b.modified_at));
                assert(spec_u64_from_le_bytes(spec_u64_to_le_bytes(a.size)) == a.size);
                assert(spec_u64_from_le_bytes(spec_u64_to_le_bytes(b.size)) == b.size);
                assert(spec_u64_from_le_bytes(spec_u64_to_le_bytes(a.modified_at)) == a.modified_at);
                assert(spec_u64_from_le_bytes(spec_u64_to_le_bytes(b.modified_at)) == b.modified_at);
            }
            assert(image.entries =~= other.entries);
        },
        None => {
            assert(image_bytes(image) == image_bytes(image));
        },
    }
}

} // verus!
