use emphasize::codec::{
    append_bytes, copy_range, decode_index, encode_index, frame, index_fields, index_of_fields,
    unframe, EntryImage, IndexImage,
};

fn sample() -> IndexImage {
    IndexImage {
        last_synced_revision: Some(0x0102),
        read_write: true,
        dirty: false,
        entries: vec![
            EntryImage { path: b"a.txt".to_vec(), content_ref: vec![9; 20], size: 1, modified_at: 7 },
            EntryImage { path: Vec::new(), content_ref: Vec::new(), size: u64::MAX, modified_at: 0 },
        ],
    }
}

#[test]
fn fields_are_written_behind_their_length() {
    let bytes = frame(&vec![b"ab".to_vec(), Vec::new()]);
    assert_eq!(bytes, vec![2, 0, 0, 0, 0, 0, 0, 0, b'a', b'b', 0, 0, 0, 0, 0, 0, 0, 0]);
    assert_eq!(frame(&Vec::new()), Vec::<u8>::new());
}

#[test]
fn fields_are_read_back() {
    let fields = vec![b"ab".to_vec(), Vec::new(), vec![0; 300]];
    assert_eq!(unframe(&frame(&fields)), Some(fields));
    assert_eq!(unframe(&Vec::new()), Some(Vec::new()));
}

#[test]
fn bytes_cut_short_are_refused() {
    let bytes = frame(&vec![b"abc".to_vec()]);
    assert_eq!(unframe(&bytes[..bytes.len() - 1].to_vec()), None);
    assert_eq!(unframe(&bytes[..5].to_vec()), None);
    assert_eq!(unframe(&vec![1, 0, 0, 0, 0, 0, 0, 0]), None);
    assert_eq!(unframe(&vec![0xff; 8]), None);
    let mut longer = bytes.clone();
    longer.push(0);
    assert_eq!(unframe(&longer), None);
}

#[test]
fn bytes_are_appended_and_cut() {
    let mut bytes = vec![1u8, 2];
    append_bytes(&mut bytes, &vec![3, 4]);
    append_bytes(&mut bytes, &Vec::new());
    assert_eq!(bytes, vec![1, 2, 3, 4]);
    assert_eq!(copy_range(&bytes, 1, 3), vec![2, 3]);
    assert_eq!(copy_range(&bytes, 2, 2), Vec::<u8>::new());
    assert_eq!(copy_range(&bytes, 0, 4), bytes);
}

#[test]
fn index_file_of_a_fresh_cache() {
    let image = IndexImage {
        last_synced_revision: None,
        read_write: true,
        dirty: false,
        entries: Vec::new(),
    };
    let bytes = encode_index(&image);
    assert_eq!(bytes, vec![11, 0, 0, 0, 0, 0, 0, 0, 0, 0, 0, 0, 0, 0, 0, 0, 0, 1, 0]);
    assert_eq!(decode_index(&bytes), Some(image));
}

#[test]
fn index_file_has_three_fields_per_entry() {
    let fields = index_fields(&sample());
    assert_eq!(fields.len(), 7);
    assert_eq!(fields[0], vec![1, 2, 1, 0, 0, 0, 0, 0, 0, 1, 0]);
    assert_eq!(fields[1], vec![1, 0, 0, 0, 0, 0, 0, 0, 7, 0, 0, 0, 0, 0, 0, 0]);
    assert_eq!(fields[2], vec![9; 20]);
    assert_eq!(fields[3], b"a.txt".to_vec());
    assert_eq!(fields[4], vec![0xff, 0xff, 0xff, 0xff, 0xff, 0xff, 0xff, 0xff, 0, 0, 0, 0, 0, 0, 0, 0]);
    assert_eq!(index_of_fields(&fields), Some(sample()));
}

#[test]
fn index_file_is_read_back() {
    let image = sample();
    assert_eq!(decode_index(&encode_index(&image)), Some(image));
    let dirty = IndexImage { dirty: true, read_write: false, ..sample() };
    assert_eq!(decode_index(&encode_index(&dirty)), Some(dirty));
}

#[test]
fn damaged_index_file_is_refused() {
    let bytes = encode_index(&sample());
    assert_eq!(decode_index(&bytes[..bytes.len() - 1].to_vec()), None);
    assert_eq!(decode_index(&Vec::new()), None);
    let state = vec![1, 2, 1, 0, 0, 0, 0, 0, 0, 1, 0];
    assert_eq!(index_of_fields(&vec![state.clone(), vec![0; 16]]), None);
    assert_eq!(index_of_fields(&vec![state.clone(), vec![0; 15], Vec::new(), Vec::new()]), None);
    assert_eq!(index_of_fields(&vec![state[..10].to_vec()]), None);
    assert_eq!(index_of_fields(&vec![vec![2, 0, 0, 0, 0, 0, 0, 0, 0, 1, 0]]), None);
    assert_eq!(index_of_fields(&vec![vec![1, 0, 0, 0, 0, 0, 0, 0, 0, 7, 0]]), None);
    assert_eq!(index_of_fields(&vec![vec![1, 0, 0, 0, 0, 0, 0, 0, 0, 1, 9]]), None);
    assert_eq!(index_of_fields(&vec![vec![0, 5, 0, 0, 0, 0, 0, 0, 0, 1, 0]]), None);
    assert_eq!(
        index_of_fields(&vec![vec![0, 0, 0, 0, 0, 0, 0, 0, 0, 0, 1]]),
        Some(IndexImage {
            last_synced_revision: None,
            read_write: false,
            dirty: true,
            entries: Vec::new()
        })
    );
}
