use rezdir::{
    parse_u32_decimal, read_directory_entries_recursive, ByteCursor, Entry, EntryType, Error,
    File, FileHeader, MAX_DIRECTORY_DEPTH,
};

fn push_u32_le(out: &mut Vec<u8>, x: u32) {
    out.extend_from_slice(&x.to_le_bytes());
}

fn padded(text: &[u8], len: usize, pad: u8) -> Vec<u8> {
    let mut v = text.to_vec();
    while v.len() < len {
        v.push(pad);
    }
    v
}

/// The 127-byte prefix every header opens with; `marker` selects the
/// variant byte at offset 126.
fn header_prefix(marker: u8) -> Vec<u8> {
    let mut d = vec![0x0D, 0x0A];
    d.extend_from_slice(&padded(b"FileType", 60, b' '));
    d.extend_from_slice(&[0x0D, 0x0A]);
    d.extend_from_slice(&padded(b"A Title", 60, b' '));
    d.extend_from_slice(&[0x0D, 0x0A, marker]);
    d
}

fn header_tail(root_pos: u32, root_size: u32) -> Vec<u8> {
    let mut d = Vec::new();
    push_u32_le(&mut d, root_pos);
    push_u32_le(&mut d, root_size);
    push_u32_le(&mut d, 555); // root dir time
    push_u32_le(&mut d, 0); // next write position
    push_u32_le(&mut d, 777); // archive time
    push_u32_le(&mut d, 0);
    push_u32_le(&mut d, 0);
    push_u32_le(&mut d, 0);
    push_u32_le(&mut d, 0);
    d.push(1); // is_sorted
    d
}

fn header_v1(root_pos: u32, root_size: u32) -> Vec<u8> {
    let mut d = header_prefix(0x1A);
    push_u32_le(&mut d, 1);
    d.extend_from_slice(&header_tail(root_pos, root_size));
    d
}

fn header_v2(root_pos: u32, root_size: u32) -> Vec<u8> {
    let mut d = header_prefix(0x1A);
    push_u32_le(&mut d, 99); // not 1: take the longer shape
    d.extend_from_slice(&[0, 0, 0]); // historical filler
    push_u32_le(&mut d, 2);
    d.extend_from_slice(&header_tail(root_pos, root_size));
    d
}

fn encoded_header(
    head: u8,
    tail: u8,
    encode: &[u8],
    detect_head: u8,
    detect_encode: &[u8],
    detect_tail: u8,
    version: u32,
) -> Vec<u8> {
    let mut d = header_prefix(0x2A);
    d.push(head);
    d.extend_from_slice(&padded(encode, 32, 0));
    d.push(tail);
    d.push(detect_head);
    d.extend_from_slice(&padded(detect_encode, 32, 0));
    d.push(detect_tail);
    push_u32_le(&mut d, version);
    d.extend_from_slice(&header_tail(0, 0));
    d
}

fn good_encoded_header() -> Vec<u8> {
    let detect = format!("{}", 123u32 ^ 0x016B4423);
    encoded_header(0x40, 0x50, b"123", 0x40 ^ 0x11, detect.as_bytes(), 0x50 ^ 0x11, 1)
}

fn resource_record(
    pos: u32,
    size: u32,
    time: u32,
    id: u32,
    stored_ext: [u8; 4],
    name: &[u8],
    desc: &[u8],
    keys: &[u32],
) -> Vec<u8> {
    let mut d = Vec::new();
    push_u32_le(&mut d, 0); // resource type code
    push_u32_le(&mut d, pos);
    push_u32_le(&mut d, size);
    push_u32_le(&mut d, time);
    push_u32_le(&mut d, id);
    d.extend_from_slice(&stored_ext);
    push_u32_le(&mut d, keys.len() as u32);
    d.extend_from_slice(name);
    d.push(0);
    d.extend_from_slice(desc);
    d.push(0);
    for k in keys {
        push_u32_le(&mut d, *k);
    }
    d
}

fn directory_record(pos: u32, size: u32, time: u32, name: &[u8]) -> Vec<u8> {
    let mut d = Vec::new();
    push_u32_le(&mut d, 1); // directory type code
    push_u32_le(&mut d, pos);
    push_u32_le(&mut d, size);
    push_u32_le(&mut d, time);
    d.extend_from_slice(name);
    d.push(0);
    d
}

#[test]
fn header_v1_fields_recovered() {
    let d = header_v1(0xAABBCCDD, 0x11223344);
    let mut c = ByteCursor::new(&d);
    let h = FileHeader::try_read(&mut c).expect("header should parse");
    assert_eq!(h.version, 1);
    assert_eq!(h.root_dir_position, 0xAABBCCDD);
    assert_eq!(h.root_dir_size, 0x11223344);
    assert_eq!(h.root_dir_time, 555);
    assert_eq!(h.time, 777);
    assert!(h.is_sorted);
    assert_eq!(h.file_type.as_bytes(), b"FileType");
    assert_eq!(h.user_title.as_bytes(), b"A Title");
}

#[test]
fn header_v2_fields_recovered() {
    let d = header_v2(0x01020304, 0x0A0B0C0D);
    let mut c = ByteCursor::new(&d);
    let h = FileHeader::try_read(&mut c).expect("header should parse");
    assert_eq!(h.version, 2);
    assert_eq!(h.root_dir_position, 0x01020304);
    assert_eq!(h.root_dir_size, 0x0A0B0C0D);
}

#[test]
fn header_alternate_separators_accepted() {
    let mut d = header_v1(4, 0);
    d[0] = b'&';
    d[1] = b'#';
    d[62] = b'!';
    d[63] = b'"';
    d[124] = b'%';
    d[125] = b'\'';
    let mut c = ByteCursor::new(&d);
    let h = FileHeader::try_read(&mut c).expect("alternate separators are tolerated");
    assert_eq!(h.version, 1);
}

#[test]
fn header_bad_separator_rejected() {
    let mut d = header_v1(0, 0);
    d[1] = b'X';
    let mut c = ByteCursor::new(&d);
    let e = FileHeader::try_read(&mut c).unwrap_err();
    match e {
        Error::InvalidControlByte { index, expected_one_of, obtained } => {
            assert_eq!(index, 1);
            assert_eq!(expected_one_of, [0x0A, b'#']);
            assert_eq!(obtained, b'X');
        },
        other => panic!("wrong error: {:?}", other),
    }
}

#[test]
fn header_bad_version_rejected() {
    let mut d = header_prefix(0x1A);
    push_u32_le(&mut d, 99);
    d.extend_from_slice(&[0, 0, 0]);
    push_u32_le(&mut d, 77); // must be 2
    d.extend_from_slice(&header_tail(0, 0));
    let mut c = ByteCursor::new(&d);
    let e = FileHeader::try_read(&mut c).unwrap_err();
    assert!(matches!(e, Error::InvalidVersion { expected: 2, obtained: 77 }));
}

#[test]
fn encoded_header_parses() {
    let d = good_encoded_header();
    let mut c = ByteCursor::new(&d);
    let h = FileHeader::try_read(&mut c).expect("valid encoded header should parse");
    assert_eq!(h.version, 1);
}

#[test]
fn encoded_header_detect_head_mismatch() {
    let detect = format!("{}", 123u32 ^ 0x016B4423);
    let d = encoded_header(0x40, 0x50, b"123", 0x41, detect.as_bytes(), 0x50 ^ 0x11, 1);
    let mut c = ByteCursor::new(&d);
    let e = FileHeader::try_read(&mut c).unwrap_err();
    assert!(matches!(e, Error::InvalidDetectHead { head: 0x40, detect_head: 0x41 }));
}

#[test]
fn encoded_header_detect_tail_mismatch() {
    let detect = format!("{}", 123u32 ^ 0x016B4423);
    let d = encoded_header(0x40, 0x50, b"123", 0x40 ^ 0x11, detect.as_bytes(), 0x99, 1);
    let mut c = ByteCursor::new(&d);
    let e = FileHeader::try_read(&mut c).unwrap_err();
    assert!(matches!(e, Error::InvalidDetectTail { tail: 0x50, detect_tail: 0x99 }));
}

#[test]
fn encoded_header_value_mismatch() {
    let d = encoded_header(0x40, 0x50, b"123", 0x40 ^ 0x11, b"124", 0x50 ^ 0x11, 1);
    let mut c = ByteCursor::new(&d);
    let e = FileHeader::try_read(&mut c).unwrap_err();
    match e {
        Error::EncodeValueMismatch { encode_value, detect_encode_value } => {
            assert_eq!(encode_value, 123);
            assert_eq!(detect_encode_value, 124);
        },
        other => panic!("wrong error: {:?}", other),
    }
}

#[test]
fn encoded_header_bad_utf8_token() {
    let detect = format!("{}", 123u32 ^ 0x016B4423);
    let d = encoded_header(0x40, 0x50, &[0xFF, 0xFE], 0x40 ^ 0x11, detect.as_bytes(), 0x50 ^ 0x11, 1);
    let mut c = ByteCursor::new(&d);
    let e = FileHeader::try_read(&mut c).unwrap_err();
    match e {
        Error::InvalidEncodeUtf8 { detection_value, bytes } => {
            assert!(!detection_value);
            assert_eq!(bytes, vec![0xFF, 0xFE]);
        },
        other => panic!("wrong error: {:?}", other),
    }
}

#[test]
fn encoded_header_non_numeric_token() {
    let detect = format!("{}", 123u32 ^ 0x016B4423);
    let d = encoded_header(0x40, 0x50, b"12a", 0x40 ^ 0x11, detect.as_bytes(), 0x50 ^ 0x11, 1);
    let mut c = ByteCursor::new(&d);
    let e = FileHeader::try_read(&mut c).unwrap_err();
    match e {
        Error::InvalidEncodeInteger { detection_value, string } => {
            assert!(!detection_value);
            assert_eq!(string, "12a");
        },
        other => panic!("wrong error: {:?}", other),
    }
}

#[test]
fn parse_decimal_tokens() {
    assert_eq!(parse_u32_decimal(b"123"), Some(123));
    assert_eq!(parse_u32_decimal(b"+7"), Some(7));
    assert_eq!(parse_u32_decimal(b"007"), Some(7));
    assert_eq!(parse_u32_decimal(b"4294967295"), Some(u32::MAX));
    assert_eq!(parse_u32_decimal(b"4294967296"), None);
    assert_eq!(parse_u32_decimal(b""), None);
    assert_eq!(parse_u32_decimal(b"+"), None);
    assert_eq!(parse_u32_decimal(b"12a"), None);
    assert_eq!(parse_u32_decimal(b"-1"), None);
}

#[test]
fn round_trip_block_order_and_fields() {
    // A root block of two resources around one nested directory; the
    // nested block holds a single resource. Decoding must reproduce all
    // entries in order with every field equal to the inputs.
    let header_len: u32 = 168;

    let child = resource_record(900, 10, 33, 42, *b"dat\0", b"inner", b"deep one", &[7, 8, 9]);
    let child_len = child.len() as u32;

    let res1 = resource_record(400, 20, 11, 1, *b"txt\0", b"first", b"", &[]);
    let res2 = resource_record(500, 30, 22, 2, *b"xcp\0", b"second", b"another", &[5]);

    // The child block sits right after the root block.
    let mut root = Vec::new();
    root.extend_from_slice(&res1);
    let dir_pos_patch = root.len();
    root.extend_from_slice(&directory_record(0, child_len, 44, b"sub"));
    root.extend_from_slice(&res2);
    let root_len = root.len() as u32;

    let child_pos = header_len + root_len;
    // Patch the directory record's position now that it is known.
    root[dir_pos_patch + 4..dir_pos_patch + 8].copy_from_slice(&child_pos.to_le_bytes());

    let mut data = header_v1(header_len, root_len);
    assert_eq!(data.len() as u32, header_len);
    data.extend_from_slice(&root);
    data.extend_from_slice(&child);

    let f = File::try_read(&data).expect("archive should decode");
    assert_eq!(f.version, 1);
    assert_eq!(f.file_type, "FileType");
    assert_eq!(f.user_title, "A Title");
    assert_eq!(f.time, 777);
    assert_eq!(f.root_entries.len(), 3);

    match &f.root_entries[0] {
        Entry::Resource(r) => {
            assert_eq!(r.header.entry_type, EntryType::Resource);
            assert_eq!(r.header.position, 400);
            assert_eq!(r.header.size, 20);
            assert_eq!(r.header.time, 11);
            assert_eq!(r.id, 1);
            assert_eq!(r.extension, "txt");
            assert_eq!(r.name, "first");
            assert_eq!(r.description, "");
            assert!(r.keys.is_empty());
        },
        other => panic!("expected resource, got {:?}", other),
    }
    match &f.root_entries[1] {
        Entry::Directory(dir) => {
            assert_eq!(dir.header.entry_type, EntryType::Directory);
            assert_eq!(dir.header.position, child_pos);
            assert_eq!(dir.header.size, child_len);
            assert_eq!(dir.header.time, 44);
            assert_eq!(dir.name, "sub");
            assert_eq!(dir.entries.len(), 1);
            match &dir.entries[0] {
                Entry::Resource(r) => {
                    assert_eq!(r.id, 42);
                    assert_eq!(r.extension, "tad");
                    assert_eq!(r.name, "inner");
                    assert_eq!(r.description, "deep one");
                    assert_eq!(r.keys, vec![7, 8, 9]);
                },
                other => panic!("expected resource, got {:?}", other),
            }
        },
        other => panic!("expected directory, got {:?}", other),
    }
    match &f.root_entries[2] {
        Entry::Resource(r) => {
            assert_eq!(r.id, 2);
            assert_eq!(r.extension, "pcx");
            assert_eq!(r.name, "second");
            assert_eq!(r.keys, vec![5]);
        },
        other => panic!("expected resource, got {:?}", other),
    }
}

#[test]
fn empty_block_decodes_to_no_entries() {
    let data = header_v1(168, 0);
    let f = File::try_read(&data).expect("archive with empty root should decode");
    assert!(f.root_entries.is_empty());
}

#[test]
fn unknown_entry_type_fails() {
    let mut block = Vec::new();
    push_u32_le(&mut block, 2); // neither resource nor directory
    push_u32_le(&mut block, 0);
    push_u32_le(&mut block, 0);
    push_u32_le(&mut block, 0);
    let mut data = header_v1(168, block.len() as u32);
    data.extend_from_slice(&block);
    let e = File::try_read(&data).unwrap_err();
    assert!(matches!(e, Error::UnknownEntryType { type_code: 2 }));
}

#[test]
fn out_of_bounds_block_fails() {
    let data = header_v1(100_000, 16);
    let e = File::try_read(&data).unwrap_err();
    assert!(matches!(e, Error::UnexpectedEof));
}

#[test]
fn out_of_bounds_directory_entry_fails() {
    let dir = directory_record(90_000, 50, 1, b"ghost");
    let mut data = header_v1(168, dir.len() as u32);
    data.extend_from_slice(&dir);
    let e = File::try_read(&data).unwrap_err();
    assert!(matches!(e, Error::UnexpectedEof));
}

#[test]
fn self_referential_directory_hits_depth_bound() {
    let dir = directory_record(168, 21, 1, b"loop");
    assert_eq!(dir.len(), 21);
    let mut data = header_v1(168, 21);
    data.extend_from_slice(&dir);
    let e = File::try_read(&data).unwrap_err();
    assert!(matches!(e, Error::TooDeep));
}

#[test]
fn truncated_entry_header_fails() {
    // A block that ends inside an entry prologue is an error, not a clean
    // end of the run.
    let mut block = Vec::new();
    push_u32_le(&mut block, 0);
    push_u32_le(&mut block, 0); // only 8 of 16 prologue bytes
    let mut data = header_v1(168, block.len() as u32);
    data.extend_from_slice(&block);
    let e = File::try_read(&data).unwrap_err();
    assert!(matches!(e, Error::UnexpectedEof));
}

#[test]
fn block_reader_direct_bounds() {
    let data = [0u8; 8];
    let e = read_directory_entries_recursive(&data, 4, 8, MAX_DIRECTORY_DEPTH).unwrap_err();
    assert!(matches!(e, Error::UnexpectedEof));
    let ok = read_directory_entries_recursive(&data, 8, 0, MAX_DIRECTORY_DEPTH).unwrap();
    assert!(ok.is_empty());
}

#[test]
fn entry_name_forms() {
    let res = resource_record(0, 0, 0, 9, *b"txt\0", b"notes", b"", &[]);
    let mut data = header_v1(168, res.len() as u32);
    data.extend_from_slice(&res);
    let f = File::try_read(&data).unwrap();
    assert_eq!(f.root_entries[0].name(), "notes.txt");

    let dir = directory_record(168, 0, 0, b"folder");
    let mut data2 = header_v1(168, dir.len() as u32);
    // A directory whose block is empty: point it at a zero-length range.
    data2.extend_from_slice(&dir);
    let f2 = File::try_read(&data2).unwrap();
    assert_eq!(f2.root_entries[0].name(), "folder");
}

#[test]
fn encoded_header_wrong_version_rejected() {
    let detect = format!("{}", 123u32 ^ 0x016B4423);
    let d = encoded_header(0x40, 0x50, b"123", 0x40 ^ 0x11, detect.as_bytes(), 0x50 ^ 0x11, 2);
    let mut c = ByteCursor::new(&d);
    let e = FileHeader::try_read(&mut c).unwrap_err();
    assert!(matches!(e, Error::InvalidVersion { expected: 1, obtained: 2 }));
}

#[test]
fn truncated_header_fails() {
    let d = header_v1(0, 0);
    let mut c = ByteCursor::new(&d[..100]);
    let e = FileHeader::try_read(&mut c).unwrap_err();
    assert!(matches!(e, Error::UnexpectedEof));
}
