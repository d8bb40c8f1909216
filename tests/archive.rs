use rom_res_rs::{Codepage, ResourceFile, RomResourceError};

fn codepage() -> Codepage {
    let table: Vec<char> = (0u32..256)
        .map(|b| if b < 128 { char::from_u32(b).unwrap() } else { char::from_u32(0x0410 + b - 128).unwrap() })
        .collect();
    Codepage::new(table).unwrap()
}

fn put_u32(buf: &mut Vec<u8>, at: usize, v: u32) {
    if buf.len() < at + 4 {
        buf.resize(at + 4, 0);
    }
    buf[at..at + 4].copy_from_slice(&v.to_le_bytes());
}

/// One row: reserved, offset, size, kind, sixteen name bytes.
fn row(offset: u32, size: u32, kind: u32, name: &[u8]) -> Vec<u8> {
    let mut r = vec![0xEEu8; 4];
    r.extend_from_slice(&offset.to_le_bytes());
    r.extend_from_slice(&size.to_le_bytes());
    r.extend_from_slice(&kind.to_le_bytes());
    let mut n = [0u8; 16];
    n[..name.len()].copy_from_slice(name);
    r.extend_from_slice(&n);
    r
}

/// A container with the given rows at offset 24 and the payload area after.
fn archive(root_offset: u32, root_size: u32, rows: &[Vec<u8>], total: usize) -> Vec<u8> {
    let mut buf = Vec::new();
    put_u32(&mut buf, 0, 0x3141_5926);
    put_u32(&mut buf, 4, root_offset);
    put_u32(&mut buf, 8, root_size);
    put_u32(&mut buf, 12, 0xABCD);
    put_u32(&mut buf, 16, 24);
    put_u32(&mut buf, 20, rows.len() as u32);
    for r in rows {
        buf.extend_from_slice(r);
    }
    if buf.len() < total {
        buf.resize(total, 0);
    }
    for i in 0..buf.len() {
        if i >= 24 + 32 * rows.len() {
            buf[i] = (i % 251) as u8;
        }
    }
    buf
}

#[test]
fn single_file_bytes_are_read_once() {
    let data = archive(0, 1, &[row(100, 5, 0, b"a.txt")], 200);
    let expected: Vec<u8> = data[100..105].to_vec();
    let mut f = ResourceFile::new(data, &codepage()).unwrap();
    assert!(!f.is_cached("a.txt"));
    let first = f.get_resource_bytes("a.txt").unwrap().to_vec();
    assert_eq!(first, expected);
    assert!(f.is_cached("a.txt"));
    let second = f.get_resource_bytes("a.txt").unwrap().to_vec();
    assert_eq!(second, first);
    assert_eq!(f.get_resource_list(), vec!["a.txt".to_string()]);
}

#[test]
fn flush_drops_payloads_and_keeps_index() {
    let data = archive(0, 1, &[row(100, 5, 0, b"a.txt")], 200);
    let mut f = ResourceFile::new(data, &codepage()).unwrap();
    let first = f.get_resource_bytes("a.txt").unwrap().to_vec();
    f.flush_cache();
    assert!(!f.is_cached("a.txt"));
    assert_eq!(f.get_resource_list(), vec!["a.txt".to_string()]);
    let again = f.get_resource_bytes("a.txt").unwrap().to_vec();
    assert!(f.is_cached("a.txt"));
    assert_eq!(again, first);
}

#[test]
fn unknown_row_kind_is_refused() {
    let data = archive(0, 1, &[row(100, 5, 2, b"a.txt")], 200);
    assert_eq!(ResourceFile::new(data, &codepage()).err(), Some(RomResourceError::UnknownResourceKind));
}

#[test]
fn wrong_magic_is_refused() {
    let mut data = archive(0, 1, &[row(100, 5, 0, b"a.txt")], 200);
    data[0] = 0x27;
    assert_eq!(ResourceFile::new(data, &codepage()).err(), Some(RomResourceError::IncorrectSignature));
}

#[test]
fn short_header_is_a_short_read() {
    assert_eq!(ResourceFile::new(vec![0x26, 0x59], &codepage()).err(), Some(RomResourceError::UnableToRead));
    let data = vec![0x26, 0x59, 0x41, 0x31, 0, 0, 0, 0];
    assert_eq!(ResourceFile::new(data, &codepage()).err(), Some(RomResourceError::UnableToRead));
}

#[test]
fn truncated_table_is_a_short_read() {
    let mut data = archive(0, 1, &[row(100, 5, 0, b"a.txt")], 0);
    data.truncate(24 + 20);
    assert_eq!(ResourceFile::new(data, &codepage()).err(), Some(RomResourceError::UnableToRead));
}

#[test]
fn missing_path_is_reported() {
    let data = archive(0, 1, &[row(100, 5, 0, b"a.txt")], 200);
    let mut f = ResourceFile::new(data, &codepage()).unwrap();
    assert_eq!(f.get_resource_bytes("b.txt").err(), Some(RomResourceError::NonExistentResource));
}

#[test]
fn range_past_the_end_is_a_short_read() {
    let data = archive(0, 1, &[row(190, 20, 0, b"a.txt")], 200);
    let mut f = ResourceFile::new(data, &codepage()).unwrap();
    assert_eq!(f.get_resource_bytes("a.txt").err(), Some(RomResourceError::UnableToRead));
    assert!(!f.is_cached("a.txt"));
}

#[test]
fn directories_prefix_their_children() {
    // rows: 0 dir "data" (children 2..4), 1 file "top.res", 2 file "data.bin", 3 file "alpha"
    let rows = [
        row(2, 2, 1, b"data"),
        row(300, 4, 0, b"top.res"),
        row(310, 3, 0, b"data.bin"),
        row(320, 2, 0, b"alpha"),
    ];
    let data = archive(0, 2, &rows, 400);
    let expected: Vec<u8> = data[310..313].to_vec();
    let mut f = ResourceFile::new(data, &codepage()).unwrap();
    assert_eq!(
        f.get_resource_list(),
        vec!["data/alpha".to_string(), "data/data.bin".to_string(), "top.res".to_string()]
    );
    assert_eq!(f.get_resource_bytes("data/data.bin").unwrap().to_vec(), expected);
    assert_eq!(f.get_resource_bytes("data").err(), Some(RomResourceError::NonExistentResource));
    assert_eq!(f.get_resource_bytes("data/").err(), Some(RomResourceError::NonExistentResource));
}

#[test]
fn listed_paths_are_unique_and_resolve() {
    let rows = [
        row(1, 3, 1, b"d"),
        row(200, 1, 0, b"x"),
        row(201, 1, 0, b"y"),
        row(202, 1, 0, b"z"),
        row(203, 1, 0, b"x"),
    ];
    let data = archive(0, 2, &rows, 300);
    let mut f = ResourceFile::new(data, &codepage()).unwrap();
    let list = f.get_resource_list();
    assert_eq!(list, vec!["d/x".to_string(), "d/y".to_string(), "d/z".to_string(), "x".to_string()]);
    for p in &list {
        assert!(f.get_resource_bytes(p).is_ok());
    }
}

#[test]
fn later_row_with_same_path_wins() {
    let rows = [row(200, 1, 0, b"x"), row(205, 2, 0, b"x")];
    let data = archive(0, 2, &rows, 300);
    let expected: Vec<u8> = data[205..207].to_vec();
    let mut f = ResourceFile::new(data, &codepage()).unwrap();
    assert_eq!(f.get_resource_list(), vec!["x".to_string()]);
    assert_eq!(f.get_resource_bytes("x").unwrap().to_vec(), expected);
}

#[test]
fn names_stop_at_the_first_zero_byte() {
    let mut name = [0u8; 16];
    name[..3].copy_from_slice(b"abc");
    name[4] = b'q';
    let data = archive(0, 1, &[row(100, 1, 0, &name)], 200);
    let f = ResourceFile::new(data, &codepage()).unwrap();
    assert_eq!(f.get_resource_list(), vec!["abc".to_string()]);
}

#[test]
fn full_sixteen_byte_name_is_kept() {
    let data = archive(0, 1, &[row(100, 1, 0, b"abcdefghijklmnop")], 200);
    let f = ResourceFile::new(data, &codepage()).unwrap();
    assert_eq!(f.get_resource_list(), vec!["abcdefghijklmnop".to_string()]);
}

#[test]
fn high_bytes_in_names_go_through_the_codepage() {
    let data = archive(0, 1, &[row(100, 1, 0, &[0x80, 0x81, b'1'])], 200);
    let mut f = ResourceFile::new(data, &codepage()).unwrap();
    assert_eq!(f.get_resource_list(), vec!["\u{410}\u{411}1".to_string()]);
    assert!(f.get_resource_bytes("\u{410}\u{411}1").is_ok());
}

#[test]
fn row_outside_the_table_is_malformed() {
    let data = archive(5, 1, &[row(100, 1, 0, b"a")], 200);
    assert_eq!(ResourceFile::new(data, &codepage()).err(), Some(RomResourceError::MalformedTree));
}

#[test]
fn directory_containing_itself_is_malformed() {
    let data = archive(0, 1, &[row(0, 1, 1, b"loop")], 200);
    assert_eq!(ResourceFile::new(data, &codepage()).err(), Some(RomResourceError::MalformedTree));
}

#[test]
fn more_roots_than_rows_is_malformed() {
    let data = archive(0, 3, &[row(100, 1, 0, b"a")], 200);
    assert_eq!(ResourceFile::new(data, &codepage()).err(), Some(RomResourceError::MalformedTree));
}

#[test]
fn empty_tree_lists_nothing() {
    let data = archive(0, 0, &[], 24);
    let f = ResourceFile::new(data, &codepage()).unwrap();
    assert!(f.get_resource_list().is_empty());
}

#[test]
fn codepage_needs_all_byte_values() {
    assert!(Codepage::new(vec!['a'; 255]).is_none());
    assert!(Codepage::new(vec!['a'; 256]).is_some());
}

#[test]
fn codepage_decodes_each_byte() {
    let cp = codepage();
    assert_eq!(cp.decode_byte(b'A'), 'A');
    assert_eq!(cp.decode_byte(0x85), '\u{415}');
    assert_eq!(cp.decode(&[b'x', 0x80, b'y'], 0, 3), "x\u{410}y".to_string());
    assert_eq!(cp.decode(&[b'x', 0x80, b'y'], 1, 2), "\u{410}".to_string());
}

#[test]
fn bad_kind_in_a_truncated_row_is_still_refused() {
    let mut data = archive(0, 1, &[row(100, 5, 2, b"a.txt")], 0);
    data.truncate(24 + 20);
    assert_eq!(ResourceFile::new(data, &codepage()).err(), Some(RomResourceError::UnknownResourceKind));
}

#[test]
fn row_cut_before_its_kind_is_a_short_read() {
    let mut data = archive(0, 1, &[row(100, 5, 2, b"a.txt")], 0);
    data.truncate(24 + 14);
    assert_eq!(ResourceFile::new(data, &codepage()).err(), Some(RomResourceError::UnableToRead));
}
