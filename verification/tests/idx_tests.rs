use wowsunpacker::idx::{derive_path, FileRecord, IdxFile, IdxHeader, Node};
use wowsunpacker::types::UnpackError;
use std::collections::HashMap;

/// Lays out an index file: header, node table, names, file records, trailer.
fn build_idx(nodes: &[(u64, u64, &str)], files: &[(u64, i64, i32, i64)], pkg: &str) -> Vec<u8> {
    let names_start = 60 + 32 * nodes.len();
    let names_len: usize = nodes.iter().map(|node| node.2.len() + 1).sum();
    let third_start = names_start + names_len;
    let trailer_start = third_start + 48 * files.len();
    let mut data = Vec::new();
    data.extend_from_slice(&[0x49, 0x53, 0x46, 0x50]);
    data.extend_from_slice(&[0u8; 12]);
    data.extend_from_slice(&(nodes.len() as i32).to_le_bytes());
    data.extend_from_slice(&(files.len() as i32).to_le_bytes());
    data.extend_from_slice(&[0u8; 16]);
    data.extend_from_slice(&((third_start - 16) as i64).to_le_bytes());
    data.extend_from_slice(&((trailer_start - 16) as i64).to_le_bytes());
    data.extend_from_slice(&[0u8; 4]);
    let mut name_at = names_start;
    for (i, node) in nodes.iter().enumerate() {
        let record_at = 60 + 32 * i;
        data.extend_from_slice(&[0u8; 8]);
        data.extend_from_slice(&((name_at - record_at) as u64).to_le_bytes());
        data.extend_from_slice(&node.0.to_le_bytes());
        data.extend_from_slice(&node.1.to_le_bytes());
        name_at += node.2.len() + 1;
    }
    for node in nodes {
        data.extend_from_slice(node.2.as_bytes());
        data.push(0);
    }
    for file in files {
        data.extend_from_slice(&file.0.to_le_bytes());
        data.extend_from_slice(&[0u8; 8]);
        data.extend_from_slice(&file.1.to_le_bytes());
        data.extend_from_slice(&[0u8; 8]);
        data.extend_from_slice(&file.2.to_le_bytes());
        data.extend_from_slice(&[0u8; 4]);
        data.extend_from_slice(&file.3.to_le_bytes());
    }
    data.extend_from_slice(&[0u8; 24]);
    data.extend_from_slice(pkg.as_bytes());
    data.push(0);
    data
}

fn node(name: &str, id: u64, parent: u64) -> Node {
    Node { name: name.to_string(), id, parent }
}

#[test]
fn minimal_idx_parses() {
    let data = build_idx(&[(1, 0xDEAD, "hello.txt")], &[(1, 0, 5, 5)], "demo.pkg");
    let idx = IdxFile::parse(&data).unwrap();
    assert_eq!(idx.pkg_name, "demo.pkg");
    assert_eq!(idx.files.len(), 1);
    let record = &idx.files[0];
    assert_eq!(record.path, "hello.txt");
    assert_eq!(record.pkg_name, "demo.pkg");
    assert_eq!(record.id, 1);
    assert_eq!(record.offset, 0);
    assert_eq!(record.size, 5);
    assert_eq!(record.uncompressed_size, 5);
}

#[test]
fn nested_names_make_a_path() {
    let data = build_idx(
        &[(12, 11, "c.bin"), (10, 99, "a"), (11, 10, "b")],
        &[(12, 10, 3, 3)],
        "nested.pkg",
    );
    let idx = IdxFile::parse(&data).unwrap();
    assert_eq!(idx.files.len(), 1);
    assert_eq!(idx.files[0].path, "a/b/c.bin");
    assert_eq!(idx.files[0].offset, 10);
}

#[test]
fn every_named_record_is_listed() {
    let data = build_idx(
        &[(1, 0, "gui"), (2, 1, "a.png"), (3, 1, "b.png"), (4, 0, "readme")],
        &[(2, 0, 1, 1), (3, 1, 2, 2), (4, 3, 3, 9)],
        "p.pkg",
    );
    let idx = IdxFile::parse(&data).unwrap();
    let paths: Vec<&str> = idx.files.iter().map(|record| record.path.as_str()).collect();
    assert_eq!(paths, vec!["gui/a.png", "gui/b.png", "readme"]);
    assert_eq!(idx.files[2].size, 3);
    assert_eq!(idx.files[2].uncompressed_size, 9);
}

#[test]
fn empty_idx_parses_to_nothing() {
    let data = build_idx(&[], &[], "empty.pkg");
    let idx = IdxFile::parse(&data).unwrap();
    assert_eq!(idx.pkg_name, "empty.pkg");
    assert!(idx.files.is_empty());
}

#[test]
fn zero_offsets_mean_byte_sixteen() {
    // The trailer at offset 0 starts at byte 16 of the file: its 24 bytes end
    // at byte 40, inside the header, and the name starts there.
    let mut data = build_idx(&[], &[], "x");
    data[40..48].copy_from_slice(&0i64.to_le_bytes());
    data[48..56].copy_from_slice(&0i64.to_le_bytes());
    // bytes 40.. hold the offsets, which are zero: there is no name
    assert_eq!(IdxFile::parse(&data).unwrap_err(), UnpackError::MalformedIdx);
}

#[test]
fn unnamed_records_are_skipped() {
    let data = build_idx(&[(1, 0, "known")], &[(7, 0, 1, 1), (1, 1, 1, 1), (8, 2, 1, 1)], "p.pkg");
    let idx = IdxFile::parse(&data).unwrap();
    assert_eq!(idx.files.len(), 1);
    assert_eq!(idx.files[0].path, "known");
    assert_eq!(idx.files[0].offset, 1);
}

#[test]
fn nodes_without_a_name_are_skipped() {
    let mut data = build_idx(&[(1, 0, "a"), (2, 1, "b")], &[(2, 0, 1, 1)], "p.pkg");
    // point the name of the first node at a zero byte
    let zero_at = 60 + 32 * 2 + 1;
    data[60 + 8..60 + 16].copy_from_slice(&((zero_at - 60) as u64).to_le_bytes());
    let idx = IdxFile::parse(&data).unwrap();
    assert_eq!(idx.files.len(), 1);
    assert_eq!(idx.files[0].path, "b");
}

#[test]
fn name_pointer_outside_the_file_is_no_name() {
    let mut data = build_idx(&[(1, 0, "a"), (2, 1, "b")], &[(2, 0, 1, 1)], "p.pkg");
    data[60 + 8..60 + 16].copy_from_slice(&u64::MAX.to_le_bytes());
    let idx = IdxFile::parse(&data).unwrap();
    assert_eq!(idx.files[0].path, "b");
}

#[test]
fn bad_magic_is_rejected() {
    let mut data = build_idx(&[(1, 0, "a")], &[(1, 0, 1, 1)], "p.pkg");
    data[3] = 0x51;
    assert_eq!(IdxFile::parse(&data).unwrap_err(), UnpackError::MalformedIdx);
    assert_eq!(IdxHeader::parse(&data).unwrap_err(), UnpackError::MalformedIdx);
}

#[test]
fn short_file_is_rejected() {
    let data = build_idx(&[], &[], "p.pkg");
    assert_eq!(IdxFile::parse(&data[..59]).unwrap_err(), UnpackError::MalformedIdx);
    assert_eq!(IdxFile::parse(&[]).unwrap_err(), UnpackError::MalformedIdx);
    assert_eq!(IdxHeader::parse(&data[..59]).unwrap_err(), UnpackError::MalformedIdx);
    assert!(IdxHeader::parse(&data[..60]).is_ok());
}

#[test]
fn header_fields_are_decoded() {
    let data = build_idx(&[(1, 0, "ab")], &[(1, 0, 1, 1), (1, 0, 1, 1)], "p.pkg");
    let header = IdxHeader::parse(&data).unwrap();
    assert_eq!(header.nodes, 1);
    assert_eq!(header.files, 2);
    assert_eq!(header.third_offset, 60 + 32 + 3 - 16);
    assert_eq!(header.trailer_offset, 60 + 32 + 3 + 96 - 16);
    assert!(header.check(data.len()));
    assert!(header.check(data.len() - 6));
    assert!(!header.check(data.len() - 7));
}

#[test]
fn negative_counts_are_rejected() {
    let mut data = build_idx(&[], &[], "p.pkg");
    data[16..20].copy_from_slice(&(-1i32).to_le_bytes());
    assert_eq!(IdxFile::parse(&data).unwrap_err(), UnpackError::MalformedIdx);
    let mut data = build_idx(&[], &[], "p.pkg");
    data[20..24].copy_from_slice(&(-1i32).to_le_bytes());
    assert_eq!(IdxFile::parse(&data).unwrap_err(), UnpackError::MalformedIdx);
}

#[test]
fn node_table_past_the_end_is_rejected() {
    let mut data = build_idx(&[], &[], "p.pkg");
    data[16..20].copy_from_slice(&1000i32.to_le_bytes());
    assert_eq!(IdxFile::parse(&data).unwrap_err(), UnpackError::MalformedIdx);
}

#[test]
fn record_table_past_the_end_is_rejected() {
    let mut data = build_idx(&[(1, 0, "a")], &[(1, 0, 1, 1)], "p.pkg");
    data[20..24].copy_from_slice(&1000i32.to_le_bytes());
    assert_eq!(IdxFile::parse(&data).unwrap_err(), UnpackError::MalformedIdx);
}

#[test]
fn trailer_before_the_records_is_rejected() {
    let mut data = build_idx(&[(1, 0, "a")], &[(1, 0, 1, 1)], "p.pkg");
    let third = i64::from_le_bytes(data[40..48].try_into().unwrap());
    data[48..56].copy_from_slice(&(third - 1).to_le_bytes());
    assert_eq!(IdxFile::parse(&data).unwrap_err(), UnpackError::MalformedIdx);
}

#[test]
fn negative_offsets_are_rejected() {
    let mut data = build_idx(&[], &[], "p.pkg");
    data[40..48].copy_from_slice(&(-8i64).to_le_bytes());
    assert_eq!(IdxFile::parse(&data).unwrap_err(), UnpackError::MalformedIdx);
}

#[test]
fn missing_package_name_is_rejected() {
    let mut data = build_idx(&[(1, 0, "a")], &[(1, 0, 1, 1)], "p.pkg");
    // without the terminator the name does not end
    data.pop();
    assert_eq!(IdxFile::parse(&data).unwrap_err(), UnpackError::MalformedIdx);
    // an empty name is no name
    let data = build_idx(&[(1, 0, "a")], &[(1, 0, 1, 1)], "");
    assert_eq!(IdxFile::parse(&data).unwrap_err(), UnpackError::MalformedIdx);
}

#[test]
fn duplicate_node_ids_are_rejected() {
    let data = build_idx(&[(1, 0, "a"), (1, 0, "b")], &[], "p.pkg");
    assert_eq!(IdxFile::parse(&data).unwrap_err(), UnpackError::MalformedIdx);
}

#[test]
fn node_that_is_its_own_parent_is_rejected() {
    let data = build_idx(&[(5, 5, "loop")], &[], "p.pkg");
    assert_eq!(IdxFile::parse(&data).unwrap_err(), UnpackError::MalformedIdx);
}

#[test]
fn parent_loop_is_rejected() {
    let data = build_idx(&[(1, 2, "a"), (2, 3, "b"), (3, 1, "c")], &[(1, 0, 1, 1)], "p.pkg");
    assert_eq!(IdxFile::parse(&data).unwrap_err(), UnpackError::MalformedIdx);
}

#[test]
fn parent_loop_that_no_record_walks_is_accepted() {
    let data = build_idx(
        &[(1, 2, "a"), (2, 1, "b"), (3, 0, "c")],
        &[(3, 0, 1, 1)],
        "p.pkg",
    );
    let idx = IdxFile::parse(&data).unwrap();
    assert_eq!(idx.files[0].path, "c");
}

#[test]
fn record_larger_than_unpacked_is_rejected() {
    let data = build_idx(&[(1, 0, "a")], &[(1, 0, 6, 5)], "p.pkg");
    assert_eq!(IdxFile::parse(&data).unwrap_err(), UnpackError::MalformedIdx);
    // also for a record without a name
    let data = build_idx(&[(1, 0, "a")], &[(9, 0, 6, 5)], "p.pkg");
    assert_eq!(IdxFile::parse(&data).unwrap_err(), UnpackError::MalformedIdx);
}

#[test]
fn node_parse_resolves_the_name_from_its_own_offset() {
    let data = build_idx(&[(1, 0, "first"), (2, 1, "second")], &[], "p.pkg");
    let first = Node::parse(&data, 60).unwrap();
    assert_eq!(first.name, "first");
    assert_eq!(first.id, 1);
    assert_eq!(first.parent, 0);
    let second = Node::parse(&data, 92).unwrap();
    assert_eq!(second.name, "second");
    assert_eq!(second.id, 2);
    assert_eq!(second.parent, 1);
    assert!(Node::parse(&data, data.len() - 31).is_none());
    assert!(Node::parse(&data, usize::MAX).is_none());
}

#[test]
fn walk_takes_no_more_steps_than_there_are_nodes() {
    let mut nodes: HashMap<u64, Node> = HashMap::new();
    nodes.insert(1, node("a", 1, 0));
    nodes.insert(2, node("b", 2, 1));
    nodes.insert(3, node("c", 3, 2));
    assert_eq!(derive_path(&nodes, 3).unwrap(), "a/b/c");
    assert_eq!(derive_path(&nodes, 2).unwrap(), "a/b");
    assert_eq!(derive_path(&nodes, 1).unwrap(), "a");
    // an id without a node has the empty path
    assert_eq!(derive_path(&nodes, 9).unwrap(), "");
    nodes.insert(1, node("a", 1, 3));
    assert!(derive_path(&nodes, 3).is_none());
}

#[test]
fn record_parse_reads_its_fields() {
    let data = build_idx(&[(1, 0, "dir"), (2, 1, "f")], &[(2, -3, 4, 5)], "p.pkg");
    let mut nodes: HashMap<u64, Node> = HashMap::new();
    nodes.insert(1, node("dir", 1, 0));
    nodes.insert(2, node("f", 2, 1));
    let at = 60 + 64 + 4 + 2;
    let record = FileRecord::parse(&data, at, &nodes, &"p.pkg".to_string()).unwrap().unwrap();
    assert_eq!(record.path, "dir/f");
    assert_eq!(record.offset, -3);
    assert_eq!(record.size, 4);
    assert_eq!(record.uncompressed_size, 5);
    assert_eq!(record.pkg_name, "p.pkg");
    let copy = record.clone();
    assert_eq!(copy.path, "dir/f");
    assert_eq!(copy.id, 2);
    assert_eq!(
        FileRecord::parse(&data, data.len() - 47, &nodes, &"p.pkg".to_string()).unwrap_err(),
        UnpackError::MalformedIdx
    );
}
