use flate2::write::DeflateEncoder;
use flate2::Compression;
use std::io::Write;
use wowsunpacker::extract::extract_file;
use wowsunpacker::idx::FileRecord;
use wowsunpacker::types::UnpackError;

fn record(offset: i64, size: i32, uncompressed_size: i64) -> FileRecord {
    FileRecord {
        pkg_name: "demo.pkg".to_string(),
        path: "file".to_string(),
        id: 1,
        offset,
        size,
        uncompressed_size,
    }
}

fn deflate(bytes: &[u8]) -> Vec<u8> {
    let mut encoder = DeflateEncoder::new(Vec::new(), Compression::best());
    encoder.write_all(bytes).unwrap();
    encoder.finish().unwrap()
}

#[test]
fn stored_record_is_copied() {
    assert_eq!(extract_file(&record(0, 5, 5), b"HELLO").unwrap(), b"HELLO");
    let pkg = b"0123456789XYZ---";
    assert_eq!(extract_file(&record(10, 3, 3), pkg).unwrap(), b"XYZ");
    assert_eq!(extract_file(&record(16, 0, 0), pkg).unwrap(), b"");
}

#[test]
fn compressed_record_is_inflated() {
    let text = b"Hello, world! Hello, world! Hello, world! Hello, world!";
    let packed = deflate(text);
    assert!(packed.len() < text.len());
    let mut pkg = vec![0xaa; 7];
    pkg.extend_from_slice(&packed);
    pkg.extend_from_slice(&[0xbb; 9]);
    let record = record(7, packed.len() as i32, text.len() as i64);
    assert_eq!(extract_file(&record, &pkg).unwrap(), text);
    assert_eq!(record.unpack(packed).unwrap(), text);
}

#[test]
fn record_past_the_package_is_out_of_bounds() {
    let pkg = vec![0u8; 200];
    assert_eq!(extract_file(&record(100, 1000, 1000), &pkg).unwrap_err(), UnpackError::OutOfBounds);
    assert_eq!(extract_file(&record(200, 1, 1), &pkg).unwrap_err(), UnpackError::OutOfBounds);
    assert_eq!(extract_file(&record(201, 0, 0), &pkg).unwrap_err(), UnpackError::OutOfBounds);
    assert!(extract_file(&record(199, 1, 1), &pkg).is_ok());
    assert!(extract_file(&record(200, 0, 0), &pkg).is_ok());
}

#[test]
fn negative_offset_or_size_is_out_of_bounds() {
    let pkg = vec![0u8; 20];
    assert_eq!(extract_file(&record(-1, 2, 2), &pkg).unwrap_err(), UnpackError::OutOfBounds);
    assert_eq!(extract_file(&record(3, -2, 2), &pkg).unwrap_err(), UnpackError::OutOfBounds);
    assert_eq!(
        extract_file(&record(i64::MAX, i32::MAX, i64::MAX), &pkg).unwrap_err(),
        UnpackError::OutOfBounds
    );
}

#[test]
fn byte_range_is_offset_and_size() {
    assert_eq!(record(10, 3, 3).byte_range(13), Ok((10, 3)));
    assert_eq!(record(10, 3, 3).byte_range(12), Err(UnpackError::OutOfBounds));
    assert_eq!(record(0, 0, 0).byte_range(0), Ok((0, 0)));
    assert_eq!(record(5, 7, 90).byte_range(u64::MAX), Ok((5, 7)));
}

#[test]
fn stream_shorter_than_declared_is_refused() {
    let text = b"aaaaaaaaaaaaaaaaaaaaaaaaaaaaaaaaaaaaaaaaaaaaaaaa";
    let packed = deflate(text);
    let record = record(0, packed.len() as i32, text.len() as i64 + 1);
    assert_eq!(extract_file(&record, &packed).unwrap_err(), UnpackError::Decompress);
}

#[test]
fn stream_longer_than_declared_is_refused() {
    let text = b"aaaaaaaaaaaaaaaaaaaaaaaaaaaaaaaaaaaaaaaaaaaaaaaa";
    let packed = deflate(text);
    let record = record(0, packed.len() as i32, text.len() as i64 - 1);
    assert_eq!(extract_file(&record, &packed).unwrap_err(), UnpackError::Decompress);
}

#[test]
fn corrupt_stream_is_refused() {
    let raw = vec![0xff; 16];
    assert_eq!(record(0, 16, 64).unpack(raw).unwrap_err(), UnpackError::Decompress);
}

#[test]
fn truncated_stream_is_refused() {
    let text: Vec<u8> = (0..200u8).collect();
    let packed = deflate(&text);
    let cut = packed[..packed.len() / 2].to_vec();
    let record = record(0, cut.len() as i32, text.len() as i64);
    assert_eq!(record.unpack(cut).unwrap_err(), UnpackError::Decompress);
}

#[test]
fn short_read_is_an_io_error() {
    assert_eq!(record(0, 5, 5).unpack(b"HELL".to_vec()).unwrap_err(), UnpackError::IoRead);
    assert_eq!(record(0, 5, 9).unpack(b"HELLO!".to_vec()).unwrap_err(), UnpackError::IoRead);
    assert_eq!(record(0, -1, 9).unpack(Vec::new()).unwrap_err(), UnpackError::IoRead);
}

#[test]
fn finish_checks_what_was_unpacked() {
    let compressed = record(0, 2, 4);
    assert_eq!(compressed.finish(vec![1, 2], Some(vec![9, 8, 7, 6])).unwrap(), vec![9, 8, 7, 6]);
    assert_eq!(
        compressed.finish(vec![1, 2], Some(vec![9, 8, 7])).unwrap_err(),
        UnpackError::Decompress
    );
    assert_eq!(
        compressed.finish(vec![1, 2], Some(vec![9, 8, 7, 6, 5])).unwrap_err(),
        UnpackError::Decompress
    );
    assert_eq!(compressed.finish(vec![1, 2], None).unwrap_err(), UnpackError::Decompress);
    assert_eq!(compressed.finish(vec![1], Some(vec![9, 8, 7, 6])).unwrap_err(), UnpackError::IoRead);
    let stored = record(0, 2, 2);
    assert!(stored.stored());
    assert!(!compressed.stored());
    assert_eq!(stored.finish(vec![1, 2], Some(vec![5, 5])).unwrap(), vec![1, 2]);
    assert_eq!(stored.finish(vec![1, 2], None).unwrap(), vec![1, 2]);
}
