use wowsunpacker::cursor::{
    read_i32_le, read_i64_le, read_null_terminated_string, read_u32_le, read_u64_le, take_string,
};

#[test]
fn test_read_string() {
    let mut hello_world = vec![
        72, 101, 108, 108, 111, 32, 87, 111, 114, 108, 100, 00, 11, 22, 123, 44,
    ];

    // read until 0
    let output = read_null_terminated_string(&hello_world, 0);
    assert!(output.is_some());
    let output = output.unwrap();
    assert_eq!(output, "Hello World");

    // read with offset
    let output = read_null_terminated_string(&hello_world, 6);
    assert!(output.is_some());
    let output = output.unwrap();
    assert_eq!(output, "World");

    // read the first part
    hello_world[5] = 0;
    let output = read_null_terminated_string(&hello_world, 0);
    assert!(output.is_some());
    let output = output.unwrap();
    assert_eq!(output, "Hello");

    // string start from 0
    hello_world[0] = 0;
    let output = read_null_terminated_string(&hello_world, 0);
    assert!(output.is_none());
}

#[test]
fn read_string_needs_a_terminator() {
    let data = vec![b'a', b'b', b'c'];
    assert!(read_null_terminated_string(&data, 0).is_none());
    assert!(read_null_terminated_string(&data, 2).is_none());
}

#[test]
fn read_string_outside_the_buffer() {
    let data = vec![b'a', 0];
    assert!(read_null_terminated_string(&data, 2).is_none());
    assert!(read_null_terminated_string(&data, 200).is_none());
    assert!(read_null_terminated_string(&[], 0).is_none());
}

#[test]
fn read_string_rejects_invalid_utf8() {
    let data = vec![0xff, 0xfe, 0];
    assert!(read_null_terminated_string(&data, 0).is_none());
    let data = vec![0xc3, 0xa9, 0];
    assert_eq!(read_null_terminated_string(&data, 0).unwrap(), "é");
    // a continuation byte cannot start a string
    assert!(read_null_terminated_string(&data, 1).is_none());
}

#[test]
fn take_string_takes_a_prefix() {
    assert_eq!(take_string(b"hello", 4).unwrap(), "hell");
    assert_eq!(take_string(b"hello", 0).unwrap(), "");
    assert!(take_string(b"hello", 6).is_none());
    assert!(take_string(&[0x80, 0x41], 2).is_none());
}

#[test]
fn read_u32_is_little_endian() {
    let data = vec![0xaa, 0x78, 0x56, 0x34, 0x12, 0xbb];
    assert_eq!(read_u32_le(&data, 1), Some(0x1234_5678));
    assert_eq!(read_u32_le(&data, 0), Some(0x3456_78aa));
    assert_eq!(read_u32_le(&data, 2), Some(0xbb12_3456));
}

#[test]
fn read_u32_checks_bounds() {
    let data = vec![1, 2, 3, 4, 5];
    assert!(read_u32_le(&data, 1).is_some());
    assert_eq!(read_u32_le(&data, 2), None);
    assert_eq!(read_u32_le(&data, 5), None);
    assert_eq!(read_u32_le(&data, usize::MAX), None);
    assert_eq!(read_u32_le(&[1, 2, 3], 0), None);
}

#[test]
fn read_i32_is_twos_complement() {
    assert_eq!(read_i32_le(&[0xff, 0xff, 0xff, 0xff], 0), Some(-1));
    assert_eq!(read_i32_le(&[0x00, 0x00, 0x00, 0x80], 0), Some(i32::MIN));
    assert_eq!(read_i32_le(&[0xff, 0xff, 0xff, 0x7f], 0), Some(i32::MAX));
    assert_eq!(read_i32_le(&[0, 5, 0, 0, 0], 1), Some(5));
    assert_eq!(read_i32_le(&[0, 5, 0, 0], 1), None);
}

#[test]
fn read_u64_is_little_endian() {
    let data = vec![0, 0xef, 0xcd, 0xab, 0x89, 0x67, 0x45, 0x23, 0x01];
    assert_eq!(read_u64_le(&data, 1), Some(0x0123_4567_89ab_cdef));
    assert_eq!(read_u64_le(&data, 0), Some(0x2345_6789_abcd_ef00));
    assert_eq!(read_u64_le(&data, 2), None);
    assert_eq!(read_u64_le(&[0xff; 8], 0), Some(u64::MAX));
}

#[test]
fn read_i64_is_twos_complement() {
    assert_eq!(read_i64_le(&[0xff; 8], 0), Some(-1));
    assert_eq!(read_i64_le(&[0xfe, 0xff, 0xff, 0xff, 0xff, 0xff, 0xff, 0xff], 0), Some(-2));
    assert_eq!(read_i64_le(&[0, 0, 0, 0, 0, 0, 0, 0x80], 0), Some(i64::MIN));
    assert_eq!(read_i64_le(&[7, 0, 0, 0, 0, 0, 0, 0, 9], 0), Some(7));
    assert_eq!(read_i64_le(&[7, 0, 0, 0, 0, 0, 0], 0), None);
}
