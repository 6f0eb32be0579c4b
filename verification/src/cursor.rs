//! Bounds-checked reads of little-endian integers and of null-terminated
//! strings from a byte buffer. Every parser of the library reads its input
//! through these functions.

use vstd::prelude::*;
use vstd::slice::*;
use vstd::utf8::*;

verus! {

/// The error type of bincode, carried from its decoder to the readers below.
#[verifier::external_type_specification]
#[verifier::external_body]
pub struct ExBincodeErrorKind(bincode::ErrorKind);

/// The error type of `String::from_utf8`.
#[verifier::external_type_specification]
#[verifier::external_body]
pub struct ExFromUtf8Error(std::string::FromUtf8Error);

/// The number that `bytes` spell in little-endian order.
pub open spec fn le_value(bytes: Seq<u8>) -> nat
    decreases bytes.len(),
{
    if bytes.len() == 0 {
        0
    } else {
        bytes[0] as nat + 256 * le_value(bytes.drop_first())
    }
}

/// The little-endian number held by the `width` bytes of `data` at `offset`.
pub open spec fn le_field(data: Seq<u8>, offset: int, width: int) -> nat {
    le_value(data.subrange(offset, offset + width))
}

/// The two's-complement reading of a 32-bit pattern.
pub open spec fn signed32(v: nat) -> int {
    if v >= 0x8000_0000 {
        v - 0x1_0000_0000
    } else {
        v as int
    }
}

/// The two's-complement reading of a 64-bit pattern.
pub open spec fn signed64(v: nat) -> int {
    if v >= 0x8000_0000_0000_0000 {
        v - 0x1_0000_0000_0000_0000
    } else {
        v as int
    }
}

/// The unsigned 32-bit field of `data` at `offset`.
pub open spec fn u32_at(data: Seq<u8>, offset: int) -> nat {
    le_field(data, offset, 4)
}

/// The signed 32-bit field of `data` at `offset`.
pub open spec fn i32_at(data: Seq<u8>, offset: int) -> int {
    signed32(le_field(data, offset, 4))
}

/// The unsigned 64-bit field of `data` at `offset`.
pub open spec fn u64_at(data: Seq<u8>, offset: int) -> nat {
    le_field(data, offset, 8)
}

/// The signed 64-bit field of `data` at `offset`.
pub open spec fn i64_at(data: Seq<u8>, offset: int) -> int {
    signed64(le_field(data, offset, 8))
}

/// Calls `bincode::deserialize::<u32>`. With bincode's default configuration
/// (fixed-width integers, little-endian, trailing bytes allowed) it decodes
/// the first four bytes of `data`, and fails when there are fewer.
#[verifier::external_body]
fn decode_u32(data: &[u8]) -> (r: Result<u32, Box<bincode::ErrorKind>>)
    ensures
        data@.len() >= 4 ==> r is Ok && r->Ok_0 as nat == le_value(data@.subrange(0, 4)),
        data@.len() < 4 ==> r is Err,
{
    bincode::deserialize::<u32>(data)
}

/// Calls `bincode::deserialize::<i32>`: as `decode_u32`, with the four bytes
/// read as a two's-complement number.
#[verifier::external_body]
fn decode_i32(data: &[u8]) -> (r: Result<i32, Box<bincode::ErrorKind>>)
    ensures
        data@.len() >= 4 ==> r is Ok && r->Ok_0 as int == signed32(
            le_value(data@.subrange(0, 4)),
        ),
        data@.len() < 4 ==> r is Err,
{
    bincode::deserialize::<i32>(data)
}

/// Calls `bincode::deserialize::<u64>`: decodes the first eight bytes of
/// `data` in little-endian order, and fails when there are fewer.
#[verifier::external_body]
fn decode_u64(data: &[u8]) -> (r: Result<u64, Box<bincode::ErrorKind>>)
    ensures
        data@.len() >= 8 ==> r is Ok && r->Ok_0 as nat == le_value(data@.subrange(0, 8)),
        data@.len() < 8 ==> r is Err,
{
    bincode::deserialize::<u64>(data)
}

/// Calls `bincode::deserialize::<i64>`: as `decode_u64`, with the eight bytes
/// read as a two's-complement number.
#[verifier::external_body]
fn decode_i64(data: &[u8]) -> (r: Result<i64, Box<bincode::ErrorKind>>)
    ensures
        data@.len() >= 8 ==> r is Ok && r->Ok_0 as int == signed64(
            le_value(data@.subrange(0, 8)),
        ),
        data@.len() < 8 ==> r is Err,
{
    bincode::deserialize::<i64>(data)
}

/// Calls `String::from_utf8`, which accepts exactly the byte strings that are
/// valid UTF-8 and returns the text they encode.
#[verifier::external_body]
fn string_from_utf8(bytes: Vec<u8>) -> (r: Result<String, std::string::FromUtf8Error>)
    ensures
        r is Ok <==> valid_utf8(bytes@),
        r is Ok ==> r->Ok_0@ == decode_utf8(bytes@),
{
    String::from_utf8(bytes)
}

/// The `width` bytes of `buffer` at `offset`, if they lie inside the buffer.
fn field_bytes(buffer: &[u8], offset: usize, width: usize) -> (r: Option<&[u8]>)
    ensures
        r is Some <==> offset + width <= buffer@.len(),
        r is Some ==> r->0@ == buffer@.subrange(offset as int, offset + width),
{
    if buffer.len() < width || offset > buffer.len() - width {
        None
    } else {
        Some(slice_subrange(buffer, offset, offset + width))
    }
}

/// Reads an unsigned 32-bit little-endian integer at `offset`, or nothing when
/// the four bytes do not lie inside the buffer.
pub fn read_u32_le(buffer: &[u8], offset: usize) -> (r: Option<u32>)
    ensures
        r is Some <==> offset + 4 <= buffer@.len(),
        r is Some ==> r->0 as nat == u32_at(buffer@, offset as int),
{
    match field_bytes(buffer, offset, 4) {
        Some(field) => {
            assert(field@.subrange(0, 4) =~= field@);
            match decode_u32(field) {
                Ok(v) => Some(v),
                Err(_) => None,
            }
        },
        None => None,
    }
}

/// Reads a signed 32-bit little-endian integer at `offset`, or nothing when
/// the four bytes do not lie inside the buffer.
pub fn read_i32_le(buffer: &[u8], offset: usize) -> (r: Option<i32>)
    ensures
        r is Some <==> offset + 4 <= buffer@.len(),
        r is Some ==> r->0 as int == i32_at(buffer@, offset as int),
{
    match field_bytes(buffer, offset, 4) {
        Some(field) => {
            assert(field@.subrange(0, 4) =~= field@);
            match decode_i32(field) {
                Ok(v) => Some(v),
                Err(_) => None,
            }
        },
        None => None,
    }
}

/// Reads an unsigned 64-bit little-endian integer at `offset`, or nothing when
/// the eight bytes do not lie inside the buffer.
pub fn read_u64_le(buffer: &[u8], offset: usize) -> (r: Option<u64>)
    ensures
        r is Some <==> offset + 8 <= buffer@.len(),
        r is Some ==> r->0 as nat == u64_at(buffer@, offset as int),
{
    match field_bytes(buffer, offset, 8) {
        Some(field) => {
            assert(field@.subrange(0, 8) =~= field@);
            match decode_u64(field) {
                Ok(v) => Some(v),
                Err(_) => None,
            }
        },
        None => None,
    }
}

/// Reads a signed 64-bit little-endian integer at `offset`, or nothing when
/// the eight bytes do not lie inside the buffer.
pub fn read_i64_le(buffer: &[u8], offset: usize) -> (r: Option<i64>)
    ensures
        r is Some <==> offset + 8 <= buffer@.len(),
        r is Some ==> r->0 as int == i64_at(buffer@, offset as int),
{
    match field_bytes(buffer, offset, 8) {
        Some(field) => {
            assert(field@.subrange(0, 8) =~= field@);
            match decode_i64(field) {
                Ok(v) => Some(v),
                Err(_) => None,
            }
        },
        None => None,
    }
}

/// The index of the first zero byte of `data` at or after `offset`, or the
/// length of `data` when there is none.
pub open spec fn terminator(data: Seq<u8>, offset: int) -> int
    decreases data.len() - offset,
{
    if offset < 0 || offset >= data.len() {
        data.len() as int
    } else if data[offset] == 0 {
        offset
    } else {
        terminator(data, offset + 1)
    }
}

/// The bytes of the null-terminated string that starts at `offset`: those
/// from `offset` up to the first zero byte. There is none when `offset` lies
/// outside the buffer, when no zero byte follows, or when the string is empty.
pub open spec fn cstr_bytes(data: Seq<u8>, offset: int) -> Option<Seq<u8>> {
    let end = terminator(data, offset);
    if 0 <= offset < end < data.len() {
        Some(data.subrange(offset, end))
    } else {
        None
    }
}

/// The text of the null-terminated string at `offset`, if there is a
/// non-empty one and it is valid UTF-8.
pub open spec fn cstr_at(data: Seq<u8>, offset: int) -> Option<Seq<char>> {
    match cstr_bytes(data, offset) {
        Some(bytes) => if valid_utf8(bytes) {
            Some(decode_utf8(bytes))
        } else {
            None
        },
        None => None,
    }
}

/// `terminator` finds the first zero byte: it lies at or after `offset`, no
/// byte before it is zero, and unless it is the end of the buffer the byte
/// there is zero.
pub proof fn lemma_terminator(data: Seq<u8>, offset: int)
    requires
        0 <= offset <= data.len(),
    ensures
        offset <= terminator(data, offset) <= data.len(),
        forall|i: int| offset <= i < terminator(data, offset) ==> data[i] != 0,
        terminator(data, offset) < data.len() ==> data[terminator(data, offset)] == 0,
    decreases data.len() - offset,
{
    if offset < data.len() && data[offset] != 0 {
        lemma_terminator(data, offset + 1);
    }
}

/// Any zero-free run from `offset` to `end` that stops at a zero byte or at the
/// end of the buffer stops at the terminator.
pub proof fn lemma_terminator_is(data: Seq<u8>, offset: int, end: int)
    requires
        0 <= offset <= end <= data.len(),
        forall|i: int| offset <= i < end ==> data[i] != 0,
        end < data.len() ==> data[end] == 0,
    ensures
        terminator(data, offset) == end,
    decreases end - offset,
{
    if offset < end {
        lemma_terminator_is(data, offset + 1, end);
    }
}

/// Decodes the first `size` bytes of `data` as UTF-8 text. There is no result
/// when `data` is shorter than `size` or the bytes are not valid UTF-8.
pub fn take_string(data: &[u8], size: usize) -> (r: Option<String>)
    ensures
        match r {
            Some(s) => size <= data@.len() && valid_utf8(data@.subrange(0, size as int)) && s@
                == decode_utf8(data@.subrange(0, size as int)),
            None => size > data@.len() || !valid_utf8(data@.subrange(0, size as int)),
        },
{
    if data.len() < size {
        return None;
    }
    let bytes = slice_to_vec(slice_subrange(data, 0, size));
    match string_from_utf8(bytes) {
        Ok(s) => Some(s),
        Err(_) => None,
    }
}

/// Reads the null-terminated UTF-8 string that starts at `offset`.
///
/// The string runs up to the first zero byte. There is no result when
/// `offset` lies outside the buffer, when no zero byte follows, when the string
/// is empty, or when its bytes are not valid UTF-8.
pub fn read_null_terminated_string(data: &[u8], offset: usize) -> (r: Option<String>)
    ensures
        match r {
            Some(s) => cstr_at(data@, offset as int) == Some(s@),
            None => cstr_at(data@, offset as int) is None,
        },
{
    let data_size = data.len();
    if offset >= data_size {
        return None;
    }
    let mut end = offset;
    while end < data_size && data[end] != 0
        invariant
            offset <= end <= data_size,
            data_size == data@.len(),
            forall|i: int| offset <= i < end ==> data@[i] != 0,
        decreases data_size - end,
    {
        end = end + 1;
    }
    proof {
        lemma_terminator_is(data@, offset as int, end as int);
    }
    if end == data_size || end == offset {
        return None;
    }
    let string_data = slice_subrange(data, offset, end);
    assert(string_data@.subrange(0, end - offset) =~= data@.subrange(offset as int, end as int));
    take_string(string_data, end - offset)
}

} // verus!
