//! From a file record and the bytes of its package to the bytes of the file.
//!
//! A record whose stored size equals its unpacked size is stored as it is.
//! Any other record holds a raw DEFLATE stream that must unpack to exactly the
//! unpacked size.

use crate::idx::{FileRecord, FileRecordView};
use crate::types::UnpackError;
use std::io::Read;
use vstd::prelude::*;
use vstd::slice::*;

verus! {

/// The error type of `std::io`, which the decoder of flate2 reports with.
#[verifier::external_type_specification]
#[verifier::external_body]
pub struct ExIoError(std::io::Error);

/// What a raw DEFLATE stream unpacks to, as flate2 decodes it; nothing where
/// flate2 reports the stream as corrupt or incomplete.
pub uninterp spec fn inflated(raw: Seq<u8>) -> Option<Seq<u8>>;

/// Runs `flate2::bufread::DeflateDecoder` over `raw` and reads its output to
/// the end. The outcome depends on `raw` alone; it is not stated here but
/// named `inflated`.
#[verifier::external_body]
fn inflate(raw: &[u8]) -> (r: Result<Vec<u8>, std::io::Error>)
    ensures
        match r {
            Ok(out) => inflated(raw@) == Some(out@),
            Err(_) => inflated(raw@) is None,
        },
{
    let mut out = Vec::new();
    flate2::bufread::DeflateDecoder::new(raw).read_to_end(&mut out).map(|_| out)
}

/// Whether the payload of `record` lies inside a package of `pkg_len` bytes.
pub open spec fn in_bounds(record: FileRecordView, pkg_len: int) -> bool {
    &&& record.offset >= 0
    &&& record.size >= 0
    &&& record.offset + record.size <= pkg_len
}

/// Whether the payload of `record` is stored as it is, not compressed.
pub open spec fn is_stored(record: FileRecordView) -> bool {
    record.size == record.uncompressed_size
}

/// The bytes of the file of `record`, given the `raw` bytes read for it and
/// what they unpack to: `raw` itself for a stored record, the unpacked bytes
/// for a compressed one if they have the size the record gives.
pub open spec fn checked_payload(
    record: FileRecordView,
    raw: Seq<u8>,
    unpacked: Option<Seq<u8>>,
) -> Result<Seq<u8>, UnpackError> {
    if raw.len() != record.size {
        Err(UnpackError::IoRead)
    } else if is_stored(record) {
        Ok(raw)
    } else if unpacked is Some && unpacked->0.len() == record.uncompressed_size {
        Ok(unpacked->0)
    } else {
        Err(UnpackError::Decompress)
    }
}

/// The bytes of the file of `record`, given the `raw` bytes read for it.
pub open spec fn payload_of(record: FileRecordView, raw: Seq<u8>) -> Result<
    Seq<u8>,
    UnpackError,
> {
    checked_payload(record, raw, inflated(raw))
}

/// The bytes of the file of `record` in the package `pkg`.
pub open spec fn file_of(record: FileRecordView, pkg: Seq<u8>) -> Result<Seq<u8>, UnpackError> {
    if in_bounds(record, pkg.len() as int) {
        payload_of(record, pkg.subrange(record.offset as int, record.offset + record.size))
    } else {
        Err(UnpackError::OutOfBounds)
    }
}

/// Whether `result` carries the bytes or the error of `expected`.
pub open spec fn yields(result: Result<Vec<u8>, UnpackError>, expected: Result<
    Seq<u8>,
    UnpackError,
>) -> bool {
    match result {
        Ok(bytes) => expected == Ok::<Seq<u8>, UnpackError>(bytes@),
        Err(e) => expected == Err::<Seq<u8>, UnpackError>(e),
    }
}

impl FileRecord {
    /// Where the payload lies in a package of `pkg_len` bytes: its first byte
    /// and its length. Fails with `OutOfBounds` when the offset or the size is
    /// negative or the payload ends behind the package.
    pub fn byte_range(&self, pkg_len: u64) -> (r: Result<(u64, usize), UnpackError>)
        ensures
            match r {
                Ok((start, len)) => in_bounds(self@, pkg_len as int) && start == self.offset
                    && len == self.size,
                Err(e) => e == UnpackError::OutOfBounds && !in_bounds(self@, pkg_len as int),
            },
    {
        if self.offset < 0 || self.size < 0 {
            return Err(UnpackError::OutOfBounds);
        }
        let start = self.offset as u64;
        let len = self.size as u64;
        if start > pkg_len || len > pkg_len - start {
            return Err(UnpackError::OutOfBounds);
        }
        Ok((start, self.size as usize))
    }

    /// Whether the payload is stored as it is.
    pub fn stored(&self) -> (r: bool)
        ensures
            r == is_stored(self@),
    {
        self.size as i64 == self.uncompressed_size
    }

    /// Turns the `raw` bytes read for this record, and what they unpacked
    /// to, into the bytes of the file. `unpacked` is looked at for a
    /// compressed record only.
    ///
    /// Fails with `IoRead` when `raw` has not the stored size, and with
    /// `Decompress` when a compressed record has nothing unpacked or not the
    /// size that the record gives.
    pub fn finish(&self, raw: Vec<u8>, unpacked: Option<Vec<u8>>) -> (r: Result<
        Vec<u8>,
        UnpackError,
    >)
        ensures
            yields(
                r,
                checked_payload(
                    self@,
                    raw@,
                    match unpacked {
                        Some(bytes) => Some(bytes@),
                        None => None,
                    },
                ),
            ),
    {
        if self.size < 0 || raw.len() != self.size as usize {
            return Err(UnpackError::IoRead);
        }
        if self.stored() {
            return Ok(raw);
        }
        match unpacked {
            Some(bytes) => {
                if self.uncompressed_size >= 0 && bytes.len() as u64
                    == self.uncompressed_size as u64 {
                    Ok(bytes)
                } else {
                    Err(UnpackError::Decompress)
                }
            },
            None => Err(UnpackError::Decompress),
        }
    }

    /// Turns the `raw` bytes read for this record into the bytes of the
    /// file, unpacking them if the record is compressed.
    pub fn unpack(&self, raw: Vec<u8>) -> (r: Result<Vec<u8>, UnpackError>)
        ensures
            yields(r, payload_of(self@, raw@)),
    {
        if self.stored() {
            self.finish(raw, None)
        } else {
            let unpacked = match inflate(raw.as_slice()) {
                Ok(bytes) => Some(bytes),
                Err(_) => None,
            };
            self.finish(raw, unpacked)
        }
    }
}

/// Extracts the file of `record` from the bytes of its package.
///
/// Fails with `OutOfBounds` when the payload does not lie inside the package,
/// and with `Decompress` when a compressed payload does not unpack to the size
/// that the record gives.
pub fn extract_file(record: &FileRecord, pkg: &[u8]) -> (r: Result<Vec<u8>, UnpackError>)
    ensures
        yields(r, file_of(record@, pkg@)),
{
    let (start, len) = match record.byte_range(pkg.len() as u64) {
        Ok(range) => range,
        Err(e) => {
            return Err(e);
        },
    };
    let start = start as usize;
    let raw = slice_to_vec(slice_subrange(pkg, start, start + len));
    record.unpack(raw)
}

/// A stored record that lies inside its package is extracted as an exact copy
/// of its bytes there.
pub proof fn lemma_stored_is_copied(record: FileRecordView, pkg: Seq<u8>)
    requires
        is_stored(record),
        in_bounds(record, pkg.len() as int),
    ensures
        file_of(record, pkg) == Ok::<Seq<u8>, UnpackError>(
            pkg.subrange(record.offset as int, record.offset + record.size),
        ),
{
}

/// The bytes extracted for a compressed record are what its payload unpacks
/// to, and have the size that the record gives.
pub proof fn lemma_compressed_size(record: FileRecordView, raw: Seq<u8>)
    requires
        !is_stored(record),
        payload_of(record, raw) is Ok,
    ensures
        inflated(raw) == Some(payload_of(record, raw)->Ok_0),
        payload_of(record, raw)->Ok_0.len() == record.uncompressed_size,
{
}

/// A record that ends behind its package is refused with `OutOfBounds`.
pub proof fn lemma_past_the_end(record: FileRecordView, pkg: Seq<u8>)
    requires
        record.offset + record.size > pkg.len(),
    ensures
        file_of(record, pkg) == Err::<Seq<u8>, UnpackError>(UnpackError::OutOfBounds),
{
}

/// A compressed payload that unpacks to fewer bytes than the record gives is
/// refused with `Decompress`.
pub proof fn lemma_short_stream(record: FileRecordView, raw: Seq<u8>)
    requires
        raw.len() == record.size,
        !is_stored(record),
        inflated(raw) is Some,
        inflated(raw)->0.len() < record.uncompressed_size,
    ensures
        payload_of(record, raw) == Err::<Seq<u8>, UnpackError>(UnpackError::Decompress),
{
}

} // verus!
