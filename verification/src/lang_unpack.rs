//! Text catalogs in the MO format of gettext.
//!
//! A catalog starts with seven 32-bit fields: the magic, a revision, the
//! number of texts, the offsets of the table of originals and of the table of
//! translations, and the size and offset of a hash table, which is not used
//! here. An entry of either table gives the length and the offset of a
//! null-terminated text. Fields are read in little-endian order.

use crate::cursor::{cstr_at, cstr_bytes, read_null_terminated_string, read_u32_le, u32_at};
use crate::types::UnpackError;
use vstd::prelude::*;
use vstd::string::*;
use vstd::utf8::*;

verus! {

/// Bytes taken by the header of a catalog.
pub const MO_HEADER_SIZE: usize = 28;

/// The magic of a catalog, and the same with its bytes swapped.
pub const MO_MAGIC: u32 = 0x950412de;

pub const MO_MAGIC_SWAPPED: u32 = 0xde120495;

/// The header of a catalog.
#[derive(Debug, Clone, Copy)]
pub struct MoHeader {
    pub magic: u32,
    pub revision: u32,
    pub num_strings: u32,
    pub offset_originals: u32,
    pub offset_translations: u32,
    pub table_size: u32,
    pub table_offset: u32,
}

/// Whether `data` starts with the header of a catalog.
pub open spec fn header_ok(data: Seq<u8>) -> bool {
    &&& data.len() >= 28
    &&& (u32_at(data, 0) == 0x950412de || u32_at(data, 0) == 0xde120495)
}

/// The number of texts that the header declares.
pub open spec fn text_count(data: Seq<u8>) -> int {
    u32_at(data, 8) as int
}

/// The position of the `i`-th entry of the table of originals.
pub open spec fn original_entry(data: Seq<u8>, i: int) -> int {
    u32_at(data, 12) + 8 * i
}

/// The position of the `i`-th entry of the table of translations.
pub open spec fn translation_entry(data: Seq<u8>, i: int) -> int {
    u32_at(data, 16) + 8 * i
}

/// Whether the table entry at `at` is acceptable: it lies inside the file,
/// and the text it points at, if there is one, takes no more bytes than the
/// entry says.
pub open spec fn entry_ok(data: Seq<u8>, at: int) -> bool {
    &&& at + 8 <= data.len()
    &&& cstr_at(data, u32_at(data, at + 4) as int) is Some ==> cstr_bytes(
        data,
        u32_at(data, at + 4) as int,
    )->0.len() <= u32_at(data, at)
}

/// The text of the table entry at `at`: the null-terminated text at the
/// entry's offset, or the empty text when no valid one stands there.
pub open spec fn entry_text(data: Seq<u8>, at: int) -> Seq<char> {
    match cstr_at(data, u32_at(data, at + 4) as int) {
        Some(text) => text,
        None => Seq::empty(),
    }
}

/// Whether the first `n` pairs of entries are acceptable.
pub open spec fn entries_ok(data: Seq<u8>, n: int) -> bool {
    forall|i: int|
        0 <= i < n ==> entry_ok(data, #[trigger] original_entry(data, i)) && entry_ok(
            data,
            translation_entry(data, i),
        )
}

/// Whether `data` is a catalog that can be decoded.
pub open spec fn catalog_well_formed(data: Seq<u8>) -> bool {
    header_ok(data) && entries_ok(data, text_count(data))
}

/// The first `n` pairs of an original and its translation.
pub open spec fn catalog_pairs(data: Seq<u8>, n: int) -> Seq<(Seq<char>, Seq<char>)>
    decreases n,
{
    if n <= 0 {
        Seq::empty()
    } else {
        catalog_pairs(data, n - 1).push(
            (
                entry_text(data, original_entry(data, n - 1)),
                entry_text(data, translation_entry(data, n - 1)),
            ),
        )
    }
}

/// The texts of a sequence of pairs of strings.
pub open spec fn pair_texts(pairs: Seq<(String, String)>) -> Seq<(Seq<char>, Seq<char>)> {
    pairs.map_values(|p: (String, String)| (p.0@, p.1@))
}

impl MoHeader {
    /// Whether this header holds the fields of the header bytes of `data`.
    pub open spec fn decodes(self, data: Seq<u8>) -> bool {
        &&& self.magic == u32_at(data, 0)
        &&& self.revision == u32_at(data, 4)
        &&& self.num_strings == u32_at(data, 8)
        &&& self.offset_originals == u32_at(data, 12)
        &&& self.offset_translations == u32_at(data, 16)
        &&& self.table_size == u32_at(data, 20)
        &&& self.table_offset == u32_at(data, 24)
    }

    /// Decodes the header of a catalog. There is none when the file is
    /// shorter than a header or has not the magic.
    pub fn parse(data: &[u8]) -> (r: Option<MoHeader>)
        ensures
            match r {
                Some(header) => header_ok(data@) && header.decodes(data@),
                None => !header_ok(data@),
            },
    {
        if data.len() < MO_HEADER_SIZE {
            return None;
        }
        let magic = read_u32_le(data, 0);
        let revision = read_u32_le(data, 4);
        let num_strings = read_u32_le(data, 8);
        let offset_originals = read_u32_le(data, 12);
        let offset_translations = read_u32_le(data, 16);
        let table_size = read_u32_le(data, 20);
        let table_offset = read_u32_le(data, 24);
        match (
            magic,
            revision,
            num_strings,
            offset_originals,
            offset_translations,
            table_size,
            table_offset,
        ) {
            (
                Some(magic),
                Some(revision),
                Some(num_strings),
                Some(offset_originals),
                Some(offset_translations),
                Some(table_size),
                Some(table_offset),
            ) => {
                if magic != MO_MAGIC && magic != MO_MAGIC_SWAPPED {
                    return None;
                }
                Some(
                    MoHeader {
                        magic,
                        revision,
                        num_strings,
                        offset_originals,
                        offset_translations,
                        table_size,
                        table_offset,
                    },
                )
            },
            _ => None,
        }
    }
}

/// Reads the text of the table entry at `at`. There is none when the entry is
/// not acceptable.
pub fn read_entry(data: &[u8], at: u64) -> (r: Option<String>)
    ensures
        match r {
            Some(text) => entry_ok(data@, at as int) && text@ == entry_text(data@, at as int),
            None => !entry_ok(data@, at as int),
        },
{
    let size = data.len();
    if size < 8 || at > (size - 8) as u64 {
        return None;
    }
    let at = at as usize;
    let length = read_u32_le(data, at);
    let offset = read_u32_le(data, at + 4);
    match (length, offset) {
        (Some(length), Some(offset)) => {
            if offset as u64 >= size as u64 {
                return Some(String::new());
            }
            match read_null_terminated_string(data, offset as usize) {
                Some(text) => {
                    proof {
                        let bytes = cstr_bytes(data@, offset as int)->0;
                        decode_utf8_encode_utf8(bytes);
                    }
                    if text.as_str().len() as u64 > length as u64 {
                        None
                    } else {
                        Some(text)
                    }
                },
                None => Some(String::new()),
            }
        },
        _ => None,
    }
}

/// Decodes a catalog held in memory into its pairs of an original and its
/// translation, in table order. Succeeds exactly on well-formed catalogs.
pub fn decode_catalog(data: &[u8]) -> (r: Result<Vec<(String, String)>, UnpackError>)
    ensures
        match r {
            Ok(pairs) => catalog_well_formed(data@) && pair_texts(pairs@) == catalog_pairs(
                data@,
                text_count(data@),
            ),
            Err(e) => e == UnpackError::MalformedCatalog && !catalog_well_formed(data@),
        },
{
    let header = match MoHeader::parse(data) {
        Some(header) => header,
        None => {
            return Err(UnpackError::MalformedCatalog);
        },
    };
    let mut pairs: Vec<(String, String)> = Vec::new();
    let mut i: u32 = 0;
    while i < header.num_strings
        invariant
            i <= header.num_strings,
            header_ok(data@),
            header.decodes(data@),
            entries_ok(data@, i as int),
            pair_texts(pairs@) == catalog_pairs(data@, i as int),
        decreases header.num_strings - i,
    {
        let key_at = header.offset_originals as u64 + 8 * (i as u64);
        let value_at = header.offset_translations as u64 + 8 * (i as u64);
        assert(key_at == original_entry(data@, i as int));
        let key = match read_entry(data, key_at) {
            Some(key) => key,
            None => {
                return Err(UnpackError::MalformedCatalog);
            },
        };
        let value = match read_entry(data, value_at) {
            Some(value) => value,
            None => {
                return Err(UnpackError::MalformedCatalog);
            },
        };
        pairs.push((key, value));
        i = i + 1;
    }
    Ok(pairs)
}

/// The reader of one text catalog.
#[derive(Debug)]
pub struct LangUnpacker {
    /// The path of the catalog file.
    pub file_path: String,
    /// The pairs of an original and its translation, once decoded.
    pub text_data: Vec<(String, String)>,
    /// Whether the catalog has been decoded.
    pub decoded: bool,
}

impl LangUnpacker {
    /// A reader for the catalog at `file_path`, which is not decoded yet.
    pub fn new(file_path: String) -> (r: Result<LangUnpacker, UnpackError>)
        ensures
            r is Ok,
            r->Ok_0.file_path@ == file_path@,
            r->Ok_0.text_data@.len() == 0,
            !r->Ok_0.decoded,
    {
        Ok(LangUnpacker { file_path, text_data: Vec::new(), decoded: false })
    }

    /// Decodes the catalog from the content of its file. A reader that has
    /// decoded its catalog stays as it is.
    ///
    /// Fails with `MalformedCatalog` exactly when the reader is not decoded
    /// yet and `data` is no well-formed catalog; the reader is then unchanged.
    pub fn decode(&mut self, data: &[u8]) -> (r: Result<(), UnpackError>)
        ensures
            final(self).file_path == old(self).file_path,
            old(self).decoded ==> r is Ok && *final(self) == *old(self),
            !old(self).decoded ==> match r {
                Ok(_) => {
                    &&& catalog_well_formed(data@)
                    &&& final(self).decoded
                    &&& pair_texts(final(self).text_data@) == catalog_pairs(
                        data@,
                        text_count(data@),
                    )
                },
                Err(e) => {
                    &&& e == UnpackError::MalformedCatalog
                    &&& !catalog_well_formed(data@)
                    &&& *final(self) == *old(self)
                },
            },
    {
        if self.decoded {
            return Ok(());
        }
        match decode_catalog(data) {
            Ok(pairs) => {
                self.text_data = pairs;
                self.decoded = true;
                Ok(())
            },
            Err(e) => Err(e),
        }
    }

    /// The decoded pairs. Fails with `NotDecoded` exactly when the catalog
    /// has not been decoded.
    pub fn texts(&self) -> (r: Result<&Vec<(String, String)>, UnpackError>)
        ensures
            match r {
                Ok(pairs) => self.decoded && *pairs == self.text_data,
                Err(e) => e == UnpackError::NotDecoded && !self.decoded,
            },
    {
        if !self.decoded {
            return Err(UnpackError::NotDecoded);
        }
        Ok(&self.text_data)
    }
}

} // verus!
