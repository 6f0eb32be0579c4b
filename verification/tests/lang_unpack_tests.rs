use wowsunpacker::lang_unpack::{decode_catalog, read_entry, LangUnpacker, MoHeader};
use wowsunpacker::types::UnpackError;

/// Lays out a catalog: header, table of originals, table of translations,
/// texts.
fn build_catalog(pairs: &[(&str, &str)]) -> Vec<u8> {
    let n = pairs.len();
    let originals = 28;
    let translations = originals + 8 * n;
    let mut text_at = translations + 8 * n;
    let mut data = Vec::new();
    for field in [0x950412deu32, 0, n as u32, originals as u32, translations as u32, 0, 0] {
        data.extend_from_slice(&field.to_le_bytes());
    }
    let mut texts = Vec::new();
    for text in pairs.iter().map(|p| p.0).chain(pairs.iter().map(|p| p.1)) {
        data.extend_from_slice(&(text.len() as u32).to_le_bytes());
        data.extend_from_slice(&(text_at as u32).to_le_bytes());
        texts.extend_from_slice(text.as_bytes());
        texts.push(0);
        text_at += text.len() + 1;
    }
    data.extend_from_slice(&texts);
    data
}

fn owned(pairs: &[(&str, &str)]) -> Vec<(String, String)> {
    pairs.iter().map(|p| (p.0.to_string(), p.1.to_string())).collect()
}

#[test]
fn catalog_decodes_to_its_pairs() {
    let pairs = [("IDS_SHIP", "戦艦"), ("IDS_OK", "OK"), ("IDS_EMPTY", "")];
    let data = build_catalog(&pairs);
    assert_eq!(decode_catalog(&data).unwrap(), owned(&pairs));
}

#[test]
fn empty_catalog_has_no_pairs() {
    assert!(decode_catalog(&build_catalog(&[])).unwrap().is_empty());
}

#[test]
fn header_fields_are_read() {
    let data = build_catalog(&[("a", "b"), ("c", "d")]);
    let header = MoHeader::parse(&data).unwrap();
    assert_eq!(header.magic, 0x950412de);
    assert_eq!(header.revision, 0);
    assert_eq!(header.num_strings, 2);
    assert_eq!(header.offset_originals, 28);
    assert_eq!(header.offset_translations, 44);
    assert!(MoHeader::parse(&data[..27]).is_none());
}

#[test]
fn both_magics_are_accepted() {
    let mut data = build_catalog(&[]);
    data[0..4].copy_from_slice(&0xde120495u32.to_le_bytes());
    assert!(MoHeader::parse(&data).is_some());
    data[0..4].copy_from_slice(&0xde120496u32.to_le_bytes());
    assert!(MoHeader::parse(&data).is_none());
    assert_eq!(decode_catalog(&data).unwrap_err(), UnpackError::MalformedCatalog);
}

#[test]
fn table_outside_the_file_is_rejected() {
    let mut data = build_catalog(&[("a", "b")]);
    data[8..12].copy_from_slice(&1000u32.to_le_bytes());
    assert_eq!(decode_catalog(&data).unwrap_err(), UnpackError::MalformedCatalog);
    let mut data = build_catalog(&[("a", "b")]);
    data[12..16].copy_from_slice(&u32::MAX.to_le_bytes());
    assert_eq!(decode_catalog(&data).unwrap_err(), UnpackError::MalformedCatalog);
}

#[test]
fn text_longer_than_its_entry_is_rejected() {
    let mut data = build_catalog(&[("abc", "x")]);
    data[28..32].copy_from_slice(&2u32.to_le_bytes());
    assert_eq!(decode_catalog(&data).unwrap_err(), UnpackError::MalformedCatalog);
    assert!(read_entry(&data, 28).is_none());
}

#[test]
fn text_may_be_shorter_than_its_entry() {
    let mut data = build_catalog(&[("abc", "x")]);
    data[28..32].copy_from_slice(&10u32.to_le_bytes());
    assert_eq!(decode_catalog(&data).unwrap(), owned(&[("abc", "x")]));
}

#[test]
fn text_that_cannot_be_read_is_empty() {
    let mut data = build_catalog(&[("abc", "x")]);
    // the original points outside the file
    data[32..36].copy_from_slice(&u32::MAX.to_le_bytes());
    assert_eq!(decode_catalog(&data).unwrap(), owned(&[("", "x")]));
    assert_eq!(read_entry(&data, 28).unwrap(), "");
    assert_eq!(read_entry(&data, 36).unwrap(), "x");
    assert!(read_entry(&data, data.len() as u64 - 7).is_none());
    assert!(read_entry(&data, u64::MAX).is_none());
}

#[test]
fn reader_decodes_once() {
    let first = build_catalog(&[("a", "b")]);
    let second = build_catalog(&[("c", "d")]);
    let mut reader = LangUnpacker::new("ja/LC_MESSAGES/global.mo".to_string()).unwrap();
    assert_eq!(reader.file_path, "ja/LC_MESSAGES/global.mo");
    assert!(!reader.decoded);
    assert_eq!(reader.texts().unwrap_err(), UnpackError::NotDecoded);
    assert_eq!(reader.decode(&[1, 2, 3]).unwrap_err(), UnpackError::MalformedCatalog);
    assert!(!reader.decoded);
    assert!(reader.decode(&first).is_ok());
    assert!(reader.decoded);
    assert_eq!(reader.texts().unwrap(), &owned(&[("a", "b")]));
    assert!(reader.decode(&second).is_ok());
    assert_eq!(reader.texts().unwrap(), &owned(&[("a", "b")]));
    assert!(reader.decode(&[1, 2, 3]).is_ok());
}
