//! Tests for the table directory, font references, and collections.

use fontcodec::FileRef;
use fontcodec::FontData;
use fontcodec::FontRef;
use fontcodec::ReadError;
use fontcodec::TableDirectory;

// tag words: the four tag bytes read as one big-endian word
const TAG_CMAP: u32 = 0x636D6170;
const TAG_GLYF: u32 = 0x676C7966;
const TAG_HEAD: u32 = 0x68656164;
const TAG_NAME: u32 = 0x6E616D65;

fn push_u32(v: &mut Vec<u8>, x: u32) {
    v.extend_from_slice(&x.to_be_bytes());
}

fn push_u16(v: &mut Vec<u8>, x: u16) {
    v.extend_from_slice(&x.to_be_bytes());
}

/// A single-font buffer with three sorted table records and a little
/// table data after the directory.
fn sample_font() -> Vec<u8> {
    let mut v = Vec::new();
    push_u32(&mut v, 0x00010000); // container version
    push_u16(&mut v, 3); // three tables
    push_u16(&mut v, 0); // search range (unused)
    push_u16(&mut v, 0); // entry selector (unused)
    push_u16(&mut v, 0); // range shift (unused)
    // records sorted by tag: cmap < head < name
    push_u32(&mut v, TAG_CMAP);
    push_u32(&mut v, 0); // checksum
    push_u32(&mut v, 60); // offset
    push_u32(&mut v, 4); // length
    push_u32(&mut v, TAG_HEAD);
    push_u32(&mut v, 0);
    push_u32(&mut v, 64);
    push_u32(&mut v, 2);
    push_u32(&mut v, TAG_NAME);
    push_u32(&mut v, 0);
    push_u32(&mut v, 0); // a null offset: present but absent
    push_u32(&mut v, 2);
    v.resize(60, 0);
    v.extend_from_slice(&[1, 2, 3, 4]); // cmap bytes at 60
    v.extend_from_slice(&[5, 6]); // head bytes at 64
    v
}

#[test]
fn directory_reads_records() {
    let bytes = sample_font();
    let dir = TableDirectory::read(FontData::new(&bytes)).unwrap();
    assert_eq!(dir.sfnt_version(), 0x00010000);
    assert_eq!(dir.num_tables(), 3);
    let rec = dir.table_record(0).unwrap();
    assert_eq!(rec.tag, TAG_CMAP);
    assert_eq!(rec.offset, 60);
    assert_eq!(rec.length, 4);
    assert!(dir.table_record(3).is_none());
}

#[test]
fn font_finds_tables_by_binary_search() {
    let bytes = sample_font();
    let font = FontRef::new(FontData::new(&bytes)).unwrap();
    let cmap = font.table_data(TAG_CMAP).unwrap();
    assert_eq!(cmap.as_bytes(), &[1, 2, 3, 4]);
    let head = font.table_data(TAG_HEAD).unwrap();
    assert_eq!(head.as_bytes(), &[5, 6]);
    // a missing tag is absent, not an error
    assert!(font.table_data(TAG_GLYF).is_none());
    // a record with a null offset is absent too
    assert!(font.table_data(TAG_NAME).is_none());
}

#[test]
fn font_rejects_unknown_container_version() {
    let mut bytes = sample_font();
    bytes[0] = 0x12;
    match FontRef::new(FontData::new(&bytes)) {
        Err(ReadError::InvalidSfnt(v)) => assert_eq!(v, 0x12010000),
        _ => panic!("expected an invalid-container error"),
    }
}

#[test]
fn font_rejects_truncated_directory() {
    let bytes = vec![0x00, 0x01, 0x00, 0x00, 0x00, 0x05, 0, 0, 0, 0, 0, 0];
    assert!(matches!(
        FontRef::new(FontData::new(&bytes)),
        Err(ReadError::OutOfBounds)
    ));
}

/// A collection of two fonts: the header, two directory offsets, and
/// two single-table directories over shared data.
fn sample_collection() -> Vec<u8> {
    let mut v = Vec::new();
    push_u32(&mut v, 0x74746366); // 'ttcf'
    push_u16(&mut v, 1); // major version
    push_u16(&mut v, 0); // minor version
    push_u32(&mut v, 2); // two fonts
    push_u32(&mut v, 20); // first directory
    push_u32(&mut v, 48); // second directory
    // first directory at 20: one record
    push_u32(&mut v, 0x00010000);
    push_u16(&mut v, 1);
    push_u16(&mut v, 0);
    push_u16(&mut v, 0);
    push_u16(&mut v, 0);
    push_u32(&mut v, TAG_HEAD);
    push_u32(&mut v, 0);
    push_u32(&mut v, 76); // from file start
    push_u32(&mut v, 2);
    // second directory at 48: one record
    push_u32(&mut v, 0x00010000);
    push_u16(&mut v, 1);
    push_u16(&mut v, 0);
    push_u16(&mut v, 0);
    push_u16(&mut v, 0);
    push_u32(&mut v, TAG_HEAD);
    push_u32(&mut v, 0);
    push_u32(&mut v, 78);
    push_u32(&mut v, 2);
    v.extend_from_slice(&[9, 8]); // first head at 76
    v.extend_from_slice(&[7, 6]); // second head at 78
    v
}

#[test]
fn collection_indexes_fonts() {
    let bytes = sample_collection();
    let file = FileRef::new(FontData::new(&bytes)).unwrap();
    let collection = match file {
        FileRef::Collection(c) => c,
        FileRef::Font(_) => panic!("collection expected"),
    };
    assert_eq!(collection.len(), 2);
    assert!(!collection.is_empty());
    let first = collection.get(0).unwrap();
    assert_eq!(first.table_data(TAG_HEAD).unwrap().as_bytes(), &[9, 8]);
    let second = collection.get(1).unwrap();
    assert_eq!(second.table_data(TAG_HEAD).unwrap().as_bytes(), &[7, 6]);
    match collection.get(2) {
        Err(ReadError::InvalidCollectionIndex(ix)) => assert_eq!(ix, 2),
        _ => panic!("expected an invalid-index error"),
    }
}

#[test]
fn from_index_handles_both_file_kinds() {
    let collection = sample_collection();
    let second = FontRef::from_index(FontData::new(&collection), 1).unwrap();
    assert_eq!(second.table_data(TAG_HEAD).unwrap().as_bytes(), &[7, 6]);

    let single = sample_font();
    let font = FontRef::from_index(FontData::new(&single), 0).unwrap();
    assert_eq!(font.table_data(TAG_HEAD).unwrap().as_bytes(), &[5, 6]);
    match FontRef::from_index(FontData::new(&single), 1) {
        Err(ReadError::InvalidCollectionIndex(ix)) => assert_eq!(ix, 1),
        _ => panic!("expected an invalid-index error"),
    }
}

#[test]
fn collection_rejects_wrong_leading_tag() {
    let mut bytes = sample_collection();
    bytes[0] = 0x73;
    // no longer a collection; as a single font its version is unknown
    match FileRef::new(FontData::new(&bytes)) {
        Err(ReadError::InvalidSfnt(v)) => assert_eq!(v, 0x73746366),
        _ => panic!("expected an invalid-container error"),
    }
}
