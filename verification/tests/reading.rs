//! Tests for the read side: cursor, offset resolution, and the table
//! readers.

use fontcodec::ColorRecord;
use fontcodec::Cursor;
use fontcodec::FontData;
use fontcodec::Name;
use fontcodec::Post;
use fontcodec::ReadError;
use fontcodec::U16Array;
use fontcodec::resolve_nullable;
use fontcodec::resolve_required;
use fontcodec::subtract;

#[test]
fn offset_resolution_exact() {
    // non-zero and in range: exactly base + offset
    assert_eq!(resolve_nullable(10, 5, 2, 20), Ok(Some(15)));
    // zero: absent, never an error
    assert_eq!(resolve_nullable(10, 0, 2, 20), Ok(None));
    // present but out of bounds
    assert_eq!(resolve_nullable(10, 9, 2, 20), Err(ReadError::OutOfBounds));
    // a required offset reports null distinctly from out of bounds
    assert_eq!(resolve_required(10, 0, 2, 20), Err(ReadError::NullOffset));
    assert_eq!(resolve_required(0, 16, 0, 20), Ok(16));
}

#[test]
fn cursor_failed_read_keeps_position() {
    let bytes = [7u8];
    let data = FontData::new(&bytes);
    let mut cursor = Cursor::new(data);
    assert_eq!(cursor.read_u16(), Err(ReadError::OutOfBounds));
    assert_eq!(cursor.position(), Ok(0));
    assert_eq!(cursor.read_u8(), Ok(7));
    assert_eq!(cursor.position(), Ok(1));
}

#[test]
fn cursor_skip_past_end_reports_inconsistency() {
    let bytes = [1u8, 2u8];
    let data = FontData::new(&bytes);
    let mut cursor = Cursor::new(data);
    cursor.advance_by(5);
    assert_eq!(cursor.position(), Err(ReadError::OutOfBounds));
}

#[test]
fn subtract_transform_saturates() {
    // a "count minus one" transform from a stored 0 must yield 0
    assert_eq!(subtract(0, 1), 0);
    assert_eq!(subtract(5, 1), 4);
    assert_eq!(fontcodec::saturating_add(usize::MAX, 1), usize::MAX);
    assert_eq!(fontcodec::saturating_add(2, 3), 5);
    // a "byte length divided by two" transform
    assert_eq!(fontcodec::half(5), 2);
    let bytes = [0u8; 8];
    let data = FontData::new(&bytes);
    let stored: usize = 0;
    let array = U16Array::new(data, 4, subtract(stored, 1)).unwrap();
    assert_eq!(array.len(), 0);
    assert!(array.get(0).is_none());
}

fn sample_cpal_v1() -> Vec<u8> {
    let mut v = vec![
        0x00, 0x01, // version 1
        0x00, 0x02, // two palette entries
        0x00, 0x01, // one palette
        0x00, 0x02, // two color records
        0x00, 0x00, 0x00, 0x1A, // color records at byte 26
        0x00, 0x00, // palette 0 starts at record 0
        0x00, 0x00, 0x00, 0x00, // no palette types array
        0x00, 0x00, 0x00, 0x00, // no palette labels array
        0x00, 0x00, 0x00, 0x00, // no palette entry labels array
    ];
    v.extend_from_slice(&[10, 20, 30, 40]);
    v.extend_from_slice(&[50, 60, 70, 80]);
    v
}

#[test]
fn cpal_reads_versioned_fields() {
    let bytes = sample_cpal_v1();
    let cpal = fontcodec::Cpal::read(FontData::new(&bytes)).unwrap();
    assert_eq!(cpal.version(), 1);
    assert_eq!(cpal.num_palette_entries(), 2);
    assert_eq!(cpal.num_palettes(), 1);
    assert_eq!(cpal.num_color_records(), 2);
    let records = cpal.color_records_array().unwrap().unwrap();
    assert_eq!(records.len(), 2);
    assert_eq!(
        records.get(0),
        Some(ColorRecord { blue: 10, green: 20, red: 30, alpha: 40 })
    );
    let rec = records.get(1).unwrap();
    assert_eq!(rec.blue(), 50);
    assert_eq!(rec.green(), 60);
    assert_eq!(rec.red(), 70);
    assert_eq!(rec.alpha(), 80);
    let indices = cpal.color_record_indices();
    assert_eq!(indices.len(), 1);
    assert_eq!(indices.get(0), Some(0));
    // version 1 fields are present but null
    assert!(matches!(cpal.palette_types_array_offset(), Some(None)));
    assert!(cpal.palette_types_array().is_none());
    assert!(cpal.palette_labels_array().is_none());
    assert!(cpal.palette_entry_labels_array().is_none());
}

#[test]
fn cpal_version_zero_has_no_versioned_fields() {
    let bytes = vec![
        0x00, 0x00, // version 0
        0x00, 0x01, 0x00, 0x01, 0x00, 0x01, 0x00, 0x00, 0x00, 0x0E, // records at 14
        0x00, 0x00, // palette 0 starts at record 0
        1, 2, 3, 4,
    ];
    let cpal = fontcodec::Cpal::read(FontData::new(&bytes)).unwrap();
    assert_eq!(cpal.version(), 0);
    assert!(cpal.palette_types_array_offset().is_none());
    assert!(cpal.palette_types_array().is_none());
}

#[test]
fn cpal_truncated_rejected() {
    let bytes = vec![0x00, 0x01, 0x00, 0x02, 0x00, 0x09];
    assert!(fontcodec::Cpal::read(FontData::new(&bytes)).is_err());
}

fn post_header(version: [u8; 4]) -> Vec<u8> {
    let mut v = Vec::new();
    v.extend_from_slice(&version);
    v.extend_from_slice(&[0x00, 0x01, 0x00, 0x00]); // italic angle 1.0
    v.extend_from_slice(&[0xFF, 0x9C]); // underline position -100
    v.extend_from_slice(&[0x00, 0x32]); // underline thickness 50
    v.extend_from_slice(&[0x00, 0x00, 0x00, 0x01]); // fixed pitch
    v.extend_from_slice(&[0; 16]); // memory usage fields
    v
}

#[test]
fn post_dispatches_known_versions() {
    let bytes = post_header([0x00, 0x03, 0x00, 0x00]);
    let post = Post::read(FontData::new(&bytes)).unwrap();
    assert!(matches!(post, Post::Post3_0(_)));
    assert_eq!(post.version(), 0x0003_0000);
    assert_eq!(post.italic_angle().to_bits(), 0x0001_0000);
    assert_eq!(post.underline_position(), -100);
    assert_eq!(post.underline_thickness(), 50);
    assert_eq!(post.is_fixed_pitch(), 1);
    assert_eq!(post.min_mem_type42(), 0);
    assert_eq!(post.max_mem_type42(), 0);
    assert_eq!(post.min_mem_type1(), 0);
    assert_eq!(post.max_mem_type1(), 0);
    assert!(post.glyph_name_index().is_none());
    assert!(post.string_data().is_none());
}

#[test]
fn post_version_two_exposes_names() {
    let mut bytes = post_header([0x00, 0x02, 0x00, 0x00]);
    bytes.extend_from_slice(&[0x00, 0x02]); // two glyphs
    bytes.extend_from_slice(&[0x00, 0x03, 0x01, 0x04]); // name indices
    bytes.extend_from_slice(&[0x61, 0x62]); // string data
    let post = Post::read(FontData::new(&bytes)).unwrap();
    assert!(matches!(post, Post::Post2_0(_)));
    let names = post.glyph_name_index().unwrap();
    assert_eq!(names.len(), 2);
    assert_eq!(names.get(0), Some(3));
    assert_eq!(names.get(1), Some(0x0104));
    let storage = post.string_data().unwrap();
    assert_eq!(storage.as_bytes(), &[0x61, 0x62]);
}

#[test]
fn post_unknown_discriminant_is_reported_not_consumed() {
    let bytes = post_header([0x00, 0x04, 0x00, 0x00]);
    let data = FontData::new(&bytes);
    // the dispatcher rejects the discriminant and carries the raw value
    match Post::read(data) {
        Err(ReadError::UnrecognizedFormat(raw)) => assert_eq!(raw, 0x0004_0000),
        _ => panic!("expected an unrecognized-format error"),
    }
    // nothing was consumed: a secondary interpretation of the same
    // buffer still sees every byte
    let reread = fontcodec::Post1_0::read(data).unwrap();
    assert_eq!(reread.version(), 0x0004_0000);
    assert_eq!(reread.underline_position(), -100);
}

#[test]
fn post_short_buffer_unknown_discriminant_still_reported() {
    // even a buffer holding only the discriminant and a few more bytes
    // is rejected for its unknown version, not for its length
    let bytes = vec![0x00, 0x04, 0x00, 0x00, 0x55, 0x66];
    match Post::read(FontData::new(&bytes)) {
        Err(ReadError::UnrecognizedFormat(raw)) => assert_eq!(raw, 0x0004_0000),
        _ => panic!("expected an unrecognized-format error"),
    }
}

#[test]
fn post_truncated_header_rejected() {
    let bytes = vec![0x00, 0x01, 0x00, 0x00, 0x55];
    assert!(matches!(
        Post::read(FontData::new(&bytes)),
        Err(ReadError::OutOfBounds)
    ));
}

fn sample_name_table() -> Vec<u8> {
    let mut v = vec![
        0x00, 0x00, // version 0
        0x00, 0x02, // two records
        0x00, 0x1E, // storage at byte 30
    ];
    // record 0: platform 0 (UTF-16BE), name 1, 4 bytes at storage + 0
    v.extend_from_slice(&[0x00, 0x00, 0x00, 0x03, 0x00, 0x00, 0x00, 0x01, 0x00, 0x04, 0x00, 0x00]);
    // record 1: platform 1, encoding 0 (Mac Roman), 2 bytes at storage + 4
    v.extend_from_slice(&[0x00, 0x01, 0x00, 0x00, 0x00, 0x00, 0x00, 0x02, 0x00, 0x02, 0x00, 0x04]);
    v.extend_from_slice(&[0x00, 0x41, 0x00, 0x42]); // "AB" in UTF-16BE
    v.extend_from_slice(&[0x41, 0x80]); // "A" then 0x80 in Mac Roman
    v
}

#[test]
fn name_resolve_and_decode_utf16() {
    let bytes = sample_name_table();
    let name = Name::read(FontData::new(&bytes)).unwrap();
    let record = match &name {
        Name::Version0(t) => t.name_record().get(0).unwrap(),
        Name::Version1(_) => panic!("version 0 expected"),
    };
    assert_eq!(record.platform_id, 0);
    assert_eq!(record.name_id, 1);
    let entry = name.resolve(&record).unwrap();
    let mut chars = entry.chars();
    assert_eq!(chars.next(), Some('A'));
    assert_eq!(chars.next(), Some('B'));
    assert_eq!(chars.next(), None);
}

#[test]
fn name_resolve_and_decode_mac_roman() {
    let bytes = sample_name_table();
    let name = Name::read(FontData::new(&bytes)).unwrap();
    let record = match &name {
        Name::Version0(t) => t.name_record().get(1).unwrap(),
        Name::Version1(_) => panic!("version 0 expected"),
    };
    let entry = name.resolve(&record).unwrap();
    let mut chars = entry.chars();
    assert_eq!(chars.next(), Some('A'));
    // byte 0x80 maps through the Mac Roman table to U+00C4
    assert_eq!(chars.next(), Some('\u{C4}'));
    assert_eq!(chars.next(), None);
}

#[test]
fn name_decode_surrogate_pair() {
    let mut table = vec![0x00, 0x00, 0x00, 0x01, 0x00, 0x12];
    table.extend_from_slice(&[
        0x00, 0x00, 0x00, 0x03, 0x00, 0x00, 0x00, 0x01, 0x00, 0x04, 0x00, 0x00,
    ]);
    table.extend_from_slice(&[0xD8, 0x01, 0xDC, 0x37]);
    let name = Name::read(FontData::new(&table)).unwrap();
    let record = match &name {
        Name::Version0(t) => t.name_record().get(0).unwrap(),
        Name::Version1(_) => panic!("version 0 expected"),
    };
    let entry = name.resolve(&record).unwrap();
    let mut chars = entry.chars();
    assert_eq!(chars.next(), Some('\u{10437}'));
    assert_eq!(chars.next(), None);
}

#[test]
fn name_decode_lone_surrogate_replaced() {
    let mut table = vec![0x00, 0x00, 0x00, 0x01, 0x00, 0x12];
    table.extend_from_slice(&[
        0x00, 0x00, 0x00, 0x03, 0x00, 0x00, 0x00, 0x01, 0x00, 0x02, 0x00, 0x00,
    ]);
    table.extend_from_slice(&[0xDC, 0x00]);
    let name = Name::read(FontData::new(&table)).unwrap();
    let record = match &name {
        Name::Version0(t) => t.name_record().get(0).unwrap(),
        Name::Version1(_) => panic!("version 0 expected"),
    };
    let entry = name.resolve(&record).unwrap();
    let mut chars = entry.chars();
    assert_eq!(chars.next(), Some('\u{FFFD}'));
    assert_eq!(chars.next(), None);
}

#[test]
fn name_unknown_version_is_reported() {
    let bytes = vec![0x00, 0x07, 0x00, 0x00, 0x00, 0x06];
    match Name::read(FontData::new(&bytes)) {
        Err(ReadError::UnrecognizedFormat(raw)) => assert_eq!(raw, 7),
        _ => panic!("expected an unrecognized-format error"),
    }
}

#[test]
fn name_null_storage_offset_is_absent() {
    let mut v = vec![0x00, 0x00, 0x00, 0x01, 0x00, 0x00];
    v.extend_from_slice(&[0x00, 0x00, 0x00, 0x03, 0x00, 0x00, 0x00, 0x01, 0x00, 0x04, 0x00, 0x00]);
    let name = Name::read(FontData::new(&v)).unwrap();
    let record = match &name {
        Name::Version0(t) => t.name_record().get(0).unwrap(),
        Name::Version1(_) => panic!("version 0 expected"),
    };
    assert!(name.resolve(&record).is_none());
}

#[test]
fn compatible_is_at_least() {
    assert!(fontcodec::compatible(1, 1));
    assert!(fontcodec::compatible(2, 1));
    assert!(!fontcodec::compatible(0, 1));
}

#[test]
fn cpal_shape_reports_byte_ranges() {
    let bytes = sample_cpal_v1();
    let cpal = fontcodec::Cpal::read(FontData::new(&bytes)).unwrap();
    let shape = cpal.shape();
    assert_eq!(shape.version_byte_range(), 0..2);
    assert_eq!(shape.num_palette_entries_byte_range(), 2..4);
    assert_eq!(shape.num_palettes_byte_range(), 4..6);
    assert_eq!(shape.num_color_records_byte_range(), 6..8);
    assert_eq!(shape.color_records_array_offset_byte_range(), 8..12);
    assert_eq!(shape.color_record_indices_byte_range(), 12..14);
    assert_eq!(shape.palette_types_array_offset_byte_range(), Some(14..18));
    assert_eq!(shape.palette_labels_array_offset_byte_range(), Some(18..22));
    assert_eq!(shape.palette_entry_labels_array_offset_byte_range(), Some(22..26));
}

#[test]
fn cpal_resolves_versioned_arrays() {
    // version 1 with live palette-types, labels and entry-labels arrays
    let mut v = vec![
        0x00, 0x01, // version 1
        0x00, 0x02, // two palette entries
        0x00, 0x01, // one palette
        0x00, 0x01, // one color record
        0x00, 0x00, 0x00, 0x1A, // color records at byte 26
        0x00, 0x00, // palette 0 starts at record 0
        0x00, 0x00, 0x00, 0x1E, // palette types at byte 30
        0x00, 0x00, 0x00, 0x22, // palette labels at byte 34
        0x00, 0x00, 0x00, 0x24, // entry labels at byte 36
    ];
    v.extend_from_slice(&[1, 2, 3, 4]); // the color record
    v.extend_from_slice(&[0x00, 0x00, 0x00, 0x05]); // one palette type word
    v.extend_from_slice(&[0x01, 0x00]); // one palette label
    v.extend_from_slice(&[0x02, 0x00, 0x02, 0x01]); // two entry labels
    let cpal = fontcodec::Cpal::read(FontData::new(&v)).unwrap();
    let types = cpal.palette_types_array().unwrap().unwrap();
    assert_eq!(types.len(), 1);
    assert_eq!(types.get(0), Some(5));
    let labels = cpal.palette_labels_array().unwrap().unwrap();
    assert_eq!(labels.get(0), Some(0x0100));
    let entry_labels = cpal.palette_entry_labels_array().unwrap().unwrap();
    assert_eq!(entry_labels.len(), 2);
    assert_eq!(entry_labels.get(0), Some(0x0200));
    assert_eq!(entry_labels.get(1), Some(0x0201));
    // an out-of-range offset in a versioned field is an error, not a panic
    let pos = 14;
    v[pos] = 0xFF;
    v[pos + 1] = 0xFF;
    v[pos + 2] = 0xFF;
    v[pos + 3] = 0xFF;
    let bad = fontcodec::Cpal::read(FontData::new(&v)).unwrap();
    assert!(matches!(
        bad.palette_types_array(),
        Some(Err(ReadError::OutOfBounds))
    ));
}

#[test]
fn name_version_one_lang_tags() {
    let mut v = vec![
        0x00, 0x01, // version 1
        0x00, 0x01, // one record
        0x00, 0x18, // storage at byte 24
    ];
    v.extend_from_slice(&[
        0x00, 0x00, 0x00, 0x03, 0x00, 0x00, 0x00, 0x01, 0x00, 0x02, 0x00, 0x00,
    ]);
    v.extend_from_slice(&[0x00, 0x01]); // one language-tag record
    v.extend_from_slice(&[0x00, 0x05, 0x00, 0x02]); // its length and offset
    v.extend_from_slice(&[0x00, 0x41]); // storage: "A"
    let name = Name::read(FontData::new(&v)).unwrap();
    let table = match &name {
        Name::Version1(t) => t,
        Name::Version0(_) => panic!("version 1 expected"),
    };
    assert_eq!(table.version(), 1);
    assert_eq!(table.count(), 1);
    assert_eq!(table.lang_tag_count(), 1);
    let tag = table.lang_tag_record(0).unwrap();
    assert_eq!(tag.length, 5);
    assert_eq!(tag.lang_tag_offset, 2);
    assert!(table.lang_tag_record(1).is_none());
    // name records still resolve in the version 1 shape
    let record = table.name_record().get(0).unwrap();
    let entry = name.resolve(&record).unwrap();
    let mut chars = entry.chars();
    assert_eq!(chars.next(), Some('A'));
    assert_eq!(chars.next(), None);
}

#[test]
fn wide_offsets_and_reads() {
    let o = fontcodec::Offset24::new(0x010203).unwrap();
    assert_eq!(o.to_raw(), 0x010203);
    assert!(fontcodec::Offset24::new(0).is_none());
    let o32 = fontcodec::Offset32::new(7).unwrap();
    assert_eq!(o32.to_raw(), 7);
    let bytes = [0x01, 0x02, 0x03, 0x04, 0x05];
    let data = FontData::new(&bytes);
    assert_eq!(data.read_u24_at(0), Ok(0x010203));
    assert_eq!(data.read_u24_at(2), Ok(0x030405));
    assert!(data.read_u24_at(3).is_err());
    assert_eq!(data.read_u32_at(1), Ok(0x02030405));
    assert_eq!(data.read_i16_at(0), Ok(0x0102));
}
