//! Tests for the packed delta and point-number codecs.

use fontcodec::PackedDeltaRun;
use fontcodec::PackedDeltas;
use fontcodec::PackedPointNumbers;
use fontcodec::decode_packed_deltas;
use fontcodec::decode_packed_points;
use fontcodec::dump_table;
use fontcodec::encode_packed_deltas;
use fontcodec::encode_packed_points;

#[test]
fn point_pack_words() {
    let thing = PackedPointNumbers::new(vec![1002, 2002, 8408, 12228], false);

    let runs = thing.iter_runs();
    assert_eq!(runs.len(), 1);
    assert!(runs[0].are_words);
    assert_eq!(runs[0].last_point, 0);
    assert_eq!(runs[0].points, vec![1002, 2002, 8408, 12228]);
}

#[test]
fn serialize_packed_points() {
    let thing = PackedPointNumbers::new(vec![1002, 2002, 8408, 12228], false);

    let bytes = dump_table(&thing).unwrap();
    let read = decode_packed_points(&bytes).unwrap();
    assert_eq!(*thing.numbers(), read);
}

#[test]
fn point_pack_runs() {
    let thing = PackedPointNumbers::new(vec![5, 25, 225, 1002, 2002, 2008, 2228], false);

    let runs = thing.iter_runs();
    assert!(!runs[0].are_words);
    assert_eq!(runs[0].last_point, 0);
    assert_eq!(runs[0].points, vec![5, 25, 225]);

    assert!(runs[1].are_words);
    assert_eq!(runs[1].last_point, 225);
    assert_eq!(runs[1].points, vec![1002, 2002]);

    assert!(!runs[2].are_words);
    assert_eq!(runs[2].last_point, 2002);
    assert_eq!(runs[2].points, vec![2008, 2228]);

    assert_eq!(runs.len(), 3);
}

#[test]
fn point_pack_long_runs() {
    let mut numbers = vec![0u16; 130];
    numbers.extend(1u16..=130u16);
    let thing = PackedPointNumbers::new(numbers, false);

    let runs = thing.iter_runs();
    assert!(!runs[0].are_words);
    assert_eq!(runs[0].points.len(), 128);
    assert_eq!(runs[1].last_point, 0);
    assert_eq!(runs[1].points.len(), 128);
    assert_eq!(runs[2].last_point, 126);
    assert_eq!(runs[2].points, vec![127, 128, 129, 130]);
    assert!(runs.get(3).is_none());
}

#[test]
fn point_pack_write() {
    let thing = PackedPointNumbers::new(vec![5, 25, 225, 1002, 2002, 2008, 2228], false);

    let bytes = dump_table(&thing).unwrap();
    let read = decode_packed_points(&bytes).unwrap();
    assert_eq!(*thing.numbers(), read);
}

#[test]
fn packed_deltas_spec_runs() {
    let deltas = PackedDeltas::new(vec![10, -105, 0, -58, 0, 0, 0, 0, 0, 0, 0, 0, 4130, -1228]);
    let runs = deltas.iter_runs();
    assert_eq!(runs[0], PackedDeltaRun::OneByte(vec![10, -105, 0, -58]));
    assert_eq!(runs[1], PackedDeltaRun::Zeros(8));
    assert_eq!(runs[2], PackedDeltaRun::TwoBytes(vec![4130, -1228]));
    assert!(runs.get(3).is_none());
}

#[test]
fn packed_deltas_spec_write() {
    let packed_delta_bytes: Vec<u8> = vec![
        0x03, 0x0A, 0x97, 0x00, 0xC6, 0x87, 0x41, 0x10, 0x22, 0xFB, 0x34,
    ];
    let deltas = PackedDeltas::new(vec![10, -105, 0, -58, 0, 0, 0, 0, 0, 0, 0, 0, 4130, -1228]);
    let bytes = dump_table(&deltas).unwrap();
    assert_eq!(bytes, packed_delta_bytes);
    let decoded = decode_packed_deltas(&bytes).unwrap();
    assert_eq!(deltas.deltas().len(), decoded.len());
    assert_eq!(*deltas.deltas(), decoded);
    assert_eq!(bytes, packed_delta_bytes);
}

#[test]
fn delta_run_control_bytes() {
    assert_eq!(PackedDeltaRun::OneByte(vec![10, -105, 0, -58]).compute_flag(), 0x03);
    assert_eq!(PackedDeltaRun::Zeros(8).compute_flag(), 0x87);
    assert_eq!(PackedDeltaRun::TwoBytes(vec![4130, -1228]).compute_flag(), 0x41);
}

#[test]
fn empty_deltas() {
    let deltas = PackedDeltas::new(vec![]);
    let bytes = dump_table(&deltas).unwrap();
    assert!(bytes.is_empty());
}

#[test]
fn delta_round_trip_all_zeros() {
    let deltas: Vec<i16> = vec![0; 200];
    let bytes = encode_packed_deltas(&deltas);
    // 200 zeros need four runs: the length field holds at most 64
    assert_eq!(bytes, vec![0x80 | 63, 0x80 | 63, 0x80 | 63, 0x80 | 7]);
    assert_eq!(decode_packed_deltas(&bytes).unwrap(), deltas);
}

#[test]
fn delta_round_trip_long_wide_run() {
    let mut deltas: Vec<i16> = Vec::new();
    for i in 0..70i16 {
        deltas.push(1000 + i);
    }
    let bytes = encode_packed_deltas(&deltas);
    // 70 words split at the 64-element cap: two word runs
    assert_eq!(bytes[0], 0x40 | 63);
    assert_eq!(bytes[1 + 2 * 64], 0x40 | 5);
    assert_eq!(decode_packed_deltas(&bytes).unwrap(), deltas);
}

#[test]
fn delta_single_byte_run() {
    let deltas: Vec<i16> = vec![1, -1, 127, -128];
    let bytes = encode_packed_deltas(&deltas);
    assert_eq!(bytes, vec![0x03, 0x01, 0xFF, 0x7F, 0x80]);
    assert_eq!(decode_packed_deltas(&bytes).unwrap(), deltas);
}

#[test]
fn delta_decode_rejects_truncated_payload() {
    // a word run announcing two deltas with only one byte of payload
    let bytes: Vec<u8> = vec![0x41, 0x10];
    assert!(decode_packed_deltas(&bytes).is_none());
}

#[test]
fn point_round_trip_mixed_widths() {
    let numbers: Vec<u16> = vec![5, 25, 225, 1002, 2002, 2008, 2228];
    let bytes = encode_packed_points(&numbers, false);
    // count, then three runs: 3 byte deltas, 2 word deltas, 2 byte deltas
    assert_eq!(bytes[0], 7);
    assert_eq!(bytes[1], 2);
    assert_eq!(decode_packed_points(&bytes).unwrap(), numbers);
}

#[test]
fn point_round_trip_large_count() {
    let numbers: Vec<u16> = (0u16..300u16).collect();
    let bytes = encode_packed_points(&numbers, false);
    // 300 points need the two-byte count form with its flag bit
    assert_eq!(bytes[0], 0x80 | (300u16 / 256) as u8);
    assert_eq!(bytes[1], (300 % 256) as u8);
    assert_eq!(decode_packed_points(&bytes).unwrap(), numbers);
}

#[test]
fn point_numbers_length_validated() {
    let numbers: Vec<u16> = vec![1; 0x8000];
    let thing = PackedPointNumbers::new(numbers, false);
    match dump_table(&thing) {
        Err(fontcodec::DumpError::Validation(errs)) => {
            assert_eq!(errs.len(), 1);
            assert_eq!(errs[0].table, "PackedPointNumbers");
            assert_eq!(errs[0].field, "numbers");
        },
        _ => panic!("expected a validation failure"),
    }
}

#[test]
fn point_numbers_order_validated() {
    let thing = PackedPointNumbers::new(vec![5, 3], false);
    match dump_table(&thing) {
        Err(fontcodec::DumpError::Validation(errs)) => {
            assert_eq!(errs.len(), 1);
            assert_eq!(errs[0].message, "point numbers are not sorted");
        },
        _ => panic!("expected a validation failure"),
    }
}
