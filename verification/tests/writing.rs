//! Tests for the offset-graph writer and the serialized record family.

use fontcodec::AxisInstanceArrays;
use fontcodec::DumpError;
use fontcodec::Fixed;
use fontcodec::FontData;
use fontcodec::Fvar;
use fontcodec::InstanceRecord;
use fontcodec::MajorMinor;
use fontcodec::Tag;
use fontcodec::VariationAxisRecord;
use fontcodec::dump_table;
use fontcodec::read_fvar;

fn sample_axes() -> Vec<VariationAxisRecord> {
    vec![
        VariationAxisRecord::new(
            Tag::new(0x77, 0x67, 0x68, 0x74), // "wght"
            Fixed::from_i32(100),
            Fixed::from_i32(400),
            Fixed::from_i32(900),
            0,
            256,
        ),
        VariationAxisRecord::new(
            Tag::new(0x77, 0x64, 0x74, 0x68), // "wdth"
            Fixed::from_i32(-50),
            Fixed::from_i32(0),
            Fixed::from_i32(50),
            1,
            257,
        ),
    ]
}

#[test]
fn writer_round_trip_with_nested_sub_object() {
    let axes = sample_axes();
    let instances = vec![
        InstanceRecord::new(
            300,
            0,
            vec![Fixed::from_i32(700), Fixed::from_i32(25)],
            None,
        ),
    ];
    let fvar = Fvar::new(MajorMinor::new(1, 0), AxisInstanceArrays::new(axes, instances), 2, 1);

    let bytes = dump_table(&fvar).unwrap();
    // the header is 16 bytes and its offset field points right after it
    assert_eq!(bytes[4], 0);
    assert_eq!(bytes[5], 16);

    let (version, axis_count, instance_count, axes_back, instances_back) =
        read_fvar(&FontData::new(&bytes)).unwrap();
    assert_eq!(version, MajorMinor::new(1, 0));
    assert_eq!(axis_count, 2);
    assert_eq!(instance_count, 1);
    assert_eq!(axes_back, sample_axes());
    assert_eq!(instances_back.len(), 1);
    assert_eq!(instances_back[0].subfamily_name_id, 300);
    assert_eq!(instances_back[0].flags, 0);
    assert_eq!(
        instances_back[0].coordinates,
        vec![Fixed::from_i32(700), Fixed::from_i32(25)]
    );
    assert_eq!(instances_back[0].post_script_name_id, None);
}

#[test]
fn writer_round_trip_with_postscript_names() {
    let axes = sample_axes();
    let instances = vec![
        InstanceRecord::new(300, 0, vec![Fixed::from_i32(700), Fixed::from_i32(25)], Some(301)),
        InstanceRecord::new(302, 0, vec![Fixed::from_i32(100), Fixed::from_i32(0)], Some(303)),
    ];
    let fvar = Fvar::new(MajorMinor::new(1, 0), AxisInstanceArrays::new(axes, instances), 2, 2);

    let bytes = dump_table(&fvar).unwrap();
    // instance size 4 * 2 + 6 marks the PostScript name field present
    assert_eq!(bytes[14], 0);
    assert_eq!(bytes[15], 14);

    let (_, _, instance_count, _, instances_back) = read_fvar(&FontData::new(&bytes)).unwrap();
    assert_eq!(instance_count, 2);
    assert_eq!(instances_back[0].post_script_name_id, Some(301));
    assert_eq!(instances_back[1].post_script_name_id, Some(303));
}

#[test]
fn writer_rejects_mismatched_counts() {
    let fvar = Fvar::new(
        MajorMinor::new(1, 0),
        AxisInstanceArrays::new(sample_axes(), vec![]),
        3, // the axes array holds 2 records
        0,
    );
    match dump_table(&fvar) {
        Err(DumpError::Validation(errs)) => {
            assert_eq!(errs.len(), 1);
            assert_eq!(errs[0].table, "Fvar");
            assert_eq!(errs[0].field, "axis_count");
        },
        _ => panic!("expected a validation failure"),
    }
}

#[test]
fn writer_rejects_uneven_coordinate_counts() {
    let instances = vec![InstanceRecord::new(300, 0, vec![Fixed::from_i32(700)], None)];
    let fvar = Fvar::new(
        MajorMinor::new(1, 0),
        AxisInstanceArrays::new(sample_axes(), instances),
        2,
        1,
    );
    match dump_table(&fvar) {
        Err(DumpError::Validation(errs)) => {
            assert_eq!(errs.len(), 1);
            assert_eq!(errs[0].table, "AxisInstanceArrays");
            assert_eq!(errs[0].field, "instances");
        },
        _ => panic!("expected a validation failure"),
    }
}

#[test]
fn writer_rejects_mixed_postscript_names() {
    let instances = vec![
        InstanceRecord::new(300, 0, vec![Fixed::from_i32(700), Fixed::from_i32(0)], Some(301)),
        InstanceRecord::new(302, 0, vec![Fixed::from_i32(100), Fixed::from_i32(0)], None),
    ];
    let fvar = Fvar::new(
        MajorMinor::new(1, 0),
        AxisInstanceArrays::new(sample_axes(), instances),
        2,
        2,
    );
    match dump_table(&fvar) {
        Err(DumpError::Validation(errs)) => {
            assert_eq!(errs.len(), 1);
            assert_eq!(
                errs[0].message,
                "PostScript name identifiers must be present on all instances or none"
            );
        },
        _ => panic!("expected a validation failure"),
    }
}

#[test]
fn empty_arrays_still_round_trip() {
    let fvar = Fvar::new(MajorMinor::new(1, 0), AxisInstanceArrays::new(vec![], vec![]), 0, 0);
    let bytes = dump_table(&fvar).unwrap();
    assert_eq!(bytes.len(), 16);
    let (version, axis_count, instance_count, axes_back, instances_back) =
        read_fvar(&FontData::new(&bytes)).unwrap();
    assert_eq!(version, MajorMinor::new(1, 0));
    assert_eq!(axis_count, 0);
    assert_eq!(instance_count, 0);
    assert!(axes_back.is_empty());
    assert!(instances_back.is_empty());
}
