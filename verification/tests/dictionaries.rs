//! Tests for the dictionary-entry decision logic.

use fontcodec::Blues;
use fontcodec::DictEntry;
use fontcodec::Fixed;
use fontcodec::SubfontState;
use fontcodec::TopDict;

#[test]
fn top_dict_last_entry_wins() {
    let entries = vec![
        DictEntry::CharstringsOffset(10),
        DictEntry::FdArrayOffset(20),
        DictEntry::CharstringsOffset(30),
        DictEntry::PrivateDictRange(40, 60),
        DictEntry::Other,
    ];
    let top = TopDict::new(&entries, false);
    assert_eq!(top.charstrings(), Some(30));
    assert_eq!(top.font_dicts(), Some(20));
    assert_eq!(top.fd_select(), None);
    assert_eq!(top.private_dict_range(None), Some((40, 60)));
}

#[test]
fn top_dict_takes_variation_store_only_in_newer_format() {
    let entries = vec![DictEntry::VariationStoreOffset(100)];
    let old_format = TopDict::new(&entries, false);
    assert_eq!(old_format.var_store(), None);
    let new_format = TopDict::new(&entries, true);
    // the stored offset plus the two-byte length prefix of the store
    assert_eq!(new_format.var_store(), Some(102));
}

#[test]
fn subfont_dictionary_decides_private_range_by_first_entry() {
    let top = TopDict::new(&vec![DictEntry::PrivateDictRange(1, 2)], false);
    let font_dict = vec![
        DictEntry::Other,
        DictEntry::PrivateDictRange(10, 20),
        DictEntry::PrivateDictRange(30, 40),
    ];
    // the subfont's own first range wins over everything after it
    assert_eq!(top.private_dict_range(Some(&font_dict)), Some((10, 20)));
    // without a range of its own, the subfont has none: the top-level
    // range is only a fallback when there are no subfont dictionaries
    assert_eq!(top.private_dict_range(Some(&vec![DictEntry::Other])), None);
    assert_eq!(top.private_dict_range(None), Some((1, 2)));
}

#[test]
fn subfont_state_accumulates_hint_parameters() {
    let mut state = SubfontState::new_default();
    assert_eq!(state.hint_params.blue_scale, Fixed::from_bits(2597));
    assert_eq!(state.hint_params.blue_shift, Fixed::from_bits(7 * 0x10000));
    assert_eq!(state.hint_params.blue_fuzz, Fixed::from_bits(0x10000));
    assert_eq!(state.hint_params.language_group, 0);
    assert_eq!(state.subrs_offset, None);
    assert_eq!(state.store_index, 0);

    let zones = Blues {
        values: vec![(Fixed::from_i32(-15), Fixed::from_i32(0))],
    };
    let family_zones = Blues {
        values: vec![(Fixed::from_i32(480), Fixed::from_i32(490))],
    };
    state.apply(DictEntry::BlueValues(zones.clone()), 100);
    state.apply(DictEntry::FamilyOtherBlues(family_zones.clone()), 100);
    state.apply(DictEntry::BlueScale(Fixed::from_bits(4096)), 100);
    state.apply(DictEntry::SubrsOffset(40), 100);
    state.apply(DictEntry::VariationStoreIndex(3), 100);
    state.apply(DictEntry::Other, 100);

    assert_eq!(state.hint_params.blues, zones);
    assert_eq!(state.hint_params.family_other_blues, family_zones);
    assert!(state.hint_params.family_blues.values.is_empty());
    assert_eq!(state.hint_params.blue_scale, Fixed::from_bits(4096));
    // the subroutine offset is relative to the private dictionary
    assert_eq!(state.subrs_offset, Some(140));
    assert_eq!(state.store_index, 3);
}

#[test]
fn version_selection_prefers_newer_format() {
    let newer = fontcodec::select_version(true);
    assert!(newer.is_cff2());
    let older = fontcodec::select_version(false);
    assert!(!older.is_cff2());
    assert_eq!(older, fontcodec::CffVersion::Version1 { top_dict_index: 0 });
}

#[test]
fn default_private_dict_data_slices_the_range() {
    let bytes = [0u8, 1, 2, 3, 4, 5, 6, 7];
    let data = fontcodec::FontData::new(&bytes);
    let top = TopDict::new(&vec![DictEntry::PrivateDictRange(2, 5)], false);
    let dict = top.default_private_dict_data(&data).unwrap();
    assert_eq!(dict.as_bytes(), &[2, 3, 4]);
    // a range past the end is absent, not a panic
    let bad = TopDict::new(&vec![DictEntry::PrivateDictRange(2, 9)], false);
    assert!(bad.default_private_dict_data(&data).is_none());
    // no range, no data
    let none = TopDict::new(&vec![], false);
    assert!(none.default_private_dict_data(&data).is_none());
}

#[test]
fn subfont_count_and_index_defaults() {
    let with_dicts = TopDict::new(&vec![DictEntry::FdArrayOffset(4)], false);
    assert_eq!(with_dicts.subfont_count(3), 3);
    let without = TopDict::new(&vec![], false);
    assert_eq!(without.subfont_count(3), 1);
    assert_eq!(without.subfont_index(Some(2)), 2);
    assert_eq!(without.subfont_index(None), 0);
}

#[test]
fn region_list_axis_count() {
    let region = fontcodec::VariationRegion {
        region_axes: vec![
            fontcodec::RegionAxisCoordinates { start_coord: 0, peak_coord: 0x4000, end_coord: 0x4000 },
            fontcodec::RegionAxisCoordinates { start_coord: 0, peak_coord: 0, end_coord: 0 },
        ],
    };
    let list = fontcodec::VariationRegionList { variation_regions: vec![region.clone(), region] };
    assert_eq!(list.compute_axis_count(), 2);
    let empty = fontcodec::VariationRegionList { variation_regions: vec![] };
    assert_eq!(empty.compute_axis_count(), 0);
}
