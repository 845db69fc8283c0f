//! Decision logic for reading outline-program state out of dictionary
//! entries.
//!
//! The dictionaries themselves (compact binary key/value streams) are
//! parsed by an external collaborator; this module receives their entries
//! as plain values and makes the decisions: which entry of each kind
//! wins, where the private dictionary and subroutine data live, and what
//! hinting parameters a subfont instance carries.

use vstd::prelude::*;

use crate::font_data::FontData;
use crate::fvar::Fixed;

verus! {

/// Which underlying table family outline reading works from.
#[derive(Clone, Copy, Debug, PartialEq, Eq, Structural)]
pub enum CffVersion {
    /// The older format; its dictionary list must hold exactly one
    /// entry, read at this index.
    Version1 { top_dict_index: usize },
    /// The newer format.
    Version2,
}

impl CffVersion {
    /// Is this the newer format?
    pub fn is_cff2(&self) -> (r: bool)
        ensures
            r == (self matches CffVersion::Version2),
    {
        matches!(self, CffVersion::Version2)
    }
}

/// Choose which table family to read: the newer one whenever the record
/// provides it, else the older one with its single top dictionary at
/// index 0.
pub fn select_version(has_cff2: bool) -> (r: CffVersion)
    ensures
        r == if has_cff2 {
            CffVersion::Version2
        } else {
            (CffVersion::Version1 { top_dict_index: 0 })
        },
{
    if has_cff2 {
        CffVersion::Version2
    } else {
        CffVersion::Version1 { top_dict_index: 0 }
    }
}

/// Alignment-zone pairs for hinting, in 16.16 fixed point.
#[derive(Clone, Debug, PartialEq, Eq)]
pub struct Blues {
    /// The zone boundaries, bottom and top of each band.
    pub values: Vec<(Fixed, Fixed)>,
}

impl Blues {
    /// No zones.
    pub fn new() -> (r: Self)
        ensures
            r.values@.len() == 0,
    {
        Blues { values: Vec::new() }
    }
}

/// One dictionary entry, as the external parser hands it over: plain
/// offsets, ranges and values.
#[derive(Clone, Debug)]
pub enum DictEntry {
    /// Offset of the character-program index, relative to the table.
    CharstringsOffset(usize),
    /// Offset of the subfont dictionary index, relative to the table.
    FdArrayOffset(usize),
    /// Offset of the glyph-to-subfont mapping, relative to the table.
    FdSelectOffset(usize),
    /// Byte range of the private dictionary within the table.
    PrivateDictRange(usize, usize),
    /// Offset of the item variation store, relative to the table.
    VariationStoreOffset(usize),
    /// Offset of the local subroutine index, relative to the private
    /// dictionary.
    SubrsOffset(usize),
    /// Which item variation data to use during blending.
    VariationStoreIndex(u16),
    /// Primary alignment zones.
    BlueValues(Blues),
    /// Family-wide alignment zones.
    FamilyBlues(Blues),
    /// Secondary alignment zones.
    OtherBlues(Blues),
    /// Family-wide secondary alignment zones.
    FamilyOtherBlues(Blues),
    /// Zone-snapping scale threshold.
    BlueScale(Fixed),
    /// Overshoot suppression threshold.
    BlueShift(Fixed),
    /// Zone-matching fuzz.
    BlueFuzz(Fixed),
    /// Language group for counter handling.
    LanguageGroup(i32),
    /// Anything this reader does not act on.
    Other,
}

/// The entries a top-level dictionary contributes to charstring
/// evaluation: each field holds the value of the last entry of its kind,
/// as plain offsets and ranges into the owning table.
#[derive(Clone, Debug, PartialEq, Eq)]
pub struct TopDict {
    /// Offset of the character-program index.
    pub charstrings: Option<usize>,
    /// Offset of the subfont dictionary index.
    pub font_dicts: Option<usize>,
    /// Offset of the glyph-to-subfont mapping.
    pub fd_select: Option<usize>,
    /// Byte range of the private dictionary.
    pub private_dict_range: Option<(usize, usize)>,
    /// Position of the item variation store itself: the dictionary's
    /// stored offset plus the two-byte length field that precedes the
    /// store.  Only honoured in the newer format, which is the only one
    /// that stores variations.
    pub var_store: Option<usize>,
}

/// The empty accumulator the fold starts from.
pub open spec fn top_dict_empty() -> TopDict {
    TopDict {
        charstrings: None,
        font_dicts: None,
        fd_select: None,
        private_dict_range: None,
        var_store: None,
    }
}

/// One fold step: how a single entry updates the accumulated state.
pub open spec fn top_dict_apply(acc: TopDict, e: DictEntry, is_cff2: bool) -> TopDict {
    match e {
        DictEntry::CharstringsOffset(o) => TopDict { charstrings: Some(o), ..acc },
        DictEntry::FdArrayOffset(o) => TopDict { font_dicts: Some(o), ..acc },
        DictEntry::FdSelectOffset(o) => TopDict { fd_select: Some(o), ..acc },
        DictEntry::PrivateDictRange(s, e2) => TopDict { private_dict_range: Some((s, e2)), ..acc },
        DictEntry::VariationStoreOffset(o) => if is_cff2 {
            TopDict {
                var_store: Some(
                    if o + 2 <= usize::MAX {
                        (o + 2) as usize
                    } else {
                        usize::MAX
                    },
                ),
                ..acc
            }
        } else {
            acc
        },
        _ => acc,
    }
}

/// The whole fold, front to back: later entries of a kind override
/// earlier ones.
pub open spec fn top_dict_fold(acc: TopDict, entries: Seq<DictEntry>, is_cff2: bool) -> TopDict
    decreases entries.len(),
{
    if entries.len() == 0 {
        acc
    } else {
        top_dict_fold(top_dict_apply(acc, entries[0], is_cff2), entries.skip(1), is_cff2)
    }
}

/// Folding one more entry at the back applies it to the fold of the
/// front.
proof fn lemma_top_dict_fold_push(acc: TopDict, entries: Seq<DictEntry>, e: DictEntry, is_cff2: bool)
    ensures
        top_dict_fold(acc, entries.push(e), is_cff2) == top_dict_apply(
            top_dict_fold(acc, entries, is_cff2),
            e,
            is_cff2,
        ),
    decreases entries.len(),
{
    if entries.len() == 0 {
        assert(entries.push(e)[0] == e);
        assert(entries.push(e).skip(1) =~= Seq::<DictEntry>::empty());
        assert(top_dict_fold(
            top_dict_apply(acc, e, is_cff2),
            Seq::<DictEntry>::empty(),
            is_cff2,
        ) == top_dict_apply(acc, e, is_cff2));
    } else {
        assert(entries.push(e)[0] == entries[0]);
        assert(entries.push(e).skip(1) =~= entries.skip(1).push(e));
        lemma_top_dict_fold_push(
            top_dict_apply(acc, entries[0], is_cff2),
            entries.skip(1),
            e,
            is_cff2,
        );
    }
}

impl TopDict {
    /// Collect the evaluation-relevant entries of a top-level
    /// dictionary: for each kind, the last entry wins, and a variation
    /// store is only taken in the newer format.
    pub fn new(entries: &Vec<DictEntry>, is_cff2: bool) -> (r: Self)
        ensures
            r == top_dict_fold(top_dict_empty(), entries@, is_cff2),
    {
        let mut acc = TopDict {
            charstrings: None,
            font_dicts: None,
            fd_select: None,
            private_dict_range: None,
            var_store: None,
        };
        let mut i: usize = 0;
        while i < entries.len()
            invariant
                i <= entries@.len(),
                acc == top_dict_fold(top_dict_empty(), entries@.take(i as int), is_cff2),
            decreases entries@.len() - i,
        {
            let ghost pre = entries@.take(i as int);
            match &entries[i] {
                DictEntry::CharstringsOffset(o) => {
                    acc.charstrings = Some(*o);
                },
                DictEntry::FdArrayOffset(o) => {
                    acc.font_dicts = Some(*o);
                },
                DictEntry::FdSelectOffset(o) => {
                    acc.fd_select = Some(*o);
                },
                DictEntry::PrivateDictRange(s, e) => {
                    acc.private_dict_range = Some((*s, *e));
                },
                DictEntry::VariationStoreOffset(o) => {
                    if is_cff2 {
                        // skip the two-byte length field before the store,
                        // saturating rather than wrapping
                        acc.var_store = Some((*o).saturating_add(2));
                    }
                },
                _ => {},
            }
            proof {
                assert(entries@.take(i + 1) =~= pre.push(entries@[i as int]));
                lemma_top_dict_fold_push(top_dict_empty(), pre, entries@[i as int], is_cff2);
            }
            i = i + 1;
        }
        proof {
            assert(entries@.take(entries@.len() as int) =~= entries@);
        }
        acc
    }

    /// Offset of the character-program index, if the dictionary named
    /// one.
    pub fn charstrings(&self) -> (r: Option<usize>)
        ensures
            r == self.charstrings,
    {
        self.charstrings
    }

    /// Offset of the subfont dictionary index, if the dictionary named
    /// one.
    pub fn font_dicts(&self) -> (r: Option<usize>)
        ensures
            r == self.font_dicts,
    {
        self.font_dicts
    }

    /// Offset of the glyph-to-subfont mapping, if the dictionary named
    /// one.
    pub fn fd_select(&self) -> (r: Option<usize>)
        ensures
            r == self.fd_select,
    {
        self.fd_select
    }

    /// Position of the item variation store, if one was taken: the
    /// stored offset plus its two-byte length prefix, so the value
    /// points at the store itself.
    pub fn var_store(&self) -> (r: Option<usize>)
        ensures
            r == self.var_store,
    {
        self.var_store
    }

    /// Number of available subfonts, given how many entries the external
    /// subfont dictionary index reports: without such an index there is
    /// always one logical subfont.
    pub fn subfont_count(&self, font_dict_count: u32) -> (r: u32)
        ensures
            r == if self.font_dicts is Some {
                font_dict_count as int
            } else {
                1int
            },
    {
        match self.font_dicts {
            Some(_) => font_dict_count,
            None => 1,
        }
    }

    /// The subfont index for a glyph, given what the external
    /// glyph-to-subfont mapping reported: a missing mapping means a
    /// single subfont at index 0, or a private dictionary named by the
    /// top-level dictionary itself.
    pub fn subfont_index(&self, mapped: Option<u16>) -> (r: u32)
        ensures
            r == match mapped {
                Some(ix) => ix as int,
                None => 0int,
            },
    {
        match mapped {
            Some(ix) => ix as u32,
            None => 0,
        }
    }

    /// The bytes of the default private dictionary: the top-level range
    /// sliced out of the owning table, `None` when the dictionary named
    /// no range or the range leaves the buffer.
    pub fn default_private_dict_data<'a>(&self, data: &FontData<'a>) -> (r: Option<FontData<'a>>)
        ensures
            match r {
                Some(d) => {
                    &&& self.private_dict_range matches Some(range)
                    &&& range.0 <= range.1 <= data@.len()
                    &&& d@ == data@.subrange(range.0 as int, range.1 as int)
                },
                None => match self.private_dict_range {
                    Some(range) => !(range.0 <= range.1 <= data@.len()),
                    None => true,
                },
            },
    {
        match self.private_dict_range {
            Some(range) => data.slice(range.0, range.1),
            None => None,
        }
    }

    /// Where the private dictionary lives: a subfont's own dictionary
    /// decides through its first range entry; without subfont
    /// dictionaries, the top-level range applies; with neither, the
    /// private dictionary is missing.
    #[verifier::loop_isolation(false)]
    pub fn private_dict_range(&self, font_dict_entries: Option<&Vec<DictEntry>>) -> (r: Option<
        (usize, usize),
    >)
        ensures
            match font_dict_entries {
                Some(entries) => r == first_private_range(entries@),
                None => r == self.private_dict_range,
            },
    {
        match font_dict_entries {
            Some(entries) => {
                proof {
                    assert(entries@.skip(0) =~= entries@);
                }
                let mut i: usize = 0;
                while i < entries.len()
                    invariant
                        i <= entries@.len(),
                        first_private_range(entries@) == first_private_range(
                            entries@.skip(i as int),
                        ),
                    decreases entries@.len() - i,
                {
                    let ghost rest = entries@.skip(i as int);
                    proof {
                        assert(rest[0] == entries@[i as int]);
                        assert(rest.skip(1) =~= entries@.skip(i + 1));
                    }
                    match &entries[i] {
                        DictEntry::PrivateDictRange(s, e) => {
                            proof {
                                assert(first_private_range(rest) == Some((*s, *e)));
                            }
                            return Some((*s, *e));
                        },
                        _ => {
                            proof {
                                assert(first_private_range(rest) == first_private_range(
                                    entries@.skip(i + 1),
                                ));
                            }
                        },
                    }
                    i = i + 1;
                }
                proof {
                    assert(entries@.skip(entries@.len() as int) =~= Seq::<DictEntry>::empty());
                }
                None
            },
            None => self.private_dict_range,
        }
    }
}

/// The first private-dictionary range among the entries, if any: a
/// subfont stops reading its dictionary at that entry.
pub open spec fn first_private_range(entries: Seq<DictEntry>) -> Option<(usize, usize)>
    decreases entries.len(),
{
    if entries.len() == 0 {
        None
    } else {
        match entries[0] {
            DictEntry::PrivateDictRange(s, e) => Some((s, e)),
            _ => first_private_range(entries.skip(1)),
        }
    }
}

/// Parameters used to generate the stem and counter zones for the
/// hinting algorithm.
#[derive(Clone, Debug, PartialEq, Eq)]
pub struct HintParams {
    pub blues: Blues,
    pub family_blues: Blues,
    pub other_blues: Blues,
    pub family_other_blues: Blues,
    pub blue_scale: Fixed,
    pub blue_shift: Fixed,
    pub blue_fuzz: Fixed,
    pub language_group: i32,
}

impl Default for HintParams {
    /// The documented defaults: empty zones, a scale threshold of
    /// 0.039625 (2597 in 16.16), a shift of 7 and a fuzz of 1.
    fn default() -> (r: Self)
        ensures
            r.blues.values@.len() == 0,
            r.family_blues.values@.len() == 0,
            r.other_blues.values@.len() == 0,
            r.family_other_blues.values@.len() == 0,
            r.blue_scale.bits == 2597,
            r.blue_shift.bits == 7 * 0x10000,
            r.blue_fuzz.bits == 0x10000,
            r.language_group == 0,
    {
        HintParams {
            blues: Blues::new(),
            family_blues: Blues::new(),
            other_blues: Blues::new(),
            family_other_blues: Blues::new(),
            blue_scale: Fixed::from_bits(2597),
            blue_shift: Fixed::from_i32(7),
            blue_fuzz: Fixed::from_i32(1),
            language_group: 0,
        }
    }
}

/// What a private dictionary decides for one subfont instance: the
/// hinting parameters, the resolved local-subroutine offset, and the
/// variation-store index.
#[derive(Clone, Debug)]
pub struct SubfontState {
    /// Hinting parameters accumulated so far.
    pub hint_params: HintParams,
    /// Offset of the local subroutine index, relative to the table:
    /// the private dictionary's start plus the stored relative offset.
    pub subrs_offset: Option<usize>,
    /// Which item variation data to use during blending.
    pub store_index: u16,
}

impl SubfontState {
    /// The state before any entry is read.
    pub fn new_default() -> (r: Self)
        ensures
            r.subrs_offset is None,
            r.store_index == 0,
            r.hint_params.blue_scale.bits == 2597,
            r.hint_params.blue_shift.bits == 7 * 0x10000,
            r.hint_params.blue_fuzz.bits == 0x10000,
            r.hint_params.language_group == 0,
            r.hint_params.blues.values@.len() == 0,
            r.hint_params.family_blues.values@.len() == 0,
            r.hint_params.other_blues.values@.len() == 0,
            r.hint_params.family_other_blues.values@.len() == 0,
    {
        SubfontState { hint_params: HintParams::default(), subrs_offset: None, store_index: 0 }
    }

    /// Apply one private-dictionary entry.  Zone entries replace the
    /// corresponding zones; a subroutine offset is resolved against the
    /// private dictionary's start, saturating rather than wrapping;
    /// entries this reader does not act on leave the state unchanged.
    pub fn apply(&mut self, entry: DictEntry, private_dict_start: usize)
        ensures
            ({
                let s = *old(self);
                match entry {
                    DictEntry::BlueValues(v) => *final(self) == SubfontState {
                        hint_params: HintParams { blues: v, ..s.hint_params },
                        ..s
                    },
                    DictEntry::FamilyBlues(v) => *final(self) == SubfontState {
                        hint_params: HintParams { family_blues: v, ..s.hint_params },
                        ..s
                    },
                    DictEntry::OtherBlues(v) => *final(self) == SubfontState {
                        hint_params: HintParams { other_blues: v, ..s.hint_params },
                        ..s
                    },
                    DictEntry::FamilyOtherBlues(v) => *final(self) == SubfontState {
                        hint_params: HintParams { family_other_blues: v, ..s.hint_params },
                        ..s
                    },
                    DictEntry::BlueScale(v) => *final(self) == SubfontState {
                        hint_params: HintParams { blue_scale: v, ..s.hint_params },
                        ..s
                    },
                    DictEntry::BlueShift(v) => *final(self) == SubfontState {
                        hint_params: HintParams { blue_shift: v, ..s.hint_params },
                        ..s
                    },
                    DictEntry::BlueFuzz(v) => *final(self) == SubfontState {
                        hint_params: HintParams { blue_fuzz: v, ..s.hint_params },
                        ..s
                    },
                    DictEntry::LanguageGroup(g) => *final(self) == SubfontState {
                        hint_params: HintParams { language_group: g, ..s.hint_params },
                        ..s
                    },
                    DictEntry::SubrsOffset(o) => *final(self) == SubfontState {
                        subrs_offset: Some(
                            if private_dict_start + o <= usize::MAX {
                                (private_dict_start + o) as usize
                            } else {
                                usize::MAX
                            },
                        ),
                        ..s
                    },
                    DictEntry::VariationStoreIndex(ix) => *final(self) == SubfontState {
                        store_index: ix,
                        ..s
                    },
                    _ => *final(self) == s,
                }
            }),
    {
        match entry {
            DictEntry::BlueValues(v) => {
                self.hint_params.blues = v;
            },
            DictEntry::FamilyBlues(v) => {
                self.hint_params.family_blues = v;
            },
            DictEntry::OtherBlues(v) => {
                self.hint_params.other_blues = v;
            },
            DictEntry::FamilyOtherBlues(v) => {
                self.hint_params.family_other_blues = v;
            },
            DictEntry::BlueScale(v) => {
                self.hint_params.blue_scale = v;
            },
            DictEntry::BlueShift(v) => {
                self.hint_params.blue_shift = v;
            },
            DictEntry::BlueFuzz(v) => {
                self.hint_params.blue_fuzz = v;
            },
            DictEntry::LanguageGroup(g) => {
                self.hint_params.language_group = g;
            },
            DictEntry::SubrsOffset(o) => {
                self.subrs_offset = Some(private_dict_start.saturating_add(o));
            },
            DictEntry::VariationStoreIndex(ix) => {
                self.store_index = ix;
            },
            _ => {},
        }
    }
}

} // verus!
