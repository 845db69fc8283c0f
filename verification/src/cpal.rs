//! The color-palette table: a versioned record whose later fields exist
//! only in newer minor versions, with nullable offsets to computed-length
//! arrays.

use vstd::prelude::*;

use crate::array::U16Array;
use crate::array::U32Array;
use crate::error::ReadError;
use crate::font_data::Cursor;
use crate::font_data::FontData;
use crate::font_data::be_u16_at;
use crate::font_data::be_u32_at;
use crate::offset::Offset32;
use crate::offset::resolve_nullable;

use core::ops::Range;

verus! {

/// Compatible-with comparison for plain numeric discriminants: a record
/// declares itself usable by readers expecting an earlier-or-equal
/// version, since newer minor versions only append fields.
pub fn compatible(version: u16, expected: u16) -> (r: bool)
    ensures
        r == (version >= expected),
{
    version >= expected
}

/// The shape of a color-palette table: where its variable and versioned
/// fields begin.  Derived once, when the record is read.
#[derive(Clone, Copy, Debug)]
pub struct CpalMarker {
    color_record_indices_byte_len: usize,
    palette_types_array_offset_byte_start: Option<usize>,
    palette_labels_array_offset_byte_start: Option<usize>,
    palette_entry_labels_array_offset_byte_start: Option<usize>,
}

impl CpalMarker {
    /// Byte length of the palette-index array.
    pub closed spec fn spec_indices_len(&self) -> int {
        self.color_record_indices_byte_len as int
    }

    /// Byte range of the version field.
    pub fn version_byte_range(&self) -> (r: Range<usize>)
        ensures
            r.start == 0 && r.end == 2,
    {
        0usize..2usize
    }

    /// Byte range of the palette-entry count.
    pub fn num_palette_entries_byte_range(&self) -> (r: Range<usize>)
        ensures
            r.start == 2 && r.end == 4,
    {
        2usize..4usize
    }

    /// Byte range of the palette count.
    pub fn num_palettes_byte_range(&self) -> (r: Range<usize>)
        ensures
            r.start == 4 && r.end == 6,
    {
        4usize..6usize
    }

    /// Byte range of the color-record count.
    pub fn num_color_records_byte_range(&self) -> (r: Range<usize>)
        ensures
            r.start == 6 && r.end == 8,
    {
        6usize..8usize
    }

    /// Byte range of the offset to the color-record array.
    pub fn color_records_array_offset_byte_range(&self) -> (r: Range<usize>)
        ensures
            r.start == 8 && r.end == 12,
    {
        8usize..12usize
    }

    /// Byte range of the palette-index array.
    pub fn color_record_indices_byte_range(&self) -> (r: Range<usize>)
        requires
            12 + self.spec_indices_len() <= usize::MAX,
        ensures
            r.start == 12 && r.end == 12 + self.spec_indices_len(),
    {
        12usize..(12 + self.color_record_indices_byte_len)
    }

    /// Byte range of the palette-types offset, absent before version 1.
    pub fn palette_types_array_offset_byte_range(&self) -> (r: Option<Range<usize>>)
        requires
            self.spec_types_start() is Some ==> self.spec_types_start().unwrap() + 4
                <= usize::MAX,
        ensures
            match r {
                Some(range) => self.spec_types_start() is Some && range.start
                    == self.spec_types_start().unwrap() && range.end == range.start + 4,
                None => self.spec_types_start() is None,
            },
    {
        match self.palette_types_array_offset_byte_start {
            Some(start) => Some(start..(start + 4)),
            None => None,
        }
    }

    /// Byte range of the palette-labels offset, absent before version 1.
    pub fn palette_labels_array_offset_byte_range(&self) -> (r: Option<Range<usize>>)
        requires
            self.spec_labels_start() is Some ==> self.spec_labels_start().unwrap() + 4
                <= usize::MAX,
        ensures
            match r {
                Some(range) => self.spec_labels_start() is Some && range.start
                    == self.spec_labels_start().unwrap() && range.end == range.start + 4,
                None => self.spec_labels_start() is None,
            },
    {
        match self.palette_labels_array_offset_byte_start {
            Some(start) => Some(start..(start + 4)),
            None => None,
        }
    }

    /// Byte range of the palette-entry-labels offset, absent before
    /// version 1.
    pub fn palette_entry_labels_array_offset_byte_range(&self) -> (r: Option<Range<usize>>)
        requires
            self.spec_entry_labels_start() is Some ==> self.spec_entry_labels_start().unwrap() + 4
                <= usize::MAX,
        ensures
            match r {
                Some(range) => self.spec_entry_labels_start() is Some && range.start
                    == self.spec_entry_labels_start().unwrap() && range.end == range.start + 4,
                None => self.spec_entry_labels_start() is None,
            },
    {
        match self.palette_entry_labels_array_offset_byte_start {
            Some(start) => Some(start..(start + 4)),
            None => None,
        }
    }

    /// Start of the palette-types offset field, when present.
    pub closed spec fn spec_types_start(&self) -> Option<int> {
        match self.palette_types_array_offset_byte_start {
            Some(s) => Some(s as int),
            None => None,
        }
    }

    /// Start of the palette-labels offset field, when present.
    pub closed spec fn spec_labels_start(&self) -> Option<int> {
        match self.palette_labels_array_offset_byte_start {
            Some(s) => Some(s as int),
            None => None,
        }
    }

    /// Start of the palette-entry-labels offset field, when present.
    pub closed spec fn spec_entry_labels_start(&self) -> Option<int> {
        match self.palette_entry_labels_array_offset_byte_start {
            Some(s) => Some(s as int),
            None => None,
        }
    }
}

/// One color record: blue, green, red, alpha, in storage order.
#[derive(Clone, Copy, Debug, PartialEq, Eq, Structural)]
pub struct ColorRecord {
    /// Blue value (B0).
    pub blue: u8,
    /// Green value (B1).
    pub green: u8,
    /// Red value (B2).
    pub red: u8,
    /// Alpha value (B3).
    pub alpha: u8,
}

impl ColorRecord {
    /// Blue value (B0).
    pub fn blue(&self) -> (r: u8)
        ensures
            r == self.blue,
    {
        self.blue
    }

    /// Green value (B1).
    pub fn green(&self) -> (r: u8)
        ensures
            r == self.green,
    {
        self.green
    }

    /// Red value (B2).
    pub fn red(&self) -> (r: u8)
        ensures
            r == self.red,
    {
        self.red
    }

    /// Alpha value (B3).
    pub fn alpha(&self) -> (r: u8)
        ensures
            r == self.alpha,
    {
        self.alpha
    }
}

/// A borrowed view over `count` four-byte color records.
#[derive(Clone, Copy)]
pub struct ColorRecordArray<'a> {
    data: FontData<'a>,
    start: usize,
    count: usize,
}

impl<'a> ColorRecordArray<'a> {
    /// The bytes the view reads from.
    pub closed spec fn spec_data(&self) -> Seq<u8> {
        self.data@
    }

    /// Byte position of the first record.
    pub closed spec fn spec_start(&self) -> int {
        self.start as int
    }

    /// Number of records.
    pub closed spec fn spec_len(&self) -> int {
        self.count as int
    }

    #[verifier::type_invariant]
    closed spec fn inv(self) -> bool {
        self.start + 4 * self.count <= self.data@.len()
    }

    /// The record at index `i`, as the bytes denote it.
    pub open spec fn spec_record(&self, i: int) -> ColorRecord {
        ColorRecord {
            blue: self.spec_data()[self.spec_start() + 4 * i],
            green: self.spec_data()[self.spec_start() + 4 * i + 1],
            red: self.spec_data()[self.spec_start() + 4 * i + 2],
            alpha: self.spec_data()[self.spec_start() + 4 * i + 3],
        }
    }

    /// Number of records.
    pub fn len(&self) -> (r: usize)
        ensures
            r == self.spec_len(),
    {
        self.count
    }

    /// The record at `i`, when in bounds.
    pub fn get(&self, i: usize) -> (r: Option<ColorRecord>)
        ensures
            match r {
                Some(c) => i < self.spec_len() && c == self.spec_record(i as int),
                None => i >= self.spec_len(),
            },
    {
        proof {
            use_type_invariant(self);
            self.data.lemma_len_bound();
        }
        if i < self.count {
            let p = self.start + 4 * i;
            let blue = match self.data.read_u8_at(p) {
                Ok(v) => v,
                Err(_) => { return None },
            };
            let green = match self.data.read_u8_at(p + 1) {
                Ok(v) => v,
                Err(_) => { return None },
            };
            let red = match self.data.read_u8_at(p + 2) {
                Ok(v) => v,
                Err(_) => { return None },
            };
            let alpha = match self.data.read_u8_at(p + 3) {
                Ok(v) => v,
                Err(_) => { return None },
            };
            Some(ColorRecord { blue, green, red, alpha })
        } else {
            None
        }
    }
}

/// A read color-palette table: the buffer together with its derived
/// shape.
pub struct Cpal<'a> {
    shape: CpalMarker,
    data: FontData<'a>,
}

/// The bytes a well-shaped color-palette table needs: the fixed header,
/// the palette-index array, and, from version 1 on, three more offset
/// fields.
pub open spec fn cpal_required_len(d: Seq<u8>) -> int {
    12 + 2 * be_u16_at(d, 4) + (if be_u16_at(d, 0) >= 1 {
        12int
    } else {
        0int
    })
}

impl<'a> Cpal<'a> {
    /// The underlying bytes.
    pub closed spec fn spec_data(&self) -> Seq<u8> {
        self.data@
    }

    #[verifier::type_invariant]
    closed spec fn inv(self) -> bool {
        &&& self.data@.len() >= cpal_required_len(self.data@)
        &&& self.data@.len() >= 12
        &&& self.shape.color_record_indices_byte_len as int == 2 * be_u16_at(self.data@, 4)
        &&& if be_u16_at(self.data@, 0) >= 1 {
            &&& self.shape.palette_types_array_offset_byte_start matches Some(s) && s as int == 12
                + 2 * be_u16_at(self.data@, 4)
            &&& self.shape.palette_labels_array_offset_byte_start matches Some(s) && s as int == 16
                + 2 * be_u16_at(self.data@, 4)
            &&& self.shape.palette_entry_labels_array_offset_byte_start matches Some(s) && s as int
                == 20 + 2 * be_u16_at(self.data@, 4)
        } else {
            &&& self.shape.palette_types_array_offset_byte_start is None
            &&& self.shape.palette_labels_array_offset_byte_start is None
            &&& self.shape.palette_entry_labels_array_offset_byte_start is None
        }
    }

    /// Read a color-palette table from the front of the buffer.  Succeeds
    /// exactly when the buffer holds the whole shape its version and
    /// palette count call for.
    pub fn read(data: FontData<'a>) -> (r: Result<Self, ReadError>)
        ensures
            match r {
                Ok(c) => c.spec_data() == data@ && data@.len() >= cpal_required_len(data@),
                Err(e) => data@.len() < cpal_required_len(data@) && e == ReadError::OutOfBounds,
            },
    {
        let mut cursor = Cursor::new(data);
        let version = match cursor.read_u16() {
            Ok(v) => v,
            Err(e) => { return Err(e) },
        };
        cursor.advance_by(2);
        let num_palettes = match cursor.read_u16() {
            Ok(v) => v,
            Err(e) => { return Err(e) },
        };
        cursor.advance_by(2);
        cursor.advance_by(4);
        let color_record_indices_byte_len: usize = 2 * (num_palettes as usize);
        cursor.advance_by(color_record_indices_byte_len);
        let indices_end = match cursor.position() {
            Ok(p) => p,
            Err(e) => { return Err(e) },
        };
        if compatible(version, 1) {
            cursor.advance_by(4);
            cursor.advance_by(4);
            cursor.advance_by(4);
            match cursor.position() {
                Ok(_) => {},
                Err(e) => { return Err(e) },
            }
            Ok(
                Cpal {
                    shape: CpalMarker {
                        color_record_indices_byte_len,
                        palette_types_array_offset_byte_start: Some(indices_end),
                        palette_labels_array_offset_byte_start: Some(indices_end + 4),
                        palette_entry_labels_array_offset_byte_start: Some(indices_end + 8),
                    },
                    data,
                },
            )
        } else {
            Ok(
                Cpal {
                    shape: CpalMarker {
                        color_record_indices_byte_len,
                        palette_types_array_offset_byte_start: None,
                        palette_labels_array_offset_byte_start: None,
                        palette_entry_labels_array_offset_byte_start: None,
                    },
                    data,
                },
            )
        }
    }

    /// The derived shape of this table.
    pub fn shape(&self) -> (r: &CpalMarker)
        ensures
            r.spec_indices_len() == 2 * be_u16_at(self.spec_data(), 4),
            12 + r.spec_indices_len() <= self.spec_data().len(),
            r.spec_types_start() is Some <==> be_u16_at(self.spec_data(), 0) >= 1,
            r.spec_types_start() is Some ==> r.spec_types_start().unwrap() == 12 + 2 * be_u16_at(
                self.spec_data(),
                4,
            ),
    {
        proof {
            use_type_invariant(self);
            self.data.lemma_len_bound();
        }
        &self.shape
    }

    /// Table version number.
    pub fn version(&self) -> (r: u16)
        ensures
            r == be_u16_at(self.spec_data(), 0),
    {
        proof {
            use_type_invariant(self);
        }
        match self.data.read_u16_at(0) {
            Ok(v) => v,
            Err(_) => 0,
        }
    }

    /// Number of palette entries in each palette.
    pub fn num_palette_entries(&self) -> (r: u16)
        ensures
            r == be_u16_at(self.spec_data(), 2),
    {
        proof {
            use_type_invariant(self);
        }
        match self.data.read_u16_at(2) {
            Ok(v) => v,
            Err(_) => 0,
        }
    }

    /// Number of palettes in the table.
    pub fn num_palettes(&self) -> (r: u16)
        ensures
            r == be_u16_at(self.spec_data(), 4),
    {
        proof {
            use_type_invariant(self);
        }
        match self.data.read_u16_at(4) {
            Ok(v) => v,
            Err(_) => 0,
        }
    }

    /// Total number of color records, combined for all palettes.
    pub fn num_color_records(&self) -> (r: u16)
        ensures
            r == be_u16_at(self.spec_data(), 6),
    {
        proof {
            use_type_invariant(self);
        }
        match self.data.read_u16_at(6) {
            Ok(v) => v,
            Err(_) => 0,
        }
    }

    /// Offset from the beginning of the table to the first color record;
    /// zero means absent.
    pub fn color_records_array_offset(&self) -> (r: Option<Offset32>)
        ensures
            match r {
                Some(o) => o.spec_raw() == be_u32_at(self.spec_data(), 8) && o.spec_raw() != 0,
                None => be_u32_at(self.spec_data(), 8) == 0,
            },
    {
        proof {
            use_type_invariant(self);
        }
        match self.data.read_u32_at(8) {
            Ok(v) => Offset32::new(v),
            Err(_) => None,
        }
    }

    /// Resolve the color-record array: `None` when the offset is null,
    /// an error when the `num_color_records` records do not fit the
    /// buffer.
    pub fn color_records_array(&self) -> (r: Option<Result<ColorRecordArray<'a>, ReadError>>)
        ensures
            match r {
                Some(Ok(a)) => {
                    &&& be_u32_at(self.spec_data(), 8) != 0
                    &&& a.spec_data() == self.spec_data()
                    &&& a.spec_start() == be_u32_at(self.spec_data(), 8)
                    &&& a.spec_len() == be_u16_at(self.spec_data(), 6)
                },
                Some(Err(e)) => {
                    &&& be_u32_at(self.spec_data(), 8) != 0
                    &&& be_u32_at(self.spec_data(), 8) + 4 * be_u16_at(self.spec_data(), 6)
                        > self.spec_data().len()
                    &&& e == ReadError::OutOfBounds
                },
                None => be_u32_at(self.spec_data(), 8) == 0,
            },
    {
        proof {
            use_type_invariant(self);
        }
        let raw = match self.data.read_u32_at(8) {
            Ok(v) => v,
            Err(_) => { return None },
        };
        if raw == 0 {
            return None;
        }
        let count = self.num_color_records() as usize;
        match resolve_nullable(0, raw, 0, self.data.len()) {
            Ok(Some(p)) => {
                match crate::cpal::color_record_array_at(self.data, p, count) {
                    Some(a) => Some(Ok(a)),
                    None => Some(Err(ReadError::OutOfBounds)),
                }
            },
            Ok(None) => None,
            Err(e) => Some(Err(e)),
        }
    }

    /// Index of each palette's first color record in the combined
    /// color-record array.
    pub fn color_record_indices(&self) -> (r: U16Array<'a>)
        ensures
            r.spec_data() == self.spec_data(),
            r.spec_start() == 12,
            r.spec_len() == be_u16_at(self.spec_data(), 4),
    {
        proof {
            use_type_invariant(self);
        }
        let count = self.num_palettes() as usize;
        match U16Array::new(self.data, 12, count) {
            Some(a) => a,
            None => vstd::pervasive::unreached(),
        }
    }

    /// Offset to the palette-types array; `None` before version 1, and a
    /// null offset inside marks absence.
    pub fn palette_types_array_offset(&self) -> (r: Option<Option<Offset32>>)
        ensures
            ({
                let present = be_u16_at(self.spec_data(), 0) >= 1;
                let pos = 12 + 2 * be_u16_at(self.spec_data(), 4);
                match r {
                    Some(Some(o)) => present && o.spec_raw() == be_u32_at(self.spec_data(), pos),
                    Some(None) => present && be_u32_at(self.spec_data(), pos) == 0,
                    None => !present,
                }
            }),
    {
        proof {
            use_type_invariant(self);
        }
        match self.shape.palette_types_array_offset_byte_start {
            Some(start) => match self.data.read_u32_at(start) {
                Ok(v) => Some(Offset32::new(v)),
                Err(_) => Some(None),
            },
            None => None,
        }
    }

    /// Resolve the palette-types array (one 32-bit flag word per
    /// palette): `None` when the field is absent or null.
    pub fn palette_types_array(&self) -> (r: Option<Result<U32Array<'a>, ReadError>>)
        ensures
            ({
                let present = be_u16_at(self.spec_data(), 0) >= 1;
                let pos = 12 + 2 * be_u16_at(self.spec_data(), 4);
                let raw = be_u32_at(self.spec_data(), pos);
                match r {
                    Some(Ok(a)) => {
                        &&& present && raw != 0
                        &&& a.spec_data() == self.spec_data()
                        &&& a.spec_start() == raw
                        &&& a.spec_len() == be_u16_at(self.spec_data(), 4)
                    },
                    Some(Err(e)) => present && raw != 0 && raw + 4 * be_u16_at(
                        self.spec_data(),
                        4,
                    ) > self.spec_data().len() && e == ReadError::OutOfBounds,
                    None => !present || raw == 0,
                }
            }),
    {
        proof {
            use_type_invariant(self);
        }
        let start = match self.shape.palette_types_array_offset_byte_start {
            Some(s) => s,
            None => { return None },
        };
        let raw = match self.data.read_u32_at(start) {
            Ok(v) => v,
            Err(_) => { return None },
        };
        if raw == 0 {
            return None;
        }
        let count = self.num_palettes() as usize;
        match resolve_nullable(0, raw, 0, self.data.len()) {
            Ok(Some(p)) => match U32Array::new(self.data, p, count) {
                Some(a) => Some(Ok(a)),
                None => Some(Err(ReadError::OutOfBounds)),
            },
            Ok(None) => None,
            Err(e) => Some(Err(e)),
        }
    }

    /// Offset to the palette-labels array; `None` before version 1.
    pub fn palette_labels_array_offset(&self) -> (r: Option<Option<Offset32>>)
        ensures
            ({
                let present = be_u16_at(self.spec_data(), 0) >= 1;
                let pos = 16 + 2 * be_u16_at(self.spec_data(), 4);
                match r {
                    Some(Some(o)) => present && o.spec_raw() == be_u32_at(self.spec_data(), pos),
                    Some(None) => present && be_u32_at(self.spec_data(), pos) == 0,
                    None => !present,
                }
            }),
    {
        proof {
            use_type_invariant(self);
        }
        match self.shape.palette_labels_array_offset_byte_start {
            Some(start) => match self.data.read_u32_at(start) {
                Ok(v) => Some(Offset32::new(v)),
                Err(_) => Some(None),
            },
            None => None,
        }
    }

    /// Resolve the palette-labels array (one name identifier per
    /// palette): `None` when the field is absent or null.
    pub fn palette_labels_array(&self) -> (r: Option<Result<U16Array<'a>, ReadError>>)
        ensures
            ({
                let present = be_u16_at(self.spec_data(), 0) >= 1;
                let pos = 16 + 2 * be_u16_at(self.spec_data(), 4);
                let raw = be_u32_at(self.spec_data(), pos);
                match r {
                    Some(Ok(a)) => {
                        &&& present && raw != 0
                        &&& a.spec_data() == self.spec_data()
                        &&& a.spec_start() == raw
                        &&& a.spec_len() == be_u16_at(self.spec_data(), 4)
                    },
                    Some(Err(e)) => present && raw != 0 && raw + 2 * be_u16_at(
                        self.spec_data(),
                        4,
                    ) > self.spec_data().len() && e == ReadError::OutOfBounds,
                    None => !present || raw == 0,
                }
            }),
    {
        proof {
            use_type_invariant(self);
        }
        let start = match self.shape.palette_labels_array_offset_byte_start {
            Some(s) => s,
            None => { return None },
        };
        let raw = match self.data.read_u32_at(start) {
            Ok(v) => v,
            Err(_) => { return None },
        };
        if raw == 0 {
            return None;
        }
        let count = self.num_palettes() as usize;
        match resolve_nullable(0, raw, 0, self.data.len()) {
            Ok(Some(p)) => match U16Array::new(self.data, p, count) {
                Some(a) => Some(Ok(a)),
                None => Some(Err(ReadError::OutOfBounds)),
            },
            Ok(None) => None,
            Err(e) => Some(Err(e)),
        }
    }

    /// Offset to the palette-entry-labels array; `None` before
    /// version 1.
    pub fn palette_entry_labels_array_offset(&self) -> (r: Option<Option<Offset32>>)
        ensures
            ({
                let present = be_u16_at(self.spec_data(), 0) >= 1;
                let pos = 20 + 2 * be_u16_at(self.spec_data(), 4);
                match r {
                    Some(Some(o)) => present && o.spec_raw() == be_u32_at(self.spec_data(), pos),
                    Some(None) => present && be_u32_at(self.spec_data(), pos) == 0,
                    None => !present,
                }
            }),
    {
        proof {
            use_type_invariant(self);
        }
        match self.shape.palette_entry_labels_array_offset_byte_start {
            Some(start) => match self.data.read_u32_at(start) {
                Ok(v) => Some(Offset32::new(v)),
                Err(_) => Some(None),
            },
            None => None,
        }
    }

    /// Resolve the palette-entry-labels array (one name identifier per
    /// palette entry): `None` when the field is absent or null.
    pub fn palette_entry_labels_array(&self) -> (r: Option<Result<U16Array<'a>, ReadError>>)
        ensures
            ({
                let present = be_u16_at(self.spec_data(), 0) >= 1;
                let pos = 20 + 2 * be_u16_at(self.spec_data(), 4);
                let raw = be_u32_at(self.spec_data(), pos);
                match r {
                    Some(Ok(a)) => {
                        &&& present && raw != 0
                        &&& a.spec_data() == self.spec_data()
                        &&& a.spec_start() == raw
                        &&& a.spec_len() == be_u16_at(self.spec_data(), 2)
                    },
                    Some(Err(e)) => present && raw != 0 && raw + 2 * be_u16_at(
                        self.spec_data(),
                        2,
                    ) > self.spec_data().len() && e == ReadError::OutOfBounds,
                    None => !present || raw == 0,
                }
            }),
    {
        proof {
            use_type_invariant(self);
        }
        let start = match self.shape.palette_entry_labels_array_offset_byte_start {
            Some(s) => s,
            None => { return None },
        };
        let raw = match self.data.read_u32_at(start) {
            Ok(v) => v,
            Err(_) => { return None },
        };
        if raw == 0 {
            return None;
        }
        let count = self.num_palette_entries() as usize;
        match resolve_nullable(0, raw, 0, self.data.len()) {
            Ok(Some(p)) => match U16Array::new(self.data, p, count) {
                Some(a) => Some(Ok(a)),
                None => Some(Err(ReadError::OutOfBounds)),
            },
            Ok(None) => None,
            Err(e) => Some(Err(e)),
        }
    }
}

/// A view of `count` color records at `start`; fails when that range
/// leaves the buffer.
pub fn color_record_array_at<'a>(data: FontData<'a>, start: usize, count: usize) -> (r: Option<
    ColorRecordArray<'a>,
>)
    ensures
        match r {
            Some(a) => {
                &&& start + 4 * count <= data@.len()
                &&& a.spec_data() == data@
                &&& a.spec_start() == start
                &&& a.spec_len() == count
            },
            None => start + 4 * count > data@.len(),
        },
{
    if start <= data.len() && (data.len() - start) / 4 >= count {
        proof {
            assert(count * 4 <= data@.len() - start) by (nonlinear_arith)
                requires
                    count <= (data@.len() - start) / 4,
                    0 <= start <= data@.len(),
            ;
        }
        Some(ColorRecordArray { data, start, count })
    } else {
        proof {
            data.lemma_len_bound();
            if start <= data@.len() {
                assert(data@.len() - start < (4 * count)) by (nonlinear_arith)
                    requires
                        (data@.len() - start) / 4 < count,
                        0 <= start <= data@.len(),
                ;
            }
        }
        None
    }
}

} // verus!
