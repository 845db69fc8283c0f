//! The PostScript-metadata table: one record family with four known
//! version discriminants and a catch-all rejection of everything else.
//!
//! The discriminant is a leading 16.16 version word.  Versions 1.0, 2.5
//! and 3.0 share the fixed 32-byte header; version 2.0 appends a glyph
//! count, a computed-length name-index array and trailing string data.
//! An unknown discriminant is an unrecognized-format error carrying the
//! raw value; nothing is consumed, so a caller may reinterpret the same
//! buffer.

use vstd::prelude::*;

use crate::array::U16Array;
use crate::error::ReadError;
use crate::font_data::FontData;
use crate::font_data::be_i16_at;
use crate::font_data::be_u16_at;
use crate::font_data::be_u32_at;
use crate::fvar::Fixed;
use crate::fvar::sign32;

verus! {

/// The 16.16 discriminant of version 1.0.
pub const POST_VERSION_1_0: u32 = 0x00010000;

/// The 16.16 discriminant of version 2.0.
pub const POST_VERSION_2_0: u32 = 0x00020000;

/// The 16.16 discriminant of version 2.5.
pub const POST_VERSION_2_5: u32 = 0x00025000;

/// The 16.16 discriminant of version 3.0.
pub const POST_VERSION_3_0: u32 = 0x00030000;

/// The fixed 32-byte header shared by every version.
#[derive(Clone, Copy, Debug, PartialEq, Eq, Structural)]
pub struct Post1_0 {
    /// The version discriminant, as a 16.16 word.
    pub version: u32,
    /// Italic angle in counter-clockwise degrees from the vertical, as a
    /// 16.16 value.
    pub italic_angle: Fixed,
    /// Suggested distance of the top of the underline from the baseline.
    pub underline_position: i16,
    /// Suggested underline thickness.
    pub underline_thickness: i16,
    /// Zero if the record's glyphs are proportionally spaced, non-zero
    /// if not.
    pub is_fixed_pitch: u32,
    /// Minimum memory usage when the record is downloaded.
    pub min_mem_type42: u32,
    /// Maximum memory usage when the record is downloaded.
    pub max_mem_type42: u32,
    /// Minimum memory usage when downloaded as a Type 1 record.
    pub min_mem_type1: u32,
    /// Maximum memory usage when downloaded as a Type 1 record.
    pub max_mem_type1: u32,
}

/// Does the header hold exactly the values stored in the first 32 bytes
/// of `d`?
pub open spec fn post_header_matches(h: Post1_0, d: Seq<u8>) -> bool {
    &&& h.version == be_u32_at(d, 0)
    &&& h.italic_angle.bits == sign32(be_u32_at(d, 4))
    &&& h.underline_position == be_i16_at(d, 8)
    &&& h.underline_thickness == be_i16_at(d, 10)
    &&& h.is_fixed_pitch == be_u32_at(d, 12)
    &&& h.min_mem_type42 == be_u32_at(d, 16)
    &&& h.max_mem_type42 == be_u32_at(d, 20)
    &&& h.min_mem_type1 == be_u32_at(d, 24)
    &&& h.max_mem_type1 == be_u32_at(d, 28)
}

impl Post1_0 {
    /// The version discriminant.
    pub fn version(&self) -> (r: u32)
        ensures
            r == self.version,
    {
        self.version
    }

    /// Italic angle in counter-clockwise degrees from the vertical.
    pub fn italic_angle(&self) -> (r: Fixed)
        ensures
            r == self.italic_angle,
    {
        self.italic_angle
    }

    /// Suggested distance of the top of the underline from the baseline.
    pub fn underline_position(&self) -> (r: i16)
        ensures
            r == self.underline_position,
    {
        self.underline_position
    }

    /// Suggested underline thickness.
    pub fn underline_thickness(&self) -> (r: i16)
        ensures
            r == self.underline_thickness,
    {
        self.underline_thickness
    }

    /// Zero if proportionally spaced, non-zero if not.
    pub fn is_fixed_pitch(&self) -> (r: u32)
        ensures
            r == self.is_fixed_pitch,
    {
        self.is_fixed_pitch
    }

    /// Minimum memory usage when the record is downloaded.
    pub fn min_mem_type42(&self) -> (r: u32)
        ensures
            r == self.min_mem_type42,
    {
        self.min_mem_type42
    }

    /// Maximum memory usage when the record is downloaded.
    pub fn max_mem_type42(&self) -> (r: u32)
        ensures
            r == self.max_mem_type42,
    {
        self.max_mem_type42
    }

    /// Minimum memory usage when downloaded as a Type 1 record.
    pub fn min_mem_type1(&self) -> (r: u32)
        ensures
            r == self.min_mem_type1,
    {
        self.min_mem_type1
    }

    /// Maximum memory usage when downloaded as a Type 1 record.
    pub fn max_mem_type1(&self) -> (r: u32)
        ensures
            r == self.max_mem_type1,
    {
        self.max_mem_type1
    }

    /// Read the fixed header from the front of the buffer.
    pub fn read(data: FontData) -> (r: Result<Self, ReadError>)
        ensures
            match r {
                Ok(h) => data@.len() >= 32 && post_header_matches(h, data@),
                Err(e) => data@.len() < 32 && e == ReadError::OutOfBounds,
            },
    {
        if data.len() < 32 {
            return Err(ReadError::OutOfBounds);
        }
        let version = match data.read_u32_at(0) {
            Ok(v) => v,
            Err(e) => { return Err(e) },
        };
        let angle_w = match data.read_u32_at(4) {
            Ok(v) => v,
            Err(e) => { return Err(e) },
        };
        let italic_angle = Fixed {
            bits: if angle_w < 0x80000000 {
                angle_w as i32
            } else {
                ((angle_w as i64) - 0x100000000i64) as i32
            },
        };
        let underline_position = match data.read_i16_at(8) {
            Ok(v) => v,
            Err(e) => { return Err(e) },
        };
        let underline_thickness = match data.read_i16_at(10) {
            Ok(v) => v,
            Err(e) => { return Err(e) },
        };
        let is_fixed_pitch = match data.read_u32_at(12) {
            Ok(v) => v,
            Err(e) => { return Err(e) },
        };
        let min_mem_type42 = match data.read_u32_at(16) {
            Ok(v) => v,
            Err(e) => { return Err(e) },
        };
        let max_mem_type42 = match data.read_u32_at(20) {
            Ok(v) => v,
            Err(e) => { return Err(e) },
        };
        let min_mem_type1 = match data.read_u32_at(24) {
            Ok(v) => v,
            Err(e) => { return Err(e) },
        };
        let max_mem_type1 = match data.read_u32_at(28) {
            Ok(v) => v,
            Err(e) => { return Err(e) },
        };
        Ok(
            Post1_0 {
                version,
                italic_angle,
                underline_position,
                underline_thickness,
                is_fixed_pitch,
                min_mem_type42,
                max_mem_type42,
                min_mem_type1,
                max_mem_type1,
            },
        )
    }
}

/// The version 2.0 shape: the fixed header plus a glyph count, a
/// computed-length name-index array, and trailing string data.
pub struct Post2_0<'a> {
    header: Post1_0,
    num_glyphs: u16,
    glyph_name_index: U16Array<'a>,
    string_data: FontData<'a>,
}

/// The bytes a version 2.0 record needs: the header, the glyph count,
/// and one 16-bit index per glyph.
pub open spec fn post2_required_len(d: Seq<u8>) -> int {
    34 + 2 * be_u16_at(d, 32)
}

impl<'a> Post2_0<'a> {
    /// The fixed header fields.
    pub closed spec fn spec_header(&self) -> Post1_0 {
        self.header
    }

    /// The stored glyph count.
    pub closed spec fn spec_num_glyphs(&self) -> int {
        self.num_glyphs as int
    }

    /// The name-index view.
    pub closed spec fn spec_glyph_name_index(&self) -> U16Array<'a> {
        self.glyph_name_index
    }

    /// The trailing string-data bytes.
    pub closed spec fn spec_string_data(&self) -> Seq<u8> {
        self.string_data@
    }

    /// Read a version 2.0 record from the front of the buffer.
    pub fn read(data: FontData<'a>) -> (r: Result<Self, ReadError>)
        ensures
            match r {
                Ok(p) => {
                    &&& data@.len() >= 34
                    &&& data@.len() >= post2_required_len(data@)
                    &&& post_header_matches(p.spec_header(), data@)
                    &&& p.spec_num_glyphs() == be_u16_at(data@, 32)
                    &&& p.spec_glyph_name_index().spec_data() == data@
                    &&& p.spec_glyph_name_index().spec_start() == 34
                    &&& p.spec_glyph_name_index().spec_len() == be_u16_at(data@, 32)
                    &&& p.spec_string_data() == data@.subrange(
                        post2_required_len(data@),
                        data@.len() as int,
                    )
                },
                Err(e) => (data@.len() < 34 || data@.len() < post2_required_len(data@)) && e
                    == ReadError::OutOfBounds,
            },
    {
        let header = match Post1_0::read(data) {
            Ok(h) => h,
            Err(e) => { return Err(e) },
        };
        if data.len() < 34 {
            return Err(ReadError::OutOfBounds);
        }
        let num_glyphs = match data.read_u16_at(32) {
            Ok(v) => v,
            Err(e) => { return Err(e) },
        };
        let glyph_name_index = match U16Array::new(data, 34, num_glyphs as usize) {
            Some(a) => a,
            None => { return Err(ReadError::OutOfBounds) },
        };
        let tail_start = 34 + 2 * (num_glyphs as usize);
        let string_data = match data.slice_from(tail_start) {
            Some(d) => d,
            None => { return Err(ReadError::OutOfBounds) },
        };
        Ok(Post2_0 { header, num_glyphs, glyph_name_index, string_data })
    }

    /// The version discriminant.
    pub fn version(&self) -> (r: u32)
        ensures
            r == self.spec_header().version,
    {
        self.header.version
    }

    /// Italic angle in counter-clockwise degrees from the vertical.
    pub fn italic_angle(&self) -> (r: Fixed)
        ensures
            r == self.spec_header().italic_angle,
    {
        self.header.italic_angle
    }

    /// Suggested distance of the top of the underline from the baseline.
    pub fn underline_position(&self) -> (r: i16)
        ensures
            r == self.spec_header().underline_position,
    {
        self.header.underline_position
    }

    /// Suggested underline thickness.
    pub fn underline_thickness(&self) -> (r: i16)
        ensures
            r == self.spec_header().underline_thickness,
    {
        self.header.underline_thickness
    }

    /// Zero if proportionally spaced, non-zero if not.
    pub fn is_fixed_pitch(&self) -> (r: u32)
        ensures
            r == self.spec_header().is_fixed_pitch,
    {
        self.header.is_fixed_pitch
    }

    /// Minimum memory usage when the record is downloaded.
    pub fn min_mem_type42(&self) -> (r: u32)
        ensures
            r == self.spec_header().min_mem_type42,
    {
        self.header.min_mem_type42
    }

    /// Maximum memory usage when the record is downloaded.
    pub fn max_mem_type42(&self) -> (r: u32)
        ensures
            r == self.spec_header().max_mem_type42,
    {
        self.header.max_mem_type42
    }

    /// Minimum memory usage when downloaded as a Type 1 record.
    pub fn min_mem_type1(&self) -> (r: u32)
        ensures
            r == self.spec_header().min_mem_type1,
    {
        self.header.min_mem_type1
    }

    /// Maximum memory usage when downloaded as a Type 1 record.
    pub fn max_mem_type1(&self) -> (r: u32)
        ensures
            r == self.spec_header().max_mem_type1,
    {
        self.header.max_mem_type1
    }

    /// Array of indices into the string data, one per glyph.
    pub fn glyph_name_index(&self) -> (r: U16Array<'a>)
        ensures
            r == self.spec_glyph_name_index(),
    {
        self.glyph_name_index
    }

    /// Storage for the string data.
    pub fn string_data(&self) -> (r: FontData<'a>)
        ensures
            r@ == self.spec_string_data(),
    {
        self.string_data
    }
}

/// A PostScript-metadata record of any known version.
pub enum Post<'a> {
    Post1_0(Post1_0),
    Post2_0(Post2_0<'a>),
    Post2_5(Post1_0),
    Post3_0(Post1_0),
}

impl<'a> Post<'a> {
    /// Read a record, dispatching on the leading version discriminant.
    ///
    /// An unknown discriminant yields an unrecognized-format error that
    /// carries the raw value; the buffer is not consumed, so a caller
    /// may attempt another interpretation of the same bytes.
    pub fn read(data: FontData<'a>) -> (r: Result<Self, ReadError>)
        ensures
            match r {
                Ok(p) => {
                    &&& data@.len() >= 32
                    &&& ({
                        let v = be_u32_at(data@, 0);
                        match p {
                            Post::Post1_0(h) => v == POST_VERSION_1_0 && post_header_matches(
                                h,
                                data@,
                            ),
                            Post::Post2_0(h) => v == POST_VERSION_2_0 && post_header_matches(
                                h.spec_header(),
                                data@,
                            ) && data@.len() >= post2_required_len(data@),
                            Post::Post2_5(h) => v == POST_VERSION_2_5 && post_header_matches(
                                h,
                                data@,
                            ),
                            Post::Post3_0(h) => v == POST_VERSION_3_0 && post_header_matches(
                                h,
                                data@,
                            ),
                        }
                    })
                },
                Err(ReadError::UnrecognizedFormat(v)) => {
                    &&& data@.len() >= 4
                    &&& v == be_u32_at(data@, 0)
                    &&& v != POST_VERSION_1_0 && v != POST_VERSION_2_0 && v != POST_VERSION_2_5
                        && v != POST_VERSION_3_0
                },
                Err(ReadError::OutOfBounds) => data@.len() < 4 || ({
                    let v = be_u32_at(data@, 0);
                    ||| (v == POST_VERSION_1_0 || v == POST_VERSION_2_5 || v == POST_VERSION_3_0)
                        && data@.len() < 32
                    ||| v == POST_VERSION_2_0 && (data@.len() < 34 || data@.len()
                        < post2_required_len(data@))
                }),
                Err(_) => false,
            },
    {
        let version = match data.read_u32_at(0) {
            Ok(v) => v,
            Err(e) => { return Err(e) },
        };
        if version == POST_VERSION_1_0 {
            match Post1_0::read(data) {
                Ok(h) => Ok(Post::Post1_0(h)),
                Err(e) => Err(e),
            }
        } else if version == POST_VERSION_2_0 {
            match Post2_0::read(data) {
                Ok(h) => Ok(Post::Post2_0(h)),
                Err(e) => Err(e),
            }
        } else if version == POST_VERSION_2_5 {
            match Post1_0::read(data) {
                Ok(h) => Ok(Post::Post2_5(h)),
                Err(e) => Err(e),
            }
        } else if version == POST_VERSION_3_0 {
            match Post1_0::read(data) {
                Ok(h) => Ok(Post::Post3_0(h)),
                Err(e) => Err(e),
            }
        } else {
            Err(ReadError::UnrecognizedFormat(version))
        }
    }

    /// The shared header fields, whichever variant holds them.
    pub closed spec fn spec_header(&self) -> Post1_0 {
        match self {
            Post::Post1_0(h) => *h,
            Post::Post2_0(h) => h.spec_header(),
            Post::Post2_5(h) => *h,
            Post::Post3_0(h) => *h,
        }
    }

    /// Array of indices into the string data; absent outside
    /// version 2.0.
    pub fn glyph_name_index(&self) -> (r: Option<U16Array<'a>>)
        ensures
            match r {
                Some(a) => self matches Post::Post2_0(h) && a == h.spec_glyph_name_index(),
                None => !(self matches Post::Post2_0(_)),
            },
    {
        match self {
            Post::Post1_0(_) => None,
            Post::Post2_0(inner) => Some(inner.glyph_name_index()),
            Post::Post2_5(_) => None,
            Post::Post3_0(_) => None,
        }
    }

    /// Storage for the string data; absent outside version 2.0.
    pub fn string_data(&self) -> (r: Option<FontData<'a>>)
        ensures
            match r {
                Some(d) => self matches Post::Post2_0(h) && d@ == h.spec_string_data(),
                None => !(self matches Post::Post2_0(_)),
            },
    {
        match self {
            Post::Post1_0(_) => None,
            Post::Post2_0(inner) => Some(inner.string_data()),
            Post::Post2_5(_) => None,
            Post::Post3_0(_) => None,
        }
    }

    /// Zero if proportionally spaced, non-zero if not.
    pub fn is_fixed_pitch(&self) -> (r: u32)
        ensures
            r == self.spec_header().is_fixed_pitch,
    {
        match self {
            Post::Post1_0(inner) => inner.is_fixed_pitch(),
            Post::Post2_0(inner) => inner.is_fixed_pitch(),
            Post::Post2_5(inner) => inner.is_fixed_pitch(),
            Post::Post3_0(inner) => inner.is_fixed_pitch(),
        }
    }

    /// Italic angle in counter-clockwise degrees from the vertical.
    pub fn italic_angle(&self) -> (r: Fixed)
        ensures
            r == self.spec_header().italic_angle,
    {
        match self {
            Post::Post1_0(inner) => inner.italic_angle(),
            Post::Post2_0(inner) => inner.italic_angle(),
            Post::Post2_5(inner) => inner.italic_angle(),
            Post::Post3_0(inner) => inner.italic_angle(),
        }
    }

    /// Maximum memory usage when downloaded as a Type 1 record.
    pub fn max_mem_type1(&self) -> (r: u32)
        ensures
            r == self.spec_header().max_mem_type1,
    {
        match self {
            Post::Post1_0(inner) => inner.max_mem_type1(),
            Post::Post2_0(inner) => inner.max_mem_type1(),
            Post::Post2_5(inner) => inner.max_mem_type1(),
            Post::Post3_0(inner) => inner.max_mem_type1(),
        }
    }

    /// Maximum memory usage when the record is downloaded.
    pub fn max_mem_type42(&self) -> (r: u32)
        ensures
            r == self.spec_header().max_mem_type42,
    {
        match self {
            Post::Post1_0(inner) => inner.max_mem_type42(),
            Post::Post2_0(inner) => inner.max_mem_type42(),
            Post::Post2_5(inner) => inner.max_mem_type42(),
            Post::Post3_0(inner) => inner.max_mem_type42(),
        }
    }

    /// Minimum memory usage when downloaded as a Type 1 record.
    pub fn min_mem_type1(&self) -> (r: u32)
        ensures
            r == self.spec_header().min_mem_type1,
    {
        match self {
            Post::Post1_0(inner) => inner.min_mem_type1(),
            Post::Post2_0(inner) => inner.min_mem_type1(),
            Post::Post2_5(inner) => inner.min_mem_type1(),
            Post::Post3_0(inner) => inner.min_mem_type1(),
        }
    }

    /// Minimum memory usage when the record is downloaded.
    pub fn min_mem_type42(&self) -> (r: u32)
        ensures
            r == self.spec_header().min_mem_type42,
    {
        match self {
            Post::Post1_0(inner) => inner.min_mem_type42(),
            Post::Post2_0(inner) => inner.min_mem_type42(),
            Post::Post2_5(inner) => inner.min_mem_type42(),
            Post::Post3_0(inner) => inner.min_mem_type42(),
        }
    }

    /// Suggested distance of the top of the underline from the baseline.
    pub fn underline_position(&self) -> (r: i16)
        ensures
            r == self.spec_header().underline_position,
    {
        match self {
            Post::Post1_0(inner) => inner.underline_position(),
            Post::Post2_0(inner) => inner.underline_position(),
            Post::Post2_5(inner) => inner.underline_position(),
            Post::Post3_0(inner) => inner.underline_position(),
        }
    }

    /// Suggested underline thickness.
    pub fn underline_thickness(&self) -> (r: i16)
        ensures
            r == self.spec_header().underline_thickness,
    {
        match self {
            Post::Post1_0(inner) => inner.underline_thickness(),
            Post::Post2_0(inner) => inner.underline_thickness(),
            Post::Post2_5(inner) => inner.underline_thickness(),
            Post::Post3_0(inner) => inner.underline_thickness(),
        }
    }

    /// The version discriminant.
    pub fn version(&self) -> (r: u32)
        ensures
            r == self.spec_header().version,
    {
        match self {
            Post::Post1_0(inner) => inner.version(),
            Post::Post2_0(inner) => inner.version(),
            Post::Post2_5(inner) => inner.version(),
            Post::Post3_0(inner) => inner.version(),
        }
    }
}

} // verus!
