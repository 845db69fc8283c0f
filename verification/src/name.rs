//! The naming table: version-dispatched record lists whose entries
//! reference a shared string-storage area by offset, plus the decoding
//! of stored names into characters.

use vstd::prelude::*;

use crate::error::ReadError;
use crate::font_data::FontData;
use crate::font_data::be_u16_at;
use crate::offset::Offset16;

verus! {

/// One name record: identity of the name and the position of its string
/// in the storage area.
#[derive(Clone, Copy, Debug, PartialEq, Eq, Structural)]
pub struct NameRecord {
    /// Platform identifier.
    pub platform_id: u16,
    /// Platform-specific encoding identifier.
    pub encoding_id: u16,
    /// Language identifier.
    pub language_id: u16,
    /// Name identifier.
    pub name_id: u16,
    /// String length in bytes.
    pub length: u16,
    /// String offset from the start of the storage area, in bytes.
    pub string_offset: u16,
}

/// The name record stored at byte `start` of `d`.
pub open spec fn name_record_at(d: Seq<u8>, start: int) -> NameRecord {
    NameRecord {
        platform_id: be_u16_at(d, start) as u16,
        encoding_id: be_u16_at(d, start + 2) as u16,
        language_id: be_u16_at(d, start + 4) as u16,
        name_id: be_u16_at(d, start + 6) as u16,
        length: be_u16_at(d, start + 8) as u16,
        string_offset: be_u16_at(d, start + 10) as u16,
    }
}

/// A borrowed view over `count` twelve-byte name records.
#[derive(Clone, Copy)]
pub struct NameRecordArray<'a> {
    data: FontData<'a>,
    start: usize,
    count: usize,
}

impl<'a> NameRecordArray<'a> {
    /// The bytes the view reads from.
    pub closed spec fn spec_data(&self) -> Seq<u8> {
        self.data@
    }

    /// Byte position of the first record.
    pub closed spec fn spec_start(&self) -> int {
        self.start as int
    }

    /// Number of records.
    pub closed spec fn spec_len(&self) -> int {
        self.count as int
    }

    #[verifier::type_invariant]
    closed spec fn inv(self) -> bool {
        self.start + 12 * self.count <= self.data@.len()
    }

    /// Number of records.
    pub fn len(&self) -> (r: usize)
        ensures
            r == self.spec_len(),
    {
        self.count
    }

    /// The record at `i`, when in bounds.
    pub fn get(&self, i: usize) -> (r: Option<NameRecord>)
        ensures
            match r {
                Some(rec) => i < self.spec_len() && rec == name_record_at(
                    self.spec_data(),
                    self.spec_start() + 12 * i,
                ),
                None => i >= self.spec_len(),
            },
    {
        proof {
            use_type_invariant(self);
            self.data.lemma_len_bound();
        }
        if i < self.count {
            let p = self.start + 12 * i;
            let platform_id = match self.data.read_u16_at(p) {
                Ok(v) => v,
                Err(_) => { return None },
            };
            let encoding_id = match self.data.read_u16_at(p + 2) {
                Ok(v) => v,
                Err(_) => { return None },
            };
            let language_id = match self.data.read_u16_at(p + 4) {
                Ok(v) => v,
                Err(_) => { return None },
            };
            let name_id = match self.data.read_u16_at(p + 6) {
                Ok(v) => v,
                Err(_) => { return None },
            };
            let length = match self.data.read_u16_at(p + 8) {
                Ok(v) => v,
                Err(_) => { return None },
            };
            let string_offset = match self.data.read_u16_at(p + 10) {
                Ok(v) => v,
                Err(_) => { return None },
            };
            Some(
                NameRecord {
                    platform_id,
                    encoding_id,
                    language_id,
                    name_id,
                    length,
                    string_offset,
                },
            )
        } else {
            None
        }
    }
}

/// One language-tag record of a version 1 table.
#[derive(Clone, Copy, Debug, PartialEq, Eq, Structural)]
pub struct LangTagRecord {
    /// Language-tag string length in bytes.
    pub length: u16,
    /// Language-tag string offset from the start of the storage area.
    pub lang_tag_offset: u16,
}

/// The bytes a version 0 naming table needs.
pub open spec fn name0_required_len(d: Seq<u8>) -> int {
    6 + 12 * be_u16_at(d, 2)
}

/// The bytes a version 1 naming table needs: the version 0 shape plus
/// the language-tag count and records.
pub open spec fn name1_required_len(d: Seq<u8>) -> int {
    name0_required_len(d) + 2 + 4 * be_u16_at(d, name0_required_len(d))
}

/// A version 0 naming table.
pub struct Name0<'a> {
    data: FontData<'a>,
}

impl<'a> Name0<'a> {
    /// The underlying bytes.
    pub closed spec fn spec_data(&self) -> Seq<u8> {
        self.data@
    }

    #[verifier::type_invariant]
    closed spec fn inv(self) -> bool {
        self.data@.len() >= name0_required_len(self.data@) && self.data@.len() >= 6
    }

    /// Read a version 0 table from the front of the buffer.
    pub fn read(data: FontData<'a>) -> (r: Result<Self, ReadError>)
        ensures
            match r {
                Ok(n) => n.spec_data() == data@ && data@.len() >= name0_required_len(data@)
                    && data@.len() >= 6,
                Err(e) => (data@.len() < 6 || data@.len() < name0_required_len(data@)) && e
                    == ReadError::OutOfBounds,
            },
    {
        if data.len() < 6 {
            return Err(ReadError::OutOfBounds);
        }
        let count = match data.read_u16_at(2) {
            Ok(v) => v,
            Err(e) => { return Err(e) },
        };
        if (data.len() - 6) / 12 < count as usize {
            proof {
                assert(data@.len() - 6 < 12 * (count as int)) by (nonlinear_arith)
                    requires
                        (data@.len() - 6) / 12 < count as int,
                        6 <= data@.len(),
                ;
            }
            return Err(ReadError::OutOfBounds);
        }
        proof {
            assert((count as int) * 12 <= data@.len() - 6) by (nonlinear_arith)
                requires
                    count as int <= (data@.len() - 6) / 12,
                    6 <= data@.len(),
            ;
        }
        Ok(Name0 { data })
    }

    /// Table version number.
    pub fn version(&self) -> (r: u16)
        ensures
            r == be_u16_at(self.spec_data(), 0),
    {
        proof {
            use_type_invariant(self);
        }
        match self.data.read_u16_at(0) {
            Ok(v) => v,
            Err(_) => 0,
        }
    }

    /// Number of name records.
    pub fn count(&self) -> (r: u16)
        ensures
            r == be_u16_at(self.spec_data(), 2),
    {
        proof {
            use_type_invariant(self);
        }
        match self.data.read_u16_at(2) {
            Ok(v) => v,
            Err(_) => 0,
        }
    }

    /// Offset to the start of string storage from the start of the
    /// table; zero means absent.
    pub fn storage_offset(&self) -> (r: Option<Offset16>)
        ensures
            match r {
                Some(o) => o.spec_raw() == be_u16_at(self.spec_data(), 4) && o.spec_raw() != 0,
                None => be_u16_at(self.spec_data(), 4) == 0,
            },
    {
        proof {
            use_type_invariant(self);
        }
        match self.data.read_u16_at(4) {
            Ok(v) => Offset16::new(v),
            Err(_) => None,
        }
    }

    /// The name records.
    pub fn name_record(&self) -> (r: NameRecordArray<'a>)
        ensures
            r.spec_data() == self.spec_data(),
            r.spec_start() == 6,
            r.spec_len() == be_u16_at(self.spec_data(), 2),
    {
        proof {
            use_type_invariant(self);
        }
        let count = self.count() as usize;
        NameRecordArray { data: self.data, start: 6, count }
    }
}

/// A version 1 naming table: the version 0 shape plus language-tag
/// records.
pub struct Name1<'a> {
    data: FontData<'a>,
}

impl<'a> Name1<'a> {
    /// The underlying bytes.
    pub closed spec fn spec_data(&self) -> Seq<u8> {
        self.data@
    }

    #[verifier::type_invariant]
    closed spec fn inv(self) -> bool {
        &&& self.data@.len() >= 6
        &&& self.data@.len() >= name0_required_len(self.data@)
        &&& self.data@.len() >= name1_required_len(self.data@)
    }

    /// Read a version 1 table from the front of the buffer.
    pub fn read(data: FontData<'a>) -> (r: Result<Self, ReadError>)
        ensures
            match r {
                Ok(n) => n.spec_data() == data@ && data@.len() >= 6 && data@.len()
                    >= name0_required_len(data@) && data@.len() >= name1_required_len(data@),
                Err(e) => (data@.len() < 6 || data@.len() < name0_required_len(data@)
                    || data@.len() < name1_required_len(data@)) && e == ReadError::OutOfBounds,
            },
    {
        let base = match Name0::read(data) {
            Ok(_) => (),
            Err(e) => { return Err(e) },
        };
        let count = match data.read_u16_at(2) {
            Ok(v) => v,
            Err(e) => { return Err(e) },
        };
        let tag_count_pos: usize = 6 + 12 * (count as usize);
        let lang_tag_count = match data.read_u16_at(tag_count_pos) {
            Ok(v) => v,
            Err(e) => { return Err(e) },
        };
        let rec_start = tag_count_pos + 2;
        if (data.len() - rec_start) / 4 < lang_tag_count as usize {
            proof {
                assert(data@.len() - rec_start < 4 * (lang_tag_count as int)) by (nonlinear_arith)
                    requires
                        (data@.len() - rec_start) / 4 < lang_tag_count as int,
                        rec_start <= data@.len(),
                ;
            }
            return Err(ReadError::OutOfBounds);
        }
        proof {
            assert((lang_tag_count as int) * 4 <= data@.len() - rec_start) by (nonlinear_arith)
                requires
                    lang_tag_count as int <= (data@.len() - rec_start) / 4,
                    rec_start <= data@.len(),
            ;
        }
        Ok(Name1 { data })
    }

    /// Table version number.
    pub fn version(&self) -> (r: u16)
        ensures
            r == be_u16_at(self.spec_data(), 0),
    {
        proof {
            use_type_invariant(self);
        }
        match self.data.read_u16_at(0) {
            Ok(v) => v,
            Err(_) => 0,
        }
    }

    /// Number of name records.
    pub fn count(&self) -> (r: u16)
        ensures
            r == be_u16_at(self.spec_data(), 2),
    {
        proof {
            use_type_invariant(self);
        }
        match self.data.read_u16_at(2) {
            Ok(v) => v,
            Err(_) => 0,
        }
    }

    /// Offset to the start of string storage from the start of the
    /// table; zero means absent.
    pub fn storage_offset(&self) -> (r: Option<Offset16>)
        ensures
            match r {
                Some(o) => o.spec_raw() == be_u16_at(self.spec_data(), 4) && o.spec_raw() != 0,
                None => be_u16_at(self.spec_data(), 4) == 0,
            },
    {
        proof {
            use_type_invariant(self);
        }
        match self.data.read_u16_at(4) {
            Ok(v) => Offset16::new(v),
            Err(_) => None,
        }
    }

    /// The name records.
    pub fn name_record(&self) -> (r: NameRecordArray<'a>)
        ensures
            r.spec_data() == self.spec_data(),
            r.spec_start() == 6,
            r.spec_len() == be_u16_at(self.spec_data(), 2),
    {
        proof {
            use_type_invariant(self);
        }
        let count = self.count() as usize;
        NameRecordArray { data: self.data, start: 6, count }
    }

    /// Number of language-tag records.
    pub fn lang_tag_count(&self) -> (r: u16)
        ensures
            r == be_u16_at(self.spec_data(), name0_required_len(self.spec_data())),
    {
        proof {
            use_type_invariant(self);
            self.data.lemma_len_bound();
        }
        let count = self.count() as usize;
        match self.data.read_u16_at(6 + 12 * count) {
            Ok(v) => v,
            Err(_) => 0,
        }
    }

    /// The language-tag record at `i`, when in bounds.
    pub fn lang_tag_record(&self, i: usize) -> (r: Option<LangTagRecord>)
        ensures
            ({
                let base = name0_required_len(self.spec_data()) + 2;
                match r {
                    Some(rec) => {
                        &&& i < be_u16_at(self.spec_data(), name0_required_len(self.spec_data()))
                        &&& rec.length == be_u16_at(self.spec_data(), base + 4 * i)
                        &&& rec.lang_tag_offset == be_u16_at(self.spec_data(), base + 4 * i + 2)
                    },
                    None => i >= be_u16_at(
                        self.spec_data(),
                        name0_required_len(self.spec_data()),
                    ),
                }
            }),
    {
        proof {
            use_type_invariant(self);
            self.data.lemma_len_bound();
        }
        let count = self.count() as usize;
        let ltc = self.lang_tag_count() as usize;
        if i >= ltc {
            return None;
        }
        let base = 6 + 12 * count + 2;
        proof {
            assert(4 * (i as int) + 4 <= 4 * (ltc as int));
        }
        let length = match self.data.read_u16_at(base + 4 * i) {
            Ok(v) => v,
            Err(_) => { return None },
        };
        let lang_tag_offset = match self.data.read_u16_at(base + 4 * i + 2) {
            Ok(v) => v,
            Err(_) => { return None },
        };
        Some(LangTagRecord { length, lang_tag_offset })
    }
}

/// A naming table of any known version.
pub enum Name<'a> {
    Version0(Name0<'a>),
    Version1(Name1<'a>),
}

impl<'a> Name<'a> {
    /// Read a naming table, dispatching on the leading version word.
    /// An unknown version yields an unrecognized-format error carrying
    /// the raw value, and nothing is consumed.
    pub fn read(data: FontData<'a>) -> (r: Result<Self, ReadError>)
        ensures
            match r {
                Ok(n) => {
                    &&& data@.len() >= 2
                    &&& data@.len() >= name0_required_len(data@)
                    &&& match n {
                        Name::Version0(t) => be_u16_at(data@, 0) == 0 && t.spec_data() == data@,
                        Name::Version1(t) => be_u16_at(data@, 0) == 1 && t.spec_data() == data@
                            && data@.len() >= name1_required_len(data@),
                    }
                },
                Err(ReadError::UnrecognizedFormat(v)) => {
                    &&& data@.len() >= 2
                    &&& v == be_u16_at(data@, 0)
                    &&& v != 0 && v != 1
                },
                Err(ReadError::OutOfBounds) => data@.len() < 2 || (be_u16_at(data@, 0) == 0
                    && data@.len() < name0_required_len(data@)) || (be_u16_at(data@, 0) == 1 && (
                data@.len() < name0_required_len(data@) || data@.len() < name1_required_len(
                    data@,
                ))),
                Err(_) => false,
            },
    {
        let version = match data.read_u16_at(0) {
            Ok(v) => v,
            Err(e) => { return Err(e) },
        };
        if version == 0 {
            match Name0::read(data) {
                Ok(t) => Ok(Name::Version0(t)),
                Err(e) => Err(e),
            }
        } else if version == 1 {
            match Name1::read(data) {
                Ok(t) => Ok(Name::Version1(t)),
                Err(e) => Err(e),
            }
        } else {
            Err(ReadError::UnrecognizedFormat(version as u32))
        }
    }

    /// The underlying bytes: every view of the table borrows them.
    pub closed spec fn spec_data(&self) -> Seq<u8> {
        match self {
            Name::Version0(t) => t.spec_data(),
            Name::Version1(t) => t.spec_data(),
        }
    }

    /// The underlying bytes.
    pub fn bytes(&self) -> (r: FontData<'a>)
        ensures
            r@ == self.spec_data(),
    {
        match self {
            Name::Version0(t) => t.data,
            Name::Version1(t) => t.data,
        }
    }

    /// Offset to the start of string storage; zero means absent.
    pub fn storage_offset(&self) -> (r: Option<Offset16>)
        ensures
            match r {
                Some(o) => o.spec_raw() == be_u16_at(self.spec_data(), 4) && o.spec_raw() != 0,
                None => be_u16_at(self.spec_data(), 4) == 0,
            },
    {
        match self {
            Name::Version0(t) => t.storage_offset(),
            Name::Version1(t) => t.storage_offset(),
        }
    }

    /// Resolve a name record's string against the storage area: `None`
    /// when the storage offset is null or the computed range leaves the
    /// buffer; otherwise the raw string bytes with their encoding.
    pub fn resolve(&self, name: &NameRecord) -> (r: Option<Entry<'a>>)
        ensures
            ({
                let d = self.spec_data();
                let so = be_u16_at(d, 4);
                let start = so + name.string_offset;
                match r {
                    Some(e) => {
                        &&& so != 0
                        &&& start + name.length <= d.len()
                        &&& e.spec_data() == d.subrange(start, start + name.length)
                        &&& e.spec_encoding() == spec_encoding(name.platform_id, name.encoding_id)
                    },
                    None => so == 0 || start + name.length > d.len(),
                }
            }),
    {
        let data = self.bytes();
        let so = match self.storage_offset() {
            Some(o) => o.to_raw(),
            None => { return None },
        };
        let offset = (so as usize) + (name.string_offset as usize);
        let len = name.length as usize;
        proof {
            data.lemma_len_bound();
        }
        if offset > data.len() || data.len() - offset < len {
            return None;
        }
        let slice = match data.slice(offset, offset + len) {
            Some(d) => d,
            None => { return None },
        };
        Some(Entry { data: slice, encoding: encoding(name.platform_id, name.encoding_id) })
    }
}

/// The character encoding a platform and encoding identifier pair
/// selects.
#[derive(Clone, Copy, Debug, PartialEq, Eq, Structural)]
pub enum Encoding {
    /// Big-endian UTF-16.
    Utf16Be,
    /// The legacy Mac Roman single-byte encoding.
    MacRoman,
    /// Anything this decoder does not handle.
    Unknown,
}

/// The encoding selected by a platform and encoding identifier pair.
pub open spec fn spec_encoding(platform_id: u16, encoding_id: u16) -> Encoding {
    if platform_id == 0 {
        Encoding::Utf16Be
    } else if platform_id == 1 && encoding_id == 0 {
        Encoding::MacRoman
    } else if platform_id == 3 && (encoding_id == 0 || encoding_id == 1 || encoding_id == 10) {
        Encoding::Utf16Be
    } else {
        Encoding::Unknown
    }
}

/// Select the encoding for a platform and encoding identifier pair.
pub fn encoding(platform_id: u16, encoding_id: u16) -> (r: Encoding)
    ensures
        r == spec_encoding(platform_id, encoding_id),
{
    if platform_id == 0 {
        Encoding::Utf16Be
    } else if platform_id == 1 && encoding_id == 0 {
        Encoding::MacRoman
    } else if platform_id == 3 && (encoding_id == 0 || encoding_id == 1 || encoding_id == 10) {
        Encoding::Utf16Be
    } else {
        Encoding::Unknown
    }
}

/// An entry for a name in the naming table: its raw string bytes and
/// their encoding.
#[derive(Clone, Copy)]
pub struct Entry<'a> {
    data: FontData<'a>,
    encoding: Encoding,
}

impl<'a> Entry<'a> {
    /// The raw string bytes.
    pub closed spec fn spec_data(&self) -> Seq<u8> {
        self.data@
    }

    /// The string's encoding.
    pub closed spec fn spec_encoding(&self) -> Encoding {
        self.encoding
    }

    /// An iterator over the characters of this name.
    pub fn chars(&self) -> (r: CharIter<'a>)
        ensures
            r.spec_data() == self.spec_data(),
            r.spec_encoding() == self.spec_encoding(),
            r.spec_pos() == 0,
    {
        CharIter { data: self.data, encoding: self.encoding, pos: 0 }
    }
}

/// The Mac Roman codepage: Unicode values of byte values 128 to 255.
pub const MAC_ROMAN: [u16; 128] = [
    196, 197, 199, 201, 209, 214, 220, 225, 224, 226, 228, 227, 229, 231, 233,
    232, 234, 235, 237, 236, 238, 239, 241, 243, 242, 244, 246, 245, 250, 249,
    251, 252, 8224, 176, 162, 163, 167, 8226, 182, 223, 174, 169, 8482, 180,
    168, 8800, 198, 216, 8734, 177, 8804, 8805, 165, 181, 8706, 8721, 8719,
    960, 8747, 170, 186, 937, 230, 248, 191, 161, 172, 8730, 402, 8776, 8710,
    171, 187, 8230, 160, 192, 195, 213, 338, 339, 8211, 8212, 8220, 8221, 8216,
    8217, 247, 9674, 255, 376, 8260, 8364, 8249, 8250, 64257, 64258, 8225, 183,
    8218, 8222, 8240, 194, 202, 193, 203, 200, 205, 206, 207, 204, 211, 212,
    63743, 210, 218, 219, 217, 305, 710, 732, 175, 728, 729, 730, 184, 733,
    731, 711,
];

/// Is the code point a Unicode scalar value (not a surrogate, within
/// range)?
pub open spec fn valid_scalar(c: int) -> bool {
    (0 <= c < 0xD800) || (0xE000 <= c <= 0x10FFFF)
}

/// The character a raw code denotes: itself when it is a scalar value,
/// else the replacement character.
pub open spec fn char_of_code(c: int) -> char {
    if valid_scalar(c) {
        c as char
    } else {
        '\u{FFFD}'
    }
}

/// One decoding step: the character starting at `pos` and the position
/// after it, or `None` at the end of the data, on a truncated code
/// unit, or in an unknown encoding.
pub open spec fn spec_char_step(d: Seq<u8>, enc: Encoding, pos: int) -> Option<(char, int)> {
    if pos >= d.len() {
        None
    } else {
        match enc {
            Encoding::Utf16Be => {
                if pos + 2 > d.len() {
                    None
                } else {
                    let c1 = be_u16_at(d, pos);
                    if 0xD800 <= c1 < 0xDC00 {
                        if pos + 4 > d.len() {
                            None
                        } else {
                            let c2 = be_u16_at(d, pos + 2);
                            Some(
                                (
                                    char_of_code(
                                        (c1 % 0x400) * 0x400 + (c2 % 0x400) + 0x10000,
                                    ),
                                    pos + 4,
                                ),
                            )
                        }
                    } else {
                        Some((char_of_code(c1), pos + 2))
                    }
                }
            },
            Encoding::MacRoman => {
                let c = d[pos] as int;
                let code = if c > 127 {
                    MAC_ROMAN[c - 128] as int
                } else {
                    c
                };
                Some((char_of_code(code), pos + 1))
            },
            Encoding::Unknown => None,
        }
    }
}

/// Relies on `char::from_u32`: `Some` exactly for code points that are
/// Unicode scalar values, yielding the character with that code.
#[verifier::external_body]
fn char_from_u32(code: u32) -> (r: Option<char>)
    ensures
        match r {
            Some(c) => valid_scalar(code as int) && c == code as char,
            None => !valid_scalar(code as int),
        },
{
    char::from_u32(code)
}

/// An iterator over the characters of a name record's string.
pub struct CharIter<'a> {
    data: FontData<'a>,
    encoding: Encoding,
    pos: usize,
}

impl<'a> CharIter<'a> {
    /// The raw string bytes.
    pub closed spec fn spec_data(&self) -> Seq<u8> {
        self.data@
    }

    /// The string's encoding.
    pub closed spec fn spec_encoding(&self) -> Encoding {
        self.encoding
    }

    /// The byte position of the next character.
    pub closed spec fn spec_pos(&self) -> int {
        self.pos as int
    }

    /// Decode the next character and advance past it.  Malformed code
    /// units decode to the replacement character; a truncated code unit
    /// ends the iteration.
    pub fn next(&mut self) -> (r: Option<char>)
        ensures
            final(self).spec_data() == old(self).spec_data(),
            final(self).spec_encoding() == old(self).spec_encoding(),
            match r {
                Some(c) => spec_char_step(
                    old(self).spec_data(),
                    old(self).spec_encoding(),
                    old(self).spec_pos(),
                ) == Some((c, final(self).spec_pos())),
                None => spec_char_step(
                    old(self).spec_data(),
                    old(self).spec_encoding(),
                    old(self).spec_pos(),
                ) is None,
            },
    {
        proof {
            self.data.lemma_len_bound();
        }
        if self.pos >= self.data.len() {
            return None;
        }
        match self.encoding {
            Encoding::Utf16Be => {
                let c1 = match self.data.read_u16_at(self.pos) {
                    Ok(v) => v,
                    Err(_) => { return None },
                };
                if 0xD800 <= c1 && c1 < 0xDC00 {
                    if self.data.len() - self.pos < 4 {
                        return None;
                    }
                    let c2 = match self.data.read_u16_at(self.pos + 2) {
                        Ok(v) => v,
                        Err(_) => { return None },
                    };
                    let code: u32 = ((c1 as u32) % 0x400) * 0x400 + ((c2 as u32) % 0x400)
                        + 0x10000;
                    self.pos = self.pos + 4;
                    match char_from_u32(code) {
                        Some(c) => Some(c),
                        None => Some('\u{FFFD}'),
                    }
                } else {
                    self.pos = self.pos + 2;
                    match char_from_u32(c1 as u32) {
                        Some(c) => Some(c),
                        None => Some('\u{FFFD}'),
                    }
                }
            },
            Encoding::MacRoman => {
                let c = match self.data.read_u8_at(self.pos) {
                    Ok(v) => v,
                    Err(_) => { return None },
                };
                let code: u32 = if c > 127 {
                    MAC_ROMAN[(c - 128) as usize] as u32
                } else {
                    c as u32
                };
                self.pos = self.pos + 1;
                match char_from_u32(code) {
                    Some(ch) => Some(ch),
                    None => Some('\u{FFFD}'),
                }
            },
            Encoding::Unknown => None,
        }
    }
}

} // verus!
