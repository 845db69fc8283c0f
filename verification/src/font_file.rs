//! The outermost containers: a font file's table directory, and the
//! collection header that gathers several directories in one buffer.
//!
//! A table directory starts with a version word and a table count,
//! followed by one sixteen-byte record per table: a four-byte tag, a
//! checksum, and the table's byte offset and length, both measured from
//! the start of the file.  Records are stored sorted by tag, so a table
//! is found by binary search.  A collection file prefixes several
//! directories with a header holding the byte offset of each.

use vstd::prelude::*;

use crate::error::ReadError;
use crate::font_data::FontData;
use crate::font_data::be_u16_at;
use crate::font_data::be_u32_at;

verus! {

/// The version word of a glyph-program container.
pub const TT_SFNT_VERSION: u32 = 0x00010000;

/// The version word of a compact-program container.
pub const CFF_SFNT_VERSION: u32 = 0x4F54544F;

/// The leading tag of a collection file.
pub const TTC_HEADER_TAG: u32 = 0x74746366;

/// One table directory record.  The tag is carried as its four bytes
/// read as one big-endian word, which orders records exactly as their
/// tag bytes do.
#[derive(Clone, Copy, Debug, PartialEq, Eq, Structural)]
pub struct TableRecord {
    /// The table's four tag bytes as one big-endian word.
    pub tag: u32,
    /// Checksum of the table.
    pub checksum: u32,
    /// The table's byte offset from the start of the file.
    pub offset: u32,
    /// The table's byte length.
    pub length: u32,
}

/// The record stored at index `i` of the directory bytes `d`.
pub open spec fn spec_table_record(d: Seq<u8>, i: int) -> TableRecord {
    TableRecord {
        tag: be_u32_at(d, 12 + 16 * i) as u32,
        checksum: be_u32_at(d, 12 + 16 * i + 4) as u32,
        offset: be_u32_at(d, 12 + 16 * i + 8) as u32,
        length: be_u32_at(d, 12 + 16 * i + 12) as u32,
    }
}

/// The bytes a table directory needs: the twelve-byte header and one
/// sixteen-byte record per table.
pub open spec fn directory_required_len(d: Seq<u8>) -> int {
    12 + 16 * be_u16_at(d, 4)
}

/// Are the directory's records stored strictly sorted by tag?
pub open spec fn directory_sorted(d: Seq<u8>) -> bool {
    forall|i: int, j: int|
        0 <= i < j < be_u16_at(d, 4) ==> (#[trigger] spec_table_record(d, i)).tag < (
        #[trigger] spec_table_record(d, j)).tag
}

/// A font's table directory, read from the front of its buffer.  In a
/// collection the directory sits at some offset of the file; the record
/// offsets it holds are measured from the file's start either way.
pub struct TableDirectory<'a> {
    data: FontData<'a>,
}

impl<'a> TableDirectory<'a> {
    /// The bytes the directory was read from.
    pub closed spec fn spec_data(&self) -> Seq<u8> {
        self.data@
    }

    #[verifier::type_invariant]
    closed spec fn inv(self) -> bool {
        self.data@.len() >= 12 && self.data@.len() >= directory_required_len(self.data@)
    }

    /// Read a directory from the front of the buffer.  Succeeds exactly
    /// when the buffer holds the header and every record the count
    /// calls for.
    pub fn read(data: FontData<'a>) -> (r: Result<Self, ReadError>)
        ensures
            match r {
                Ok(t) => t.spec_data() == data@ && data@.len() >= 12 && data@.len()
                    >= directory_required_len(data@),
                Err(e) => (data@.len() < 12 || data@.len() < directory_required_len(data@)) && e
                    == ReadError::OutOfBounds,
            },
    {
        if data.len() < 12 {
            return Err(ReadError::OutOfBounds);
        }
        let count = match data.read_u16_at(4) {
            Ok(v) => v,
            Err(e) => { return Err(e) },
        };
        if (data.len() - 12) / 16 < count as usize {
            proof {
                assert(data@.len() - 12 < 16 * (count as int)) by (nonlinear_arith)
                    requires
                        (data@.len() - 12) / 16 < count as int,
                        12 <= data@.len(),
                ;
            }
            return Err(ReadError::OutOfBounds);
        }
        proof {
            assert((count as int) * 16 <= data@.len() - 12) by (nonlinear_arith)
                requires
                    count as int <= (data@.len() - 12) / 16,
                    12 <= data@.len(),
            ;
        }
        Ok(TableDirectory { data })
    }

    /// The container version word.
    pub fn sfnt_version(&self) -> (r: u32)
        ensures
            r == be_u32_at(self.spec_data(), 0),
    {
        proof {
            use_type_invariant(self);
        }
        match self.data.read_u32_at(0) {
            Ok(v) => v,
            Err(_) => 0,
        }
    }

    /// Number of table records.
    pub fn num_tables(&self) -> (r: u16)
        ensures
            r == be_u16_at(self.spec_data(), 4),
    {
        proof {
            use_type_invariant(self);
        }
        match self.data.read_u16_at(4) {
            Ok(v) => v,
            Err(_) => 0,
        }
    }

    /// The record at `i`, when in bounds.
    pub fn table_record(&self, i: usize) -> (r: Option<TableRecord>)
        ensures
            match r {
                Some(rec) => i < be_u16_at(self.spec_data(), 4) && rec == spec_table_record(
                    self.spec_data(),
                    i as int,
                ),
                None => i >= be_u16_at(self.spec_data(), 4),
            },
    {
        proof {
            use_type_invariant(self);
            self.data.lemma_len_bound();
        }
        let count = self.num_tables() as usize;
        if i >= count {
            return None;
        }
        let p = 12 + 16 * i;
        let tag = match self.data.read_u32_at(p) {
            Ok(v) => v,
            Err(_) => { return None },
        };
        let checksum = match self.data.read_u32_at(p + 4) {
            Ok(v) => v,
            Err(_) => { return None },
        };
        let offset = match self.data.read_u32_at(p + 8) {
            Ok(v) => v,
            Err(_) => { return None },
        };
        let length = match self.data.read_u32_at(p + 12) {
            Ok(v) => v,
            Err(_) => { return None },
        };
        Some(TableRecord { tag, checksum, offset, length })
    }
}

/// Reference to an in-memory font: the whole buffer together with its
/// table directory (which, in a collection, sits at an offset of that
/// buffer).
pub struct FontRef<'a> {
    /// The whole buffer; the directory's record offsets are measured
    /// from its start.
    pub data: FontData<'a>,
    /// The font's table directory.
    pub table_directory: TableDirectory<'a>,
}

impl<'a> FontRef<'a> {
    /// The whole buffer table offsets are measured from.
    pub open spec fn spec_data(&self) -> Seq<u8> {
        self.data@
    }

    /// Creates a new reference to an in-memory font backed by the given
    /// buffer, which must begin with a table directory carrying a known
    /// container version.
    pub fn new(data: FontData<'a>) -> (r: Result<Self, ReadError>)
        ensures
            match r {
                Ok(f) => {
                    &&& f.spec_data() == data@
                    &&& f.table_directory.spec_data() == data@
                    &&& data@.len() >= directory_required_len(data@) && data@.len() >= 12
                    &&& (be_u32_at(data@, 0) == TT_SFNT_VERSION || be_u32_at(data@, 0)
                        == CFF_SFNT_VERSION)
                },
                Err(ReadError::OutOfBounds) => data@.len() < 12 || data@.len()
                    < directory_required_len(data@),
                Err(ReadError::InvalidSfnt(v)) => {
                    &&& data@.len() >= 12 && data@.len() >= directory_required_len(data@)
                    &&& v == be_u32_at(data@, 0)
                    &&& v != TT_SFNT_VERSION && v != CFF_SFNT_VERSION
                },
                Err(_) => false,
            },
    {
        let dir = match TableDirectory::read(data) {
            Ok(d) => d,
            Err(e) => { return Err(e) },
        };
        Self::with_table_directory(data, dir)
    }

    /// Pair a buffer with a directory parsed out of it, checking that
    /// the directory names a known container version.
    pub fn with_table_directory(data: FontData<'a>, table_directory: TableDirectory<'a>) -> (r:
        Result<Self, ReadError>)
        ensures
            ({
                let v = be_u32_at(table_directory.spec_data(), 0);
                match r {
                    Ok(f) => {
                        &&& f.spec_data() == data@
                        &&& f.table_directory == table_directory
                        &&& (v == TT_SFNT_VERSION || v == CFF_SFNT_VERSION)
                    },
                    Err(ReadError::InvalidSfnt(raw)) => raw == v && v != TT_SFNT_VERSION && v
                        != CFF_SFNT_VERSION,
                    Err(_) => false,
                }
            }),
    {
        let version = table_directory.sfnt_version();
        if version == TT_SFNT_VERSION || version == CFF_SFNT_VERSION {
            Ok(FontRef { data, table_directory })
        } else {
            Err(ReadError::InvalidSfnt(version))
        }
    }

    /// Does index `i` of the directory name `tag` with a usable range,
    /// and is `found` exactly that range of the file?
    pub open spec fn spec_found_table(&self, i: int, tag: u32, found: Seq<u8>) -> bool {
        let dir = self.table_directory.spec_data();
        let rec = spec_table_record(dir, i);
        &&& 0 <= i < be_u16_at(dir, 4)
        &&& rec.tag == tag
        &&& rec.offset != 0
        &&& rec.offset + rec.length <= self.spec_data().len()
        &&& found == self.spec_data().subrange(rec.offset as int, rec.offset + rec.length)
    }

    /// Does no record with `tag` have a non-null, in-bounds range?
    pub open spec fn spec_no_usable_table(&self, tag: u32) -> bool {
        let dir = self.table_directory.spec_data();
        forall|i: int|
            0 <= i < be_u16_at(dir, 4) && (#[trigger] spec_table_record(dir, i)).tag == tag
                ==> spec_table_record(dir, i).offset == 0 || spec_table_record(dir, i).offset
                + spec_table_record(dir, i).length > self.spec_data().len()
    }

    /// The bytes of the table with the given tag, if the directory has
    /// a record for it with a non-null offset and an in-bounds range.
    ///
    /// Lookup is a binary search over the records, which the format
    /// stores sorted by tag: when they are, a `None` means no record
    /// with the tag has a usable range; an unsorted directory can only
    /// make the search miss, never return a wrong table.
    #[verifier::loop_isolation(false)]
    #[verifier::rlimit(60)]
    pub fn table_data(&self, tag: u32) -> (r: Option<FontData<'a>>)
        ensures
            match r {
                Some(d) => exists|i: int| self.spec_found_table(i, tag, d@),
                None => directory_sorted(self.table_directory.spec_data())
                    ==> self.spec_no_usable_table(tag),
            },
    {
        let ghost dir = self.table_directory.spec_data();
        let n = self.table_directory.num_tables() as usize;
        let mut lo: usize = 0;
        let mut hi: usize = n;
        while lo < hi
            invariant
                lo <= hi <= n,
                directory_sorted(dir) ==> forall|i: int|
                    0 <= i < lo ==> (#[trigger] spec_table_record(dir, i)).tag < tag,
                directory_sorted(dir) ==> forall|i: int|
                    hi <= i < n ==> (#[trigger] spec_table_record(dir, i)).tag > tag,
            decreases hi - lo,
        {
            let mid = lo + (hi - lo) / 2;
            let rec = match self.table_directory.table_record(mid) {
                Some(rec) => rec,
                None => { return None },
            };
            if rec.tag < tag {
                proof {
                    if directory_sorted(dir) {
                        assert forall|i: int|
                            0 <= i < mid + 1 implies (#[trigger] spec_table_record(dir, i)).tag
                            < tag by {
                            if i < mid {
                                assert(spec_table_record(dir, i).tag < spec_table_record(
                                    dir,
                                    mid as int,
                                ).tag);
                            }
                        }
                    }
                }
                lo = mid + 1;
            } else if rec.tag > tag {
                proof {
                    if directory_sorted(dir) {
                        assert forall|i: int|
                            mid <= i < n implies (#[trigger] spec_table_record(dir, i)).tag
                            > tag by {
                            if i > mid {
                                assert(spec_table_record(dir, mid as int).tag < spec_table_record(
                                    dir,
                                    i,
                                ).tag);
                            }
                        }
                    }
                }
                hi = mid;
            } else {
                // found: the record decides, exactly as stored
                proof {
                    if directory_sorted(dir) {
                        assert forall|i: int|
                            0 <= i < n && (#[trigger] spec_table_record(dir, i)).tag
                            == tag implies i == mid by {
                            if i < mid {
                                assert(spec_table_record(dir, i).tag < spec_table_record(
                                    dir,
                                    mid as int,
                                ).tag);
                            }
                            if i > mid {
                                assert(spec_table_record(dir, mid as int).tag < spec_table_record(
                                    dir,
                                    i,
                                ).tag);
                            }
                        }
                    }
                }
                if rec.offset == 0 {
                    return None;
                }
                let start = rec.offset as usize;
                let len = rec.length as usize;
                proof {
                    self.data.lemma_len_bound();
                }
                if start > self.data.len() || self.data.len() - start < len {
                    return None;
                }
                let sliced = self.data.slice(start, start + len);
                proof {
                    assert(self.spec_found_table(
                        mid as int,
                        tag,
                        self.spec_data().subrange(start as int, start + len),
                    ));
                }
                return sliced;
            }
        }
        proof {
            if directory_sorted(dir) {
                assert forall|i: int|
                    0 <= i < n && (#[trigger] spec_table_record(dir, i)).tag == tag implies
                    spec_table_record(dir, i).offset == 0 || spec_table_record(dir, i).offset
                        + spec_table_record(dir, i).length > self.spec_data().len() by {
                    assert(i < lo || hi <= i);
                }
            }
        }
        None
    }
}

/// The bytes a collection header needs: the twelve-byte header and one
/// four-byte directory offset per font.
pub open spec fn ttc_required_len(d: Seq<u8>) -> int {
    12 + 4 * be_u32_at(d, 8)
}

/// Number of fonts a collection header declares.
pub open spec fn collection_len(d: Seq<u8>) -> int {
    be_u32_at(d, 8)
}

/// The directory offset stored for font `index` of a collection.
pub open spec fn collection_entry_offset(d: Seq<u8>, index: int) -> int {
    be_u32_at(d, 12 + 4 * index)
}

/// Does the buffer start with a well-formed collection header?
pub open spec fn is_collection(d: Seq<u8>) -> bool {
    &&& d.len() >= 12
    &&& d.len() >= ttc_required_len(d)
    &&& be_u32_at(d, 0) == TTC_HEADER_TAG
}

/// Does the buffer start with a well-formed single-font directory?
pub open spec fn is_font(d: Seq<u8>) -> bool {
    &&& d.len() >= 12
    &&& d.len() >= directory_required_len(d)
    &&& (be_u32_at(d, 0) == TT_SFNT_VERSION || be_u32_at(d, 0) == CFF_SFNT_VERSION)
}

/// What [`CollectionRef::get`] returns for font `index` of the
/// collection bytes `d`: the whole buffer paired with the directory at
/// the stored offset, or the error the first failing step owes.
pub open spec fn collection_get_post<'a>(
    d: Seq<u8>,
    index: u32,
    r: Result<FontRef<'a>, ReadError>,
) -> bool {
    let off = collection_entry_offset(d, index as int);
    let sub = d.subrange(off, d.len() as int);
    match r {
        Ok(f) => {
            &&& index < collection_len(d)
            &&& off <= d.len()
            &&& f.spec_data() == d
            &&& f.table_directory.spec_data() == sub
            &&& sub.len() >= 12 && sub.len() >= directory_required_len(sub)
            &&& (be_u32_at(sub, 0) == TT_SFNT_VERSION || be_u32_at(sub, 0) == CFF_SFNT_VERSION)
        },
        Err(ReadError::InvalidCollectionIndex(ix)) => ix == index && index >= collection_len(d),
        Err(ReadError::OutOfBounds) => {
            &&& index < collection_len(d)
            &&& (off > d.len() || sub.len() < 12 || sub.len() < directory_required_len(sub))
        },
        Err(ReadError::InvalidSfnt(v)) => {
            &&& index < collection_len(d)
            &&& off <= d.len()
            &&& sub.len() >= 12 && sub.len() >= directory_required_len(sub)
            &&& v == be_u32_at(sub, 0)
            &&& v != TT_SFNT_VERSION && v != CFF_SFNT_VERSION
        },
        Err(_) => false,
    }
}

/// Reference to the contents of a font collection file.
pub struct CollectionRef<'a> {
    data: FontData<'a>,
}

impl<'a> CollectionRef<'a> {
    /// The whole collection buffer.
    pub closed spec fn spec_data(&self) -> Seq<u8> {
        self.data@
    }

    #[verifier::type_invariant]
    closed spec fn inv(self) -> bool {
        is_collection(self.data@)
    }

    /// Creates a new reference to a font collection: the buffer must
    /// start with the collection tag and hold one directory offset per
    /// declared font.
    pub fn new(data: FontData<'a>) -> (r: Result<Self, ReadError>)
        ensures
            match r {
                Ok(c) => c.spec_data() == data@ && is_collection(data@),
                Err(ReadError::InvalidTtc(raw)) => {
                    &&& data@.len() >= 12 && data@.len() >= ttc_required_len(data@)
                    &&& raw == be_u32_at(data@, 0)
                    &&& raw != TTC_HEADER_TAG
                },
                Err(ReadError::OutOfBounds) => data@.len() < 12 || data@.len() < ttc_required_len(
                    data@,
                ),
                Err(_) => false,
            },
    {
        if data.len() < 12 {
            return Err(ReadError::OutOfBounds);
        }
        let num_fonts = match data.read_u32_at(8) {
            Ok(v) => v,
            Err(e) => { return Err(e) },
        };
        let avail: u64 = ((data.len() - 12) / 4) as u64;
        if avail < num_fonts as u64 {
            proof {
                assert(data@.len() - 12 < 4 * (num_fonts as int)) by (nonlinear_arith)
                    requires
                        (data@.len() - 12) / 4 < num_fonts as int,
                        12 <= data@.len(),
                ;
            }
            return Err(ReadError::OutOfBounds);
        }
        proof {
            assert((num_fonts as int) * 4 <= data@.len() - 12) by (nonlinear_arith)
                requires
                    num_fonts as int <= (data@.len() - 12) / 4,
                    12 <= data@.len(),
            ;
        }
        let tag = match data.read_u32_at(0) {
            Ok(v) => v,
            Err(e) => { return Err(e) },
        };
        if tag != TTC_HEADER_TAG {
            return Err(ReadError::InvalidTtc(tag));
        }
        Ok(CollectionRef { data })
    }

    /// Returns the number of fonts in the collection.
    pub fn len(&self) -> (r: u32)
        ensures
            r == collection_len(self.spec_data()),
    {
        proof {
            use_type_invariant(self);
        }
        match self.data.read_u32_at(8) {
            Ok(v) => v,
            Err(_) => 0,
        }
    }

    /// Returns true if the collection is empty.
    pub fn is_empty(&self) -> (r: bool)
        ensures
            r == (collection_len(self.spec_data()) == 0),
    {
        self.len() == 0
    }

    /// Returns the font in the collection at the specified index: the
    /// directory at the stored offset, measured against the whole
    /// buffer.
    pub fn get(&self, index: u32) -> (r: Result<FontRef<'a>, ReadError>)
        ensures
            collection_get_post(self.spec_data(), index, r),
    {
        proof {
            use_type_invariant(self);
            self.data.lemma_len_bound();
        }
        let num_fonts = self.len();
        if index >= num_fonts {
            return Err(ReadError::InvalidCollectionIndex(index));
        }
        proof {
            assert(4 * (index as int) + 4 <= 4 * collection_len(self.data@));
        }
        let off = match self.data.read_u32_at(12 + 4 * (index as usize)) {
            Ok(v) => v,
            Err(_) => { return Err(ReadError::OutOfBounds) },
        };
        let table_dir_data = match self.data.slice_from(off as usize) {
            Some(d) => d,
            None => { return Err(ReadError::OutOfBounds) },
        };
        let dir = match TableDirectory::read(table_dir_data) {
            Ok(d) => d,
            Err(e) => { return Err(e) },
        };
        let version = dir.sfnt_version();
        if version == TT_SFNT_VERSION || version == CFF_SFNT_VERSION {
            Ok(FontRef { data: self.data, table_directory: dir })
        } else {
            Err(ReadError::InvalidSfnt(version))
        }
    }
}

/// Reference to the content of a font or font collection file.
pub enum FileRef<'a> {
    /// A single font.
    Font(FontRef<'a>),
    /// A collection of fonts.
    Collection(CollectionRef<'a>),
}

impl<'a> FileRef<'a> {
    /// Creates a new reference to a file representing a font or font
    /// collection: a buffer with a well-formed collection header is a
    /// collection, anything else is read as a single font.
    pub fn new(data: FontData<'a>) -> (r: Result<Self, ReadError>)
        ensures
            match r {
                Ok(FileRef::Collection(c)) => is_collection(data@) && c.spec_data() == data@,
                Ok(FileRef::Font(f)) => {
                    &&& !is_collection(data@)
                    &&& is_font(data@)
                    &&& f.spec_data() == data@
                    &&& f.table_directory.spec_data() == data@
                },
                Err(ReadError::OutOfBounds) => {
                    &&& !is_collection(data@)
                    &&& (data@.len() < 12 || data@.len() < directory_required_len(data@))
                },
                Err(ReadError::InvalidSfnt(v)) => {
                    &&& !is_collection(data@)
                    &&& data@.len() >= 12 && data@.len() >= directory_required_len(data@)
                    &&& v == be_u32_at(data@, 0)
                    &&& v != TT_SFNT_VERSION && v != CFF_SFNT_VERSION
                },
                Err(_) => false,
            },
    {
        match CollectionRef::new(data) {
            Ok(c) => Ok(FileRef::Collection(c)),
            Err(_) => match FontRef::new(data) {
                Ok(f) => Ok(FileRef::Font(f)),
                Err(e) => Err(e),
            },
        }
    }
}

impl<'a> FontRef<'a> {
    /// Creates a new reference to the font at `index` of an in-memory
    /// file that holds either a single font (then the index must be 0)
    /// or a collection.
    pub fn from_index(data: FontData<'a>, index: u32) -> (r: Result<Self, ReadError>)
        ensures
            if is_collection(data@) {
                collection_get_post(data@, index, r)
            } else {
                match r {
                    Ok(f) => {
                        &&& index == 0
                        &&& is_font(data@)
                        &&& f.spec_data() == data@
                        &&& f.table_directory.spec_data() == data@
                    },
                    Err(ReadError::InvalidCollectionIndex(ix)) => ix == index && index != 0
                        && is_font(data@),
                    Err(ReadError::OutOfBounds) => data@.len() < 12 || data@.len()
                        < directory_required_len(data@),
                    Err(ReadError::InvalidSfnt(v)) => {
                        &&& data@.len() >= 12 && data@.len() >= directory_required_len(data@)
                        &&& v == be_u32_at(data@, 0)
                        &&& v != TT_SFNT_VERSION && v != CFF_SFNT_VERSION
                    },
                    Err(_) => false,
                }
            },
    {
        let file = match FileRef::new(data) {
            Ok(f) => f,
            Err(e) => { return Err(e) },
        };
        match file {
            FileRef::Font(font) => {
                if index == 0 {
                    Ok(font)
                } else {
                    Err(ReadError::InvalidCollectionIndex(index))
                }
            },
            FileRef::Collection(collection) => collection.get(index),
        }
    }
}

} // verus!
