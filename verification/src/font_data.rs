//! A borrowed, bounds-checked view of a byte buffer, with big-endian reads.

use vstd::prelude::*;

use crate::error::ReadError;

verus! {

/// Value of the big-endian 16-bit word stored at `pos`.
pub open spec fn be_u16_at(d: Seq<u8>, pos: int) -> int {
    d[pos] * 256 + d[pos + 1]
}

/// Value of the big-endian 24-bit word stored at `pos`.
pub open spec fn be_u24_at(d: Seq<u8>, pos: int) -> int {
    d[pos] * 0x10000 + d[pos + 1] * 256 + d[pos + 2]
}

/// Value of the big-endian 32-bit word stored at `pos`.
pub open spec fn be_u32_at(d: Seq<u8>, pos: int) -> int {
    d[pos] * 0x1000000 + d[pos + 1] * 0x10000 + d[pos + 2] * 256 + d[pos + 3]
}

/// The signed value a byte denotes in two's complement.
pub open spec fn sign8(b: int) -> int {
    if b < 0x80 {
        b
    } else {
        b - 0x100
    }
}

/// The signed value a 16-bit word denotes in two's complement.
pub open spec fn sign16(w: int) -> int {
    if w < 0x8000 {
        w
    } else {
        w - 0x10000
    }
}

/// Value of the big-endian signed 16-bit word stored at `pos`.
pub open spec fn be_i16_at(d: Seq<u8>, pos: int) -> int {
    sign16(be_u16_at(d, pos))
}

/// An immutable borrowed byte buffer: the lifetime boundary for every view
/// the read side derives from it.  The codec never copies it.
#[derive(Clone, Copy)]
pub struct FontData<'a> {
    data: &'a [u8],
}

impl<'a> View for FontData<'a> {
    type V = Seq<u8>;

    closed spec fn view(&self) -> Seq<u8> {
        self.data@
    }
}

impl<'a> FontData<'a> {
    /// A borrowed slice never holds more than `usize::MAX` bytes.
    pub proof fn lemma_len_bound(&self)
        ensures
            self@.len() <= usize::MAX,
    {
        broadcast use vstd::slice::group_slice_axioms;

        assert(self.data@.len() == vstd::slice::spec_slice_len(self.data));
    }

    /// Wrap a borrowed byte slice.
    pub fn new(data: &'a [u8]) -> (r: Self)
        ensures
            r@ == data@,
    {
        FontData { data }
    }

    /// Length of the underlying buffer in bytes.
    pub fn len(&self) -> (r: usize)
        ensures
            r == self@.len(),
    {
        self.data.len()
    }

    /// The underlying bytes.
    pub fn as_bytes(&self) -> (r: &'a [u8])
        ensures
            r@ == self@,
    {
        self.data
    }

    /// The sub-buffer `start..end`, if that range lies within bounds.
    pub fn slice(&self, start: usize, end: usize) -> (r: Option<FontData<'a>>)
        ensures
            match r {
                Some(d) => start <= end <= self@.len() && d@ == self@.subrange(
                    start as int,
                    end as int,
                ),
                None => !(start <= end <= self@.len()),
            },
    {
        if start <= end && end <= self.data.len() {
            Some(FontData { data: vstd::slice::slice_subrange(self.data, start, end) })
        } else {
            None
        }
    }

    /// The sub-buffer from `start` to the end, if `start` is within bounds.
    pub fn slice_from(&self, start: usize) -> (r: Option<FontData<'a>>)
        ensures
            match r {
                Some(d) => start <= self@.len() && d@ == self@.subrange(
                    start as int,
                    self@.len() as int,
                ),
                None => start > self@.len(),
            },
    {
        if start <= self.data.len() {
            Some(FontData { data: vstd::slice::slice_subrange(self.data, start, self.data.len()) })
        } else {
            None
        }
    }

    /// The byte at `pos`, or an out-of-bounds error.
    pub fn read_u8_at(&self, pos: usize) -> (r: Result<u8, ReadError>)
        ensures
            match r {
                Ok(v) => pos < self@.len() && v == self@[pos as int],
                Err(e) => pos >= self@.len() && e == ReadError::OutOfBounds,
            },
    {
        if pos < self.data.len() {
            Ok(self.data[pos])
        } else {
            Err(ReadError::OutOfBounds)
        }
    }

    /// The big-endian 16-bit word at `pos`, or an out-of-bounds error.
    pub fn read_u16_at(&self, pos: usize) -> (r: Result<u16, ReadError>)
        ensures
            match r {
                Ok(v) => pos + 2 <= self@.len() && v == be_u16_at(self@, pos as int),
                Err(e) => pos + 2 > self@.len() && e == ReadError::OutOfBounds,
            },
    {
        if pos < self.data.len() && self.data.len() - pos >= 2 {
            let b0 = self.data[pos];
            let b1 = self.data[pos + 1];
            Ok((b0 as u16) * 256 + (b1 as u16))
        } else {
            Err(ReadError::OutOfBounds)
        }
    }

    /// The big-endian 24-bit word at `pos`, or an out-of-bounds error.
    pub fn read_u24_at(&self, pos: usize) -> (r: Result<u32, ReadError>)
        ensures
            match r {
                Ok(v) => pos + 3 <= self@.len() && v == be_u24_at(self@, pos as int),
                Err(e) => pos + 3 > self@.len() && e == ReadError::OutOfBounds,
            },
    {
        if pos < self.data.len() && self.data.len() - pos >= 3 {
            let b0 = self.data[pos];
            let b1 = self.data[pos + 1];
            let b2 = self.data[pos + 2];
            Ok((b0 as u32) * 0x10000 + (b1 as u32) * 256 + (b2 as u32))
        } else {
            Err(ReadError::OutOfBounds)
        }
    }

    /// The big-endian 32-bit word at `pos`, or an out-of-bounds error.
    pub fn read_u32_at(&self, pos: usize) -> (r: Result<u32, ReadError>)
        ensures
            match r {
                Ok(v) => pos + 4 <= self@.len() && v == be_u32_at(self@, pos as int),
                Err(e) => pos + 4 > self@.len() && e == ReadError::OutOfBounds,
            },
    {
        if pos < self.data.len() && self.data.len() - pos >= 4 {
            let b0 = self.data[pos];
            let b1 = self.data[pos + 1];
            let b2 = self.data[pos + 2];
            let b3 = self.data[pos + 3];
            Ok((b0 as u32) * 0x1000000 + (b1 as u32) * 0x10000 + (b2 as u32) * 256 + (b3 as u32))
        } else {
            Err(ReadError::OutOfBounds)
        }
    }

    /// The big-endian signed 16-bit word at `pos`, or an out-of-bounds error.
    pub fn read_i16_at(&self, pos: usize) -> (r: Result<i16, ReadError>)
        ensures
            match r {
                Ok(v) => pos + 2 <= self@.len() && v == be_i16_at(self@, pos as int),
                Err(e) => pos + 2 > self@.len() && e == ReadError::OutOfBounds,
            },
    {
        match self.read_u16_at(pos) {
            Ok(w) => {
                if w < 0x8000 {
                    Ok(w as i16)
                } else {
                    Ok((w as i32 - 0x10000) as i16)
                }
            },
            Err(e) => Err(e),
        }
    }
}

/// A sequential, bounds-checked reader over a [`FontData`] buffer.
///
/// The position only moves on a successful read or an explicit skip; a read
/// that would run past the end of the buffer fails without moving it.
pub struct Cursor<'a> {
    data: FontData<'a>,
    pos: usize,
}

impl<'a> Cursor<'a> {
    /// The bytes the cursor walks over.
    pub closed spec fn spec_data(&self) -> Seq<u8> {
        self.data@
    }

    /// The current byte offset.  It may point past the end of the buffer
    /// after a skip; [`Cursor::position`] reports that as an error.
    pub closed spec fn spec_pos(&self) -> int {
        self.pos as int
    }

    /// Start reading `data` from its first byte.
    pub fn new(data: FontData<'a>) -> (r: Self)
        ensures
            r.spec_data() == data@,
            r.spec_pos() == 0,
    {
        Cursor { data, pos: 0 }
    }

    /// The current offset, or an error if skipping ran past the buffer.
    pub fn position(&self) -> (r: Result<usize, ReadError>)
        ensures
            match r {
                Ok(p) => p == self.spec_pos() && p <= self.spec_data().len(),
                Err(e) => self.spec_pos() > self.spec_data().len() && e == ReadError::OutOfBounds,
            },
    {
        if self.pos <= self.data.len() {
            Ok(self.pos)
        } else {
            Err(ReadError::OutOfBounds)
        }
    }

    /// Skip `n` bytes without interpreting them.  The position saturates
    /// rather than wrapping, so a later read or `position` call fails
    /// cleanly instead of aliasing an earlier offset.
    pub fn advance_by(&mut self, n: usize)
        ensures
            final(self).spec_data() == old(self).spec_data(),
            final(self).spec_pos() == if old(self).spec_pos() + n <= usize::MAX {
                old(self).spec_pos() + n
            } else {
                usize::MAX as int
            },
    {
        self.pos = self.pos.saturating_add(n);
    }

    /// Read one byte and advance past it; on failure the position is
    /// unchanged.
    pub fn read_u8(&mut self) -> (r: Result<u8, ReadError>)
        ensures
            final(self).spec_data() == old(self).spec_data(),
            match r {
                Ok(v) => {
                    &&& old(self).spec_pos() + 1 <= old(self).spec_data().len()
                    &&& v == old(self).spec_data()[old(self).spec_pos()]
                    &&& final(self).spec_pos() == old(self).spec_pos() + 1
                },
                Err(e) => {
                    &&& old(self).spec_pos() + 1 > old(self).spec_data().len()
                    &&& *final(self) == *old(self)
                    &&& e == ReadError::OutOfBounds
                },
            },
    {
        match self.data.read_u8_at(self.pos) {
            Ok(v) => {
                proof {
                    self.data.lemma_len_bound();
                }
                self.pos = self.pos + 1;
                Ok(v)
            },
            Err(e) => Err(e),
        }
    }

    /// Read a big-endian 16-bit word and advance past it; on failure the
    /// position is unchanged.
    pub fn read_u16(&mut self) -> (r: Result<u16, ReadError>)
        ensures
            final(self).spec_data() == old(self).spec_data(),
            match r {
                Ok(v) => {
                    &&& old(self).spec_pos() + 2 <= old(self).spec_data().len()
                    &&& v == be_u16_at(old(self).spec_data(), old(self).spec_pos())
                    &&& final(self).spec_pos() == old(self).spec_pos() + 2
                },
                Err(e) => {
                    &&& old(self).spec_pos() + 2 > old(self).spec_data().len()
                    &&& *final(self) == *old(self)
                    &&& e == ReadError::OutOfBounds
                },
            },
    {
        match self.data.read_u16_at(self.pos) {
            Ok(v) => {
                proof {
                    self.data.lemma_len_bound();
                }
                self.pos = self.pos + 2;
                Ok(v)
            },
            Err(e) => Err(e),
        }
    }

    /// Read a big-endian 32-bit word and advance past it; on failure the
    /// position is unchanged.
    pub fn read_u32(&mut self) -> (r: Result<u32, ReadError>)
        ensures
            final(self).spec_data() == old(self).spec_data(),
            match r {
                Ok(v) => {
                    &&& old(self).spec_pos() + 4 <= old(self).spec_data().len()
                    &&& v == be_u32_at(old(self).spec_data(), old(self).spec_pos())
                    &&& final(self).spec_pos() == old(self).spec_pos() + 4
                },
                Err(e) => {
                    &&& old(self).spec_pos() + 4 > old(self).spec_data().len()
                    &&& *final(self) == *old(self)
                    &&& e == ReadError::OutOfBounds
                },
            },
    {
        match self.data.read_u32_at(self.pos) {
            Ok(v) => {
                proof {
                    self.data.lemma_len_bound();
                }
                self.pos = self.pos + 4;
                Ok(v)
            },
            Err(e) => Err(e),
        }
    }

    /// Read a big-endian signed 16-bit word and advance past it; on failure
    /// the position is unchanged.
    pub fn read_i16(&mut self) -> (r: Result<i16, ReadError>)
        ensures
            final(self).spec_data() == old(self).spec_data(),
            match r {
                Ok(v) => {
                    &&& old(self).spec_pos() + 2 <= old(self).spec_data().len()
                    &&& v == be_i16_at(old(self).spec_data(), old(self).spec_pos())
                    &&& final(self).spec_pos() == old(self).spec_pos() + 2
                },
                Err(e) => {
                    &&& old(self).spec_pos() + 2 > old(self).spec_data().len()
                    &&& *final(self) == *old(self)
                    &&& e == ReadError::OutOfBounds
                },
            },
    {
        match self.data.read_i16_at(self.pos) {
            Ok(v) => {
                proof {
                    self.data.lemma_len_bound();
                }
                self.pos = self.pos + 2;
                Ok(v)
            },
            Err(e) => Err(e),
        }
    }
}

} // verus!
