//! Typed relative offsets and their resolution against a host table.
//!
//! An offset value is a small unsigned integer stored in a record,
//! interpreted as a byte distance from the start of the *host table* (not
//! the whole buffer).  The zero value is reserved to mean "absent", so a
//! present offset is always non-zero, and resolution distinguishes
//! "absent" (zero) from "present but out of bounds".

use vstd::prelude::*;

use crate::error::ReadError;

verus! {

/// A non-zero 16-bit offset to a table.
///
/// Offsets are generally carried as `Option<Offset16>`, with the null
/// (zero) offset represented as the `None` case.
#[derive(Clone, Copy, Debug, PartialEq, Eq, Structural)]
pub struct Offset16 {
    raw: u16,
}

/// A non-zero 24-bit offset to a table, carried in a 32-bit value.
#[derive(Clone, Copy, Debug, PartialEq, Eq, Structural)]
pub struct Offset24 {
    raw: u32,
}

/// A non-zero 32-bit offset to a table.
#[derive(Clone, Copy, Debug, PartialEq, Eq, Structural)]
pub struct Offset32 {
    raw: u32,
}

impl Offset16 {
    #[verifier::type_invariant]
    closed spec fn inv(self) -> bool {
        self.raw != 0
    }

    /// The stored byte distance; never zero.
    pub closed spec fn spec_raw(&self) -> int {
        self.raw as int
    }

    /// Create a new offset; the zero value denotes absence, so it yields
    /// `None`.
    pub fn new(raw: u16) -> (r: Option<Self>)
        ensures
            match r {
                Some(o) => raw != 0 && o.spec_raw() == raw,
                None => raw == 0,
            },
    {
        if raw != 0 {
            Some(Offset16 { raw })
        } else {
            None
        }
    }

    /// The raw integer value of this offset.
    pub fn to_raw(self) -> (r: u16)
        ensures
            r == self.spec_raw(),
            r != 0,
    {
        proof {
            use_type_invariant(self);
        }
        self.raw
    }
}

impl Offset24 {
    #[verifier::type_invariant]
    closed spec fn inv(self) -> bool {
        self.raw != 0 && self.raw < 0x1000000
    }

    /// The stored byte distance; never zero, and below `2^24`.
    pub closed spec fn spec_raw(&self) -> int {
        self.raw as int
    }

    /// Create a new offset; the zero value denotes absence, so it yields
    /// `None`.  Values of 24 bits and more do not fit this width.
    pub fn new(raw: u32) -> (r: Option<Self>)
        requires
            raw < 0x1000000,
        ensures
            match r {
                Some(o) => raw != 0 && o.spec_raw() == raw,
                None => raw == 0,
            },
    {
        if raw != 0 {
            Some(Offset24 { raw })
        } else {
            None
        }
    }

    /// The raw integer value of this offset.
    pub fn to_raw(self) -> (r: u32)
        ensures
            r == self.spec_raw(),
            r != 0,
    {
        proof {
            use_type_invariant(self);
        }
        self.raw
    }
}

impl Offset32 {
    #[verifier::type_invariant]
    closed spec fn inv(self) -> bool {
        self.raw != 0
    }

    /// The stored byte distance; never zero.
    pub closed spec fn spec_raw(&self) -> int {
        self.raw as int
    }

    /// Create a new offset; the zero value denotes absence, so it yields
    /// `None`.
    pub fn new(raw: u32) -> (r: Option<Self>)
        ensures
            match r {
                Some(o) => raw != 0 && o.spec_raw() == raw,
                None => raw == 0,
            },
    {
        if raw != 0 {
            Some(Offset32 { raw })
        } else {
            None
        }
    }

    /// The raw integer value of this offset.
    pub fn to_raw(self) -> (r: u32)
        ensures
            r == self.spec_raw(),
            r != 0,
    {
        proof {
            use_type_invariant(self);
        }
        self.raw
    }
}

/// Resolve a raw nullable offset against its host table's base position.
///
/// A zero offset means "absent" and is never an error.  A non-zero offset
/// is the target's byte distance from `base`; the target's `target_len`
/// bytes must lie fully within a buffer of `data_len` bytes, else
/// resolution fails with an out-of-bounds error.
pub fn resolve_nullable(base: usize, raw: u32, target_len: usize, data_len: usize) -> (r: Result<
    Option<usize>,
    ReadError,
>)
    ensures
        match r {
            Ok(Some(p)) => raw != 0 && p == base + raw && p + target_len <= data_len,
            Ok(None) => raw == 0,
            Err(e) => raw != 0 && base + raw + target_len > data_len && e
                == ReadError::OutOfBounds,
        },
{
    if raw == 0 {
        return Ok(None);
    }
    let off: usize = raw as usize;
    if base > usize::MAX - off {
        return Err(ReadError::OutOfBounds);
    }
    let pos: usize = base + off;
    if pos <= data_len && data_len - pos >= target_len {
        Ok(Some(pos))
    } else {
        Err(ReadError::OutOfBounds)
    }
}

/// Resolve a raw offset that is required to be present: a zero offset is
/// reported as a null-offset error, and a non-zero offset resolves exactly
/// as [`resolve_nullable`] does.
pub fn resolve_required(base: usize, raw: u32, target_len: usize, data_len: usize) -> (r: Result<
    usize,
    ReadError,
>)
    ensures
        match r {
            Ok(p) => raw != 0 && p == base + raw && p + target_len <= data_len,
            Err(ReadError::NullOffset) => raw == 0,
            Err(ReadError::OutOfBounds) => raw != 0 && base + raw + target_len > data_len,
            Err(_) => false,
        },
{
    match resolve_nullable(base, raw, target_len, data_len) {
        Ok(Some(p)) => Ok(p),
        Ok(None) => Err(ReadError::NullOffset),
        Err(e) => Err(e),
    }
}

} // verus!
