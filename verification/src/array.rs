//! Zero-copy views over runs of fixed-size elements, and the saturating
//! count transforms.
//!
//! A computed-length array is a view over `count` contiguous fixed-size
//! elements whose count is not stored adjacently but read from another
//! field of the host record, possibly through an arithmetic transform.
//! The view borrows the buffer and owns nothing; construction fails when
//! the computed byte range exceeds the buffer.

use vstd::prelude::*;

use crate::font_data::FontData;
use crate::font_data::be_u16_at;
use crate::font_data::be_u32_at;

verus! {

/// A count transform: saturating subtraction, so that "count minus one"
/// read from an untrusted stored 0 yields 0, never a wrapped value.
pub fn subtract(lhs: usize, rhs: usize) -> (r: usize)
    ensures
        r == if lhs >= rhs {
            lhs - rhs
        } else {
            0
        },
{
    lhs.saturating_sub(rhs)
}

/// A count transform: saturating addition.
pub fn saturating_add(lhs: usize, rhs: usize) -> (r: usize)
    ensures
        r == if lhs + rhs <= usize::MAX {
            lhs + rhs
        } else {
            usize::MAX as int
        },
{
    lhs.saturating_add(rhs)
}

/// A count transform: halving, for counts stored as byte lengths of
/// two-byte elements.
pub fn half(val: usize) -> (r: usize)
    ensures
        r == val / 2,
{
    val / 2
}

/// A borrowed view over `count` big-endian 16-bit elements.
#[derive(Clone, Copy)]
pub struct U16Array<'a> {
    data: FontData<'a>,
    start: usize,
    count: usize,
}

impl<'a> U16Array<'a> {
    /// The bytes the view reads from.
    pub closed spec fn spec_data(&self) -> Seq<u8> {
        self.data@
    }

    /// Byte position of the first element.
    pub closed spec fn spec_start(&self) -> int {
        self.start as int
    }

    /// Number of elements.
    pub closed spec fn spec_len(&self) -> int {
        self.count as int
    }

    #[verifier::type_invariant]
    closed spec fn inv(self) -> bool {
        self.start + 2 * self.count <= self.data@.len()
    }

    /// The element values, as the view denotes them.
    pub open spec fn spec_values(&self) -> Seq<int> {
        Seq::new(
            self.spec_len() as nat,
            |i: int| be_u16_at(self.spec_data(), self.spec_start() + 2 * i),
        )
    }

    /// A view of `count` elements at `start`; fails when that range
    /// leaves the buffer.
    pub fn new(data: FontData<'a>, start: usize, count: usize) -> (r: Option<Self>)
        ensures
            match r {
                Some(a) => {
                    &&& start + 2 * count <= data@.len()
                    &&& a.spec_data() == data@
                    &&& a.spec_start() == start
                    &&& a.spec_len() == count
                },
                None => start + 2 * count > data@.len(),
            },
    {
        if start <= data.len() && (data.len() - start) / 2 >= count {
            proof {
                assert(count * 2 <= data@.len() - start) by (nonlinear_arith)
                    requires
                        count <= (data@.len() - start) / 2,
                        0 <= start <= data@.len(),
                ;
            }
            Some(U16Array { data, start, count })
        } else {
            proof {
                data.lemma_len_bound();
                if start <= data@.len() {
                    assert(data@.len() - start < (2 * count)) by (nonlinear_arith)
                        requires
                            (data@.len() - start) / 2 < count,
                            0 <= start <= data@.len(),
                    ;
                }
            }
            None
        }
    }

    /// Number of elements.
    pub fn len(&self) -> (r: usize)
        ensures
            r == self.spec_len(),
    {
        self.count
    }

    /// The element at `i`, when in bounds.
    pub fn get(&self, i: usize) -> (r: Option<u16>)
        ensures
            match r {
                Some(v) => i < self.spec_len() && v == self.spec_values()[i as int],
                None => i >= self.spec_len(),
            },
    {
        proof {
            use_type_invariant(self);
            self.data.lemma_len_bound();
        }
        if i < self.count {
            match self.data.read_u16_at(self.start + 2 * i) {
                Ok(v) => Some(v),
                Err(_) => None,
            }
        } else {
            None
        }
    }
}

/// A borrowed view over `count` big-endian 32-bit elements.
#[derive(Clone, Copy)]
pub struct U32Array<'a> {
    data: FontData<'a>,
    start: usize,
    count: usize,
}

impl<'a> U32Array<'a> {
    /// The bytes the view reads from.
    pub closed spec fn spec_data(&self) -> Seq<u8> {
        self.data@
    }

    /// Byte position of the first element.
    pub closed spec fn spec_start(&self) -> int {
        self.start as int
    }

    /// Number of elements.
    pub closed spec fn spec_len(&self) -> int {
        self.count as int
    }

    #[verifier::type_invariant]
    closed spec fn inv(self) -> bool {
        self.start + 4 * self.count <= self.data@.len()
    }

    /// The element values, as the view denotes them.
    pub open spec fn spec_values(&self) -> Seq<int> {
        Seq::new(
            self.spec_len() as nat,
            |i: int| be_u32_at(self.spec_data(), self.spec_start() + 4 * i),
        )
    }

    /// A view of `count` elements at `start`; fails when that range
    /// leaves the buffer.
    pub fn new(data: FontData<'a>, start: usize, count: usize) -> (r: Option<Self>)
        ensures
            match r {
                Some(a) => {
                    &&& start + 4 * count <= data@.len()
                    &&& a.spec_data() == data@
                    &&& a.spec_start() == start
                    &&& a.spec_len() == count
                },
                None => start + 4 * count > data@.len(),
            },
    {
        if start <= data.len() && (data.len() - start) / 4 >= count {
            proof {
                assert(count * 4 <= data@.len() - start) by (nonlinear_arith)
                    requires
                        count <= (data@.len() - start) / 4,
                        0 <= start <= data@.len(),
                ;
            }
            Some(U32Array { data, start, count })
        } else {
            proof {
                data.lemma_len_bound();
                if start <= data@.len() {
                    assert(data@.len() - start < (4 * count)) by (nonlinear_arith)
                        requires
                            (data@.len() - start) / 4 < count,
                            0 <= start <= data@.len(),
                    ;
                }
            }
            None
        }
    }

    /// Number of elements.
    pub fn len(&self) -> (r: usize)
        ensures
            r == self.spec_len(),
    {
        self.count
    }

    /// The element at `i`, when in bounds.
    pub fn get(&self, i: usize) -> (r: Option<u32>)
        ensures
            match r {
                Some(v) => i < self.spec_len() && v == self.spec_values()[i as int],
                None => i >= self.spec_len(),
            },
    {
        proof {
            use_type_invariant(self);
            self.data.lemma_len_bound();
        }
        if i < self.count {
            match self.data.read_u32_at(self.start + 4 * i) {
                Ok(v) => Some(v),
                Err(_) => None,
            }
        } else {
            None
        }
    }
}

} // verus!
