//! Packed delta and point-number arrays: the owned write-side records.
//!
//! These are the two variable-width encodings of the variation data
//! family: signed deltas packed into zero/byte/word runs, and
//! point-index arrays packed into byte/word delta runs.

use vstd::prelude::*;

use crate::delta_codec::PackedDeltaRun;
use crate::delta_codec::encode_packed_deltas;
use crate::delta_codec::spec_delta_runs;
use crate::delta_codec::spec_encode_deltas;
use crate::delta_codec::split_delta_runs;
use crate::point_codec::PackedPointRun;
use crate::point_codec::encode_packed_points;
use crate::point_codec::monotone_from;
use crate::point_codec::spec_encode_points;
use crate::point_codec::spec_point_runs;
use crate::point_codec::split_point_runs;
use crate::writer::FontWrite;
use crate::writer::TableWriter;
use crate::writer::ValidationCtx;
use crate::writer::ValidationError;
use crate::writer::WireModel;
use crate::writer::append_wire;

verus! {

/// An owned sequence of signed 16-bit deltas, serialized as packed runs.
pub struct PackedDeltas {
    deltas: Vec<i16>,
}

impl PackedDeltas {
    /// The delta values this record holds.
    pub closed spec fn spec_deltas(&self) -> Seq<i16> {
        self.deltas@
    }

    /// Construct a `PackedDeltas` from a vector of raw delta values.
    pub fn new(deltas: Vec<i16>) -> (r: Self)
        ensures
            r.spec_deltas() == deltas@,
    {
        PackedDeltas { deltas }
    }

    /// The delta values.
    pub fn deltas(&self) -> (r: &Vec<i16>)
        ensures
            r@ == self.spec_deltas(),
    {
        &self.deltas
    }

    /// The greedy runs this record serializes as.
    pub fn iter_runs(&self) -> (runs: Vec<PackedDeltaRun>)
        ensures
            runs.deep_view() == spec_delta_runs(self.spec_deltas()),
    {
        split_delta_runs(&self.deltas)
    }
}

impl FontWrite for PackedDeltas {
    /// Any delta sequence can be packed.
    open spec fn writable(&self) -> bool {
        true
    }

    /// Nothing to report: every delta sequence is packable.
    open spec fn validation_errors(&self) -> Seq<ValidationError> {
        Seq::empty()
    }

    open spec fn wire(&self) -> WireModel {
        WireModel { bytes: spec_encode_deltas(self.spec_deltas()), subs: Seq::empty() }
    }

    fn validate_impl(&self, ctx: &mut ValidationCtx) {
        proof {
            assert(final(ctx).spec_errors() =~= old(ctx).spec_errors()
                + Seq::<ValidationError>::empty());
        }
    }

    fn write_into(&self, w: &mut TableWriter) {
        let bytes = encode_packed_deltas(&self.deltas);
        w.write_bytes(&bytes);
        proof {
            assert(final(w)@.subs =~~= append_wire(old(w)@, self.wire()).subs);
        }
    }
}

/// Is the point array non-decreasing?  Packed deltas are unsigned, so
/// only such arrays are encodable.
#[verifier::loop_isolation(false)]
fn is_monotone(numbers: &Vec<u16>) -> (r: bool)
    ensures
        r == monotone_from(numbers@, 0),
{
    let mut i: usize = 1;
    while i < numbers.len()
        invariant
            1 <= i,
            numbers@.len() > 0 ==> i <= numbers@.len(),
            forall|k: int| 0 <= k < i - 1 ==> #[trigger] numbers@[k] <= numbers@[k + 1],
        decreases numbers@.len() - i,
    {
        if numbers[i - 1] > numbers[i] {
            proof {
                if monotone_from(numbers@, 0) {
                    assert(numbers@[i - 1] <= numbers@[i as int]);
                }
            }
            return false;
        }
        i = i + 1;
    }
    true
}

/// An owned point-index array, serialized as a count prefix followed by
/// packed delta runs.
///
/// The `is_all` flag marks "one value per point of the owning record", a
/// zero count byte on the wire, as distinct from an explicit (possibly
/// shorter) point list.
pub struct PackedPointNumbers {
    is_all: bool,
    numbers: Vec<u16>,
}

impl PackedPointNumbers {
    /// The point values this record holds.
    pub closed spec fn spec_numbers(&self) -> Seq<u16> {
        self.numbers@
    }

    /// Does a value apply to every point of the owning record?
    pub closed spec fn spec_is_all(&self) -> bool {
        self.is_all
    }

    /// Create new packed numbers from raw numbers.
    ///
    /// The `is_all` flag should be true if there is a number value for
    /// each point in the owning record.
    pub fn new(numbers: Vec<u16>, is_all: bool) -> (r: Self)
        ensures
            r.spec_numbers() == numbers@,
            r.spec_is_all() == is_all,
    {
        PackedPointNumbers { is_all, numbers }
    }

    /// The point values.
    pub fn numbers(&self) -> (r: &Vec<u16>)
        ensures
            r@ == self.spec_numbers(),
    {
        &self.numbers
    }

    /// The greedy runs this record serializes as.  Point numbers must be
    /// non-decreasing: deltas are unsigned.
    pub fn iter_runs(&self) -> (runs: Vec<PackedPointRun>)
        requires
            monotone_from(self.spec_numbers(), 0),
        ensures
            runs.deep_view() == spec_point_runs(self.spec_numbers(), 0),
    {
        split_point_runs(&self.numbers)
    }
}

impl FontWrite for PackedPointNumbers {
    /// The count must fit its 15-bit field, and the points must be
    /// non-decreasing so that every delta is representable.
    open spec fn writable(&self) -> bool {
        &&& self.spec_numbers().len() <= 0x7FFF
        &&& monotone_from(self.spec_numbers(), 0)
    }

    /// One failure per violated condition, under the record's own
    /// table and field locator, in checking order.
    open spec fn validation_errors(&self) -> Seq<ValidationError> {
        (if self.spec_numbers().len() > 0x7FFF {
            seq![
                ValidationError {
                    table: "PackedPointNumbers",
                    field: "numbers",
                    message: "length cannot be stored in 15 bits",
                },
            ]
        } else {
            Seq::empty()
        }) + (if !monotone_from(self.spec_numbers(), 0) {
            seq![
                ValidationError {
                    table: "PackedPointNumbers",
                    field: "numbers",
                    message: "point numbers are not sorted",
                },
            ]
        } else {
            Seq::empty()
        })
    }

    open spec fn wire(&self) -> WireModel {
        WireModel {
            bytes: spec_encode_points(self.spec_is_all(), self.spec_numbers()),
            subs: Seq::empty(),
        }
    }

    fn validate_impl(&self, ctx: &mut ValidationCtx) {
        if self.numbers.len() > 0x7FFF {
            ctx.report("PackedPointNumbers", "numbers", "length cannot be stored in 15 bits");
        }
        if !is_monotone(&self.numbers) {
            ctx.report("PackedPointNumbers", "numbers", "point numbers are not sorted");
        }
        proof {
            assert(final(ctx).spec_errors() =~= old(ctx).spec_errors()
                + self.validation_errors());
        }
    }

    fn write_into(&self, w: &mut TableWriter) {
        let bytes = encode_packed_points(&self.numbers, self.is_all);
        w.write_bytes(&bytes);
        proof {
            assert(final(w)@.subs =~~= append_wire(old(w)@, self.wire()).subs);
        }
    }
}

/// One axis-coordinate triple of a variation region, as 2.14
/// fixed-point bit patterns.
#[derive(Clone, Copy, Debug, PartialEq, Eq, Structural)]
pub struct RegionAxisCoordinates {
    /// Where the region begins along the axis.
    pub start_coord: i16,
    /// Where the region has full effect.
    pub peak_coord: i16,
    /// Where the region ends.
    pub end_coord: i16,
}

/// One region of the variation space: a coordinate triple per axis.
#[derive(Clone, Debug, PartialEq, Eq)]
pub struct VariationRegion {
    /// The per-axis coordinates of this region.
    pub region_axes: Vec<RegionAxisCoordinates>,
}

/// The region list of an item variation store.
#[derive(Clone, Debug, PartialEq, Eq)]
pub struct VariationRegionList {
    /// The regions, each expected to cover every axis.
    pub variation_regions: Vec<VariationRegion>,
}

impl VariationRegionList {
    /// The axis count the region list implies: the first region's axis
    /// count, zero when there are no regions.  Every region is expected
    /// to agree with the first.
    pub fn compute_axis_count(&self) -> (r: usize)
        ensures
            r == if self.variation_regions@.len() > 0 {
                self.variation_regions@[0].region_axes@.len()
            } else {
                0
            },
    {
        if self.variation_regions.len() > 0 {
            self.variation_regions[0].region_axes.len()
        } else {
            0
        }
    }
}

} // verus!
