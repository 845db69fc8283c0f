//! The font-variations record family: a versioned header that references
//! a combined axis/instance array sub-table by a 16-bit offset.
//!
//! This is the write side's worked example of the offset-graph writer: the
//! header emits a deferred marker for the sub-table, which is emitted
//! after it and patched once its position is known.  A matching read-side
//! path parses the serialized buffer back.

use vstd::prelude::*;

use crate::writer::FontWrite;
use crate::writer::SubImage;
use crate::writer::TableWriter;
use crate::writer::ValidationCtx;
use crate::writer::ValidationError;
use crate::writer::WireModel;
use crate::writer::append_wire;

verus! {

/// A four-byte identifier, written verbatim.
#[derive(Clone, Copy, Debug, PartialEq, Eq, Structural)]
pub struct Tag {
    pub b0: u8,
    pub b1: u8,
    pub b2: u8,
    pub b3: u8,
}

impl Tag {
    /// Create a new tag from its four bytes.
    pub fn new(b0: u8, b1: u8, b2: u8, b3: u8) -> (r: Self)
        ensures
            r == (Tag { b0, b1, b2, b3 }),
    {
        Tag { b0, b1, b2, b3 }
    }
}

/// A 16.16 signed fixed-point value, carried as its raw bit pattern.
#[derive(Clone, Copy, Debug, PartialEq, Eq, Structural)]
pub struct Fixed {
    pub bits: i32,
}

impl Fixed {
    /// Create a fixed-point value from its raw bits.
    pub fn from_bits(bits: i32) -> (r: Self)
        ensures
            r.bits == bits,
    {
        Fixed { bits }
    }

    /// Create a fixed-point value from an integer.
    pub fn from_i32(v: i32) -> (r: Self)
        requires
            -0x8000 <= v < 0x8000,
        ensures
            r.bits == v * 0x10000,
    {
        Fixed { bits: v * 0x10000 }
    }

    /// The raw bit pattern.
    pub fn to_bits(self) -> (r: i32)
        ensures
            r == self.bits,
    {
        self.bits
    }
}

/// A major and minor version pair, each a 16-bit word on the wire.
#[derive(Clone, Copy, Debug, PartialEq, Eq, Structural)]
pub struct MajorMinor {
    pub major: u16,
    pub minor: u16,
}

impl MajorMinor {
    /// Create a version from its parts.
    pub fn new(major: u16, minor: u16) -> (r: Self)
        ensures
            r == (MajorMinor { major, minor }),
    {
        MajorMinor { major, minor }
    }
}

/// The big-endian bytes of a 16-bit word.
pub open spec fn be16(v: int) -> Seq<u8> {
    seq![((v / 256) % 256) as u8, (v % 256) as u8]
}

/// The big-endian bytes of the 32-bit two's-complement pattern of a
/// signed value.
pub open spec fn be32_signed(v: int) -> Seq<u8> {
    let w = if v >= 0 {
        v
    } else {
        v + 0x100000000
    };
    seq![
        ((w / 0x1000000) % 256) as u8,
        ((w / 0x10000) % 256) as u8,
        ((w / 256) % 256) as u8,
        (w % 256) as u8,
    ]
}

/// One variation axis: tag, value range, flags, and the name-table entry
/// that labels it.
#[derive(Clone, Copy, Debug, PartialEq, Eq, Structural)]
pub struct VariationAxisRecord {
    /// Tag identifying the design variation for the axis.
    pub axis_tag: Tag,
    /// The minimum coordinate value for the axis.
    pub min_value: Fixed,
    /// The default coordinate value for the axis.
    pub default_value: Fixed,
    /// The maximum coordinate value for the axis.
    pub max_value: Fixed,
    /// Axis qualifier flags.
    pub flags: u16,
    /// The name identifier for entries that provide a display name for
    /// this axis.
    pub axis_name_id: u16,
}

impl VariationAxisRecord {
    /// Construct a new `VariationAxisRecord`.
    pub fn new(
        axis_tag: Tag,
        min_value: Fixed,
        default_value: Fixed,
        max_value: Fixed,
        flags: u16,
        axis_name_id: u16,
    ) -> (r: Self)
        ensures
            r == (VariationAxisRecord {
                axis_tag,
                min_value,
                default_value,
                max_value,
                flags,
                axis_name_id,
            }),
    {
        VariationAxisRecord { axis_tag, min_value, default_value, max_value, flags, axis_name_id }
    }
}

/// The 20 bytes of one axis record.
pub open spec fn axis_bytes(a: VariationAxisRecord) -> Seq<u8> {
    seq![a.axis_tag.b0, a.axis_tag.b1, a.axis_tag.b2, a.axis_tag.b3] + be32_signed(
        a.min_value.bits as int,
    ) + be32_signed(a.default_value.bits as int) + be32_signed(a.max_value.bits as int) + be16(
        a.flags as int,
    ) + be16(a.axis_name_id as int)
}

/// The bytes of an axis record array, in order.
pub open spec fn axes_bytes(axes: Seq<VariationAxisRecord>) -> Seq<u8>
    decreases axes.len(),
{
    if axes.len() == 0 {
        Seq::empty()
    } else {
        axis_bytes(axes[0]) + axes_bytes(axes.skip(1))
    }
}

/// One named instance: a location in variation space with the name-table
/// entries that label it.
#[derive(Clone, Debug, PartialEq, Eq)]
pub struct InstanceRecord {
    /// The name identifier for the subfamily name of the instance.
    pub subfamily_name_id: u16,
    /// Reserved flag bits.
    pub flags: u16,
    /// The coordinate array, one value per axis.
    pub coordinates: Vec<Fixed>,
    /// Optional name identifier for the PostScript name of the instance.
    pub post_script_name_id: Option<u16>,
}

impl InstanceRecord {
    /// Construct a new `InstanceRecord`.
    pub fn new(
        subfamily_name_id: u16,
        flags: u16,
        coordinates: Vec<Fixed>,
        post_script_name_id: Option<u16>,
    ) -> (r: Self)
        ensures
            r.subfamily_name_id == subfamily_name_id,
            r.flags == flags,
            r.coordinates@ == coordinates@,
            r.post_script_name_id == post_script_name_id,
    {
        InstanceRecord { subfamily_name_id, flags, coordinates, post_script_name_id }
    }
}

/// The bytes of one coordinate array.
pub open spec fn coords_bytes(cs: Seq<Fixed>) -> Seq<u8>
    decreases cs.len(),
{
    if cs.len() == 0 {
        Seq::empty()
    } else {
        be32_signed(cs[0].bits as int) + coords_bytes(cs.skip(1))
    }
}

/// The bytes of one instance record; the PostScript name field is
/// present exactly when `with_ps` says so.
pub open spec fn instance_bytes(r: InstanceRecord, with_ps: bool) -> Seq<u8> {
    be16(r.subfamily_name_id as int) + be16(r.flags as int) + coords_bytes(r.coordinates@) + (
    if with_ps {
        be16(
            match r.post_script_name_id {
                Some(id) => id as int,
                None => 0xFFFF,
            },
        )
    } else {
        Seq::empty()
    })
}

/// The bytes of an instance record array, in order.
pub open spec fn instances_bytes(rs: Seq<InstanceRecord>, with_ps: bool) -> Seq<u8>
    decreases rs.len(),
{
    if rs.len() == 0 {
        Seq::empty()
    } else {
        instance_bytes(rs[0], with_ps) + instances_bytes(rs.skip(1), with_ps)
    }
}

/// The combined axis and instance arrays: the sub-table the header
/// references by offset.
#[derive(Clone, Debug, PartialEq, Eq)]
pub struct AxisInstanceArrays {
    /// Variation axis record array.
    pub axes: Vec<VariationAxisRecord>,
    /// Instance record array.
    pub instances: Vec<InstanceRecord>,
}

impl AxisInstanceArrays {
    /// Construct a new `AxisInstanceArrays`.
    pub fn new(axes: Vec<VariationAxisRecord>, instances: Vec<InstanceRecord>) -> (r: Self)
        ensures
            r.axes@ == axes@,
            r.instances@ == instances@,
    {
        AxisInstanceArrays { axes, instances }
    }

    /// Do any of the instances carry a PostScript name identifier?  When
    /// one does, the field is written for all of them.
    pub open spec fn spec_with_ps(&self) -> bool {
        exists|i: int|
            0 <= i < self.instances@.len() && (#[trigger] self.instances@[i].post_script_name_id)
                is Some
    }

    /// Every instance has one coordinate per axis, the arrays fit their
    /// 16-bit count fields, and the PostScript name field is all or
    /// nothing.
    pub open spec fn spec_writable(&self) -> bool {
        &&& self.axes@.len() <= 0xFFFF
        &&& self.instances@.len() <= 0xFFFF
        &&& forall|i: int|
            0 <= i < self.instances@.len() ==> (#[trigger] self.instances@[i]).coordinates@.len()
                == self.axes@.len()
        &&& (self.spec_with_ps() ==> forall|i: int|
            0 <= i < self.instances@.len() ==> (#[trigger] self.instances@[i].post_script_name_id)
                is Some)
    }
}

/// The bytes of the axis/instance sub-table: the axis records followed
/// by the instance records.
pub open spec fn aia_bytes(a: &AxisInstanceArrays) -> Seq<u8> {
    axes_bytes(a.axes@) + instances_bytes(a.instances@, a.spec_with_ps())
}

/// Appending one axis record appends its bytes.
proof fn lemma_axes_bytes_push(axes: Seq<VariationAxisRecord>, a: VariationAxisRecord)
    ensures
        axes_bytes(axes.push(a)) == axes_bytes(axes) + axis_bytes(a),
    decreases axes.len(),
{
    if axes.len() == 0 {
        assert(axes.push(a)[0] == a);
        assert(axes.push(a).skip(1) =~= Seq::<VariationAxisRecord>::empty());
        assert(axes_bytes(Seq::<VariationAxisRecord>::empty()) == Seq::<u8>::empty());
        assert(axes_bytes(axes.push(a)) =~= axes_bytes(axes) + axis_bytes(a));
    } else {
        assert(axes.push(a)[0] == axes[0]);
        assert(axes.push(a).skip(1) =~= axes.skip(1).push(a));
        lemma_axes_bytes_push(axes.skip(1), a);
        assert(axes_bytes(axes.push(a)) =~= axes_bytes(axes) + axis_bytes(a));
    }
}

/// Appending one coordinate appends its bytes.
proof fn lemma_coords_bytes_push(cs: Seq<Fixed>, c: Fixed)
    ensures
        coords_bytes(cs.push(c)) == coords_bytes(cs) + be32_signed(c.bits as int),
    decreases cs.len(),
{
    if cs.len() == 0 {
        assert(cs.push(c)[0] == c);
        assert(cs.push(c).skip(1) =~= Seq::<Fixed>::empty());
        assert(coords_bytes(Seq::<Fixed>::empty()) == Seq::<u8>::empty());
        assert(coords_bytes(cs.push(c)) =~= coords_bytes(cs) + be32_signed(c.bits as int));
    } else {
        assert(cs.push(c)[0] == cs[0]);
        assert(cs.push(c).skip(1) =~= cs.skip(1).push(c));
        lemma_coords_bytes_push(cs.skip(1), c);
        assert(coords_bytes(cs.push(c)) =~= coords_bytes(cs) + be32_signed(c.bits as int));
    }
}

/// Appending one instance record appends its bytes.
proof fn lemma_instances_bytes_push(rs: Seq<InstanceRecord>, r: InstanceRecord, with_ps: bool)
    ensures
        instances_bytes(rs.push(r), with_ps) == instances_bytes(rs, with_ps) + instance_bytes(
            r,
            with_ps,
        ),
    decreases rs.len(),
{
    if rs.len() == 0 {
        assert(rs.push(r)[0] == r);
        assert(rs.push(r).skip(1) =~= Seq::<InstanceRecord>::empty());
        assert(instances_bytes(Seq::<InstanceRecord>::empty(), with_ps) == Seq::<u8>::empty());
        assert(instances_bytes(rs.push(r), with_ps) =~= instances_bytes(rs, with_ps)
            + instance_bytes(r, with_ps));
    } else {
        assert(rs.push(r)[0] == rs[0]);
        assert(rs.push(r).skip(1) =~= rs.skip(1).push(r));
        lemma_instances_bytes_push(rs.skip(1), r, with_ps);
        assert(instances_bytes(rs.push(r), with_ps) =~= instances_bytes(rs, with_ps)
            + instance_bytes(r, with_ps));
    }
}

/// Write one axis record into the host image.
fn write_axis(w: &mut TableWriter, a: &VariationAxisRecord)
    requires
        old(w).wf(),
    ensures
        final(w).wf(),
        final(w)@.bytes == old(w)@.bytes + axis_bytes(*a),
        final(w)@.subs == old(w)@.subs,
{
    w.write_u8(a.axis_tag.b0);
    w.write_u8(a.axis_tag.b1);
    w.write_u8(a.axis_tag.b2);
    w.write_u8(a.axis_tag.b3);
    w.write_i32(a.min_value.bits);
    w.write_i32(a.default_value.bits);
    w.write_i32(a.max_value.bits);
    w.write_u16(a.flags);
    w.write_u16(a.axis_name_id);
    proof {
        assert(final(w)@.bytes =~= old(w)@.bytes + axis_bytes(*a));
    }
}

/// Write one instance record into the host image.
#[verifier::loop_isolation(false)]
fn write_instance(w: &mut TableWriter, r: &InstanceRecord, with_ps: bool)
    requires
        old(w).wf(),
    ensures
        final(w).wf(),
        final(w)@.bytes == old(w)@.bytes + instance_bytes(*r, with_ps),
        final(w)@.subs == old(w)@.subs,
{
    w.write_u16(r.subfamily_name_id);
    w.write_u16(r.flags);
    let ghost mid = w@.bytes;
    let mut k: usize = 0;
    while k < r.coordinates.len()
        invariant
            k <= r.coordinates@.len(),
            w.wf(),
            w@.bytes == mid + coords_bytes(r.coordinates@.take(k as int)),
            w@.subs == old(w)@.subs,
        decreases r.coordinates@.len() - k,
    {
        let c = r.coordinates[k];
        w.write_i32(c.bits);
        proof {
            assert(r.coordinates@.take(k + 1) =~= r.coordinates@.take(k as int).push(
                r.coordinates@[k as int],
            ));
            lemma_coords_bytes_push(r.coordinates@.take(k as int), r.coordinates@[k as int]);
            assert(w@.bytes =~= mid + coords_bytes(r.coordinates@.take(k + 1)));
        }
        k = k + 1;
    }
    proof {
        assert(r.coordinates@.take(r.coordinates@.len() as int) =~= r.coordinates@);
    }
    if with_ps {
        match r.post_script_name_id {
            Some(id) => w.write_u16(id),
            None => w.write_u16(0xFFFF),
        }
    }
    proof {
        assert(final(w)@.bytes =~= old(w)@.bytes + instance_bytes(*r, with_ps));
    }
}

impl FontWrite for AxisInstanceArrays {
    open spec fn writable(&self) -> bool {
        self.spec_writable()
    }

    /// One failure per violated condition, in checking order: oversized
    /// axes array, oversized instances array, mismatched coordinate
    /// counts, mixed PostScript name identifiers.
    open spec fn validation_errors(&self) -> Seq<ValidationError> {
        (if self.axes@.len() > 0xFFFF {
            seq![
                ValidationError {
                    table: "AxisInstanceArrays",
                    field: "axes",
                    message: "array exceeds max length",
                },
            ]
        } else {
            Seq::empty()
        }) + (if self.instances@.len() > 0xFFFF {
            seq![
                ValidationError {
                    table: "AxisInstanceArrays",
                    field: "instances",
                    message: "array exceeds max length",
                },
            ]
        } else {
            Seq::empty()
        }) + (if !(forall|i: int|
            0 <= i < self.instances@.len() ==> (#[trigger] self.instances@[i]).coordinates@.len()
                == self.axes@.len()) {
            seq![
                ValidationError {
                    table: "AxisInstanceArrays",
                    field: "instances",
                    message: "instance coordinate count does not match axis count",
                },
            ]
        } else {
            Seq::empty()
        }) + (if self.spec_with_ps() && !(forall|i: int|
            0 <= i < self.instances@.len() ==> (#[trigger] self.instances@[i].post_script_name_id)
                is Some) {
            seq![
                ValidationError {
                    table: "AxisInstanceArrays",
                    field: "instances",
                    message: "PostScript name identifiers must be present on all instances or none",
                },
            ]
        } else {
            Seq::empty()
        })
    }

    open spec fn wire(&self) -> WireModel {
        WireModel { bytes: aia_bytes(self), subs: Seq::empty() }
    }

    #[verifier::loop_isolation(false)]
    #[verifier::rlimit(60)]
    fn validate_impl(&self, ctx: &mut ValidationCtx) {
        if self.axes.len() > 0xFFFF {
            ctx.report("AxisInstanceArrays", "axes", "array exceeds max length");
        }
        if self.instances.len() > 0xFFFF {
            ctx.report("AxisInstanceArrays", "instances", "array exceeds max length");
        }
        let mut coords_ok = true;
        let mut any_ps = false;
        let mut all_ps = true;
        let mut i: usize = 0;
        while i < self.instances.len()
            invariant
                i <= self.instances@.len(),
                coords_ok == (forall|k: int|
                    0 <= k < i ==> (#[trigger] self.instances@[k]).coordinates@.len()
                        == self.axes@.len()),
                any_ps == (exists|k: int|
                    0 <= k < i && (#[trigger] self.instances@[k].post_script_name_id) is Some),
                all_ps == (forall|k: int|
                    0 <= k < i ==> (#[trigger] self.instances@[k].post_script_name_id) is Some),
            decreases self.instances@.len() - i,
        {
            if self.instances[i].coordinates.len() != self.axes.len() {
                coords_ok = false;
            }
            if self.instances[i].post_script_name_id.is_some() {
                any_ps = true;
            } else {
                all_ps = false;
            }
            i = i + 1;
        }
        if !coords_ok {
            ctx.report(
                "AxisInstanceArrays",
                "instances",
                "instance coordinate count does not match axis count",
            );
        }
        if any_ps && !all_ps {
            ctx.report(
                "AxisInstanceArrays",
                "instances",
                "PostScript name identifiers must be present on all instances or none",
            );
        }
        proof {
            assert(any_ps == self.spec_with_ps());
            assert(final(ctx).spec_errors() =~= old(ctx).spec_errors()
                + self.validation_errors());
        }
    }

    #[verifier::loop_isolation(false)]
    fn write_into(&self, w: &mut TableWriter) {
        let with_ps = self.instances.len() > 0 && self.instances[0].post_script_name_id.is_some();
        proof {
            if with_ps {
                assert(self.spec_with_ps());
            } else {
                if self.spec_with_ps() {
                    assert(self.instances@[0].post_script_name_id is Some);
                }
            }
            assert(with_ps == self.spec_with_ps());
        }
        let mut i: usize = 0;
        while i < self.axes.len()
            invariant
                i <= self.axes@.len(),
                w.wf(),
                w@.bytes == old(w)@.bytes + axes_bytes(self.axes@.take(i as int)),
                w@.subs == old(w)@.subs,
            decreases self.axes@.len() - i,
        {
            write_axis(w, &self.axes[i]);
            proof {
                assert(self.axes@.take(i + 1) =~= self.axes@.take(i as int).push(
                    self.axes@[i as int],
                ));
                lemma_axes_bytes_push(self.axes@.take(i as int), self.axes@[i as int]);
                assert(w@.bytes =~= old(w)@.bytes + axes_bytes(self.axes@.take(i + 1)));
            }
            i = i + 1;
        }
        proof {
            assert(self.axes@.take(self.axes@.len() as int) =~= self.axes@);
        }
        let ghost mid = w@.bytes;
        let mut j: usize = 0;
        while j < self.instances.len()
            invariant
                j <= self.instances@.len(),
                w.wf(),
                with_ps == self.spec_with_ps(),
                w@.bytes == mid + instances_bytes(self.instances@.take(j as int), with_ps),
                w@.subs == old(w)@.subs,
            decreases self.instances@.len() - j,
        {
            write_instance(w, &self.instances[j], with_ps);
            proof {
                assert(self.instances@.take(j + 1) =~= self.instances@.take(j as int).push(
                    self.instances@[j as int],
                ));
                lemma_instances_bytes_push(
                    self.instances@.take(j as int),
                    self.instances@[j as int],
                    with_ps,
                );
                assert(w@.bytes =~= mid + instances_bytes(self.instances@.take(j + 1), with_ps));
            }
            j = j + 1;
        }
        proof {
            assert(self.instances@.take(self.instances@.len() as int) =~= self.instances@);
            assert(final(w)@.bytes =~= append_wire(old(w)@, self.wire()).bytes);
            assert(final(w)@.subs =~~= append_wire(old(w)@, self.wire()).subs);
        }
    }
}

/// A deferred 16-bit offset to an owned sub-table: serialized as a
/// placeholder that the writer's second phase patches once the
/// sub-table's position is known.
#[derive(Clone, Debug, PartialEq, Eq)]
pub struct OffsetMarker<T> {
    /// The referenced sub-table.
    pub obj: T,
}

impl<T> OffsetMarker<T> {
    /// Wrap a sub-table behind a deferred offset.
    pub fn new(obj: T) -> (r: Self)
        ensures
            r == (OffsetMarker { obj }),
    {
        OffsetMarker { obj }
    }
}

impl FontWrite for OffsetMarker<AxisInstanceArrays> {
    open spec fn writable(&self) -> bool {
        self.obj.spec_writable()
    }

    /// Exactly what the referenced sub-table reports.
    open spec fn validation_errors(&self) -> Seq<ValidationError> {
        self.obj.validation_errors()
    }

    open spec fn wire(&self) -> WireModel {
        WireModel {
            bytes: seq![0u8, 0u8],
            subs: seq![SubImage { pos: 0, width: 2, image: aia_bytes(&self.obj) }],
        }
    }

    fn validate_impl(&self, ctx: &mut ValidationCtx) {
        self.obj.validate_impl(ctx);
    }

    fn write_into(&self, w: &mut TableWriter) {
        let mut sw = TableWriter::new();
        let ghost sw0 = sw@;
        self.obj.write_into(&mut sw);
        proof {
            assert(sw@.subs =~= Seq::<SubImage>::empty());
            assert(sw@.bytes =~= aia_bytes(&self.obj));
        }
        let image = sw.finish_leaf();
        w.write_offset16_sub(image);
        proof {
            assert(final(w)@.subs =~~= append_wire(old(w)@, self.wire()).subs);
        }
    }
}

/// The font-variations header: a versioned record referencing the axis
/// and instance arrays through a deferred 16-bit offset.
#[derive(Clone, Debug, PartialEq, Eq)]
pub struct Fvar {
    /// Major and minor version number of the record.
    pub version: MajorMinor,
    /// Offset to the combined axis and instance arrays; the instance
    /// array directly follows the axis array.
    pub axis_instance_arrays: OffsetMarker<AxisInstanceArrays>,
    /// The number of variation axes (the number of records in the axes
    /// array).
    pub axis_count: u16,
    /// The number of named instances (the number of records in the
    /// instances array).
    pub instance_count: u16,
}

/// The size in bytes of one instance record, as stored in the header.
pub open spec fn fvar_instance_size(f: &Fvar) -> int {
    4 * f.axis_count + (if f.axis_instance_arrays.obj.spec_with_ps() {
        6int
    } else {
        4int
    })
}

/// The 16 header bytes, with a zero placeholder at the offset field.
pub open spec fn fvar_header_bytes(f: &Fvar) -> Seq<u8> {
    be16(f.version.major as int) + be16(f.version.minor as int) + seq![0u8, 0u8] + be16(2) + be16(
        f.axis_count as int,
    ) + be16(20) + be16(f.instance_count as int) + be16(fvar_instance_size(f))
}

impl Fvar {
    /// Construct a new `Fvar`.
    pub fn new(
        version: MajorMinor,
        axis_instance_arrays: AxisInstanceArrays,
        axis_count: u16,
        instance_count: u16,
    ) -> (r: Self)
        ensures
            r.version == version,
            r.axis_instance_arrays.obj == axis_instance_arrays,
            r.axis_count == axis_count,
            r.instance_count == instance_count,
    {
        Fvar {
            version,
            axis_instance_arrays: OffsetMarker::new(axis_instance_arrays),
            axis_count,
            instance_count,
        }
    }
}

impl FontWrite for Fvar {
    /// The arrays must be writable, the counts must match the array
    /// lengths, and the axis count must leave the per-instance size
    /// representable in its 16-bit field.
    open spec fn writable(&self) -> bool {
        &&& self.axis_instance_arrays.obj.spec_writable()
        &&& self.axis_instance_arrays.obj.axes@.len() == self.axis_count
        &&& self.axis_instance_arrays.obj.instances@.len() == self.instance_count
        &&& self.axis_count <= 0x3FFE
    }

    /// The referenced arrays' failures first, then the header's own, in
    /// checking order: mismatched axis count, mismatched instance count,
    /// an axis count too large for the instance-size field.
    open spec fn validation_errors(&self) -> Seq<ValidationError> {
        self.axis_instance_arrays.obj.validation_errors() + (if self.axis_instance_arrays.obj.axes@.len()
            != self.axis_count {
            seq![
                ValidationError {
                    table: "Fvar",
                    field: "axis_count",
                    message: "count does not match the axes array length",
                },
            ]
        } else {
            Seq::empty()
        }) + (if self.axis_instance_arrays.obj.instances@.len() != self.instance_count {
            seq![
                ValidationError {
                    table: "Fvar",
                    field: "instance_count",
                    message: "count does not match the instances array length",
                },
            ]
        } else {
            Seq::empty()
        }) + (if self.axis_count > 0x3FFE {
            seq![
                ValidationError {
                    table: "Fvar",
                    field: "axis_count",
                    message: "instance size exceeds its 16-bit field",
                },
            ]
        } else {
            Seq::empty()
        })
    }

    open spec fn wire(&self) -> WireModel {
        WireModel {
            bytes: fvar_header_bytes(self),
            subs: seq![
                SubImage { pos: 4, width: 2, image: aia_bytes(&self.axis_instance_arrays.obj) },
            ],
        }
    }

    #[verifier::rlimit(60)]
    fn validate_impl(&self, ctx: &mut ValidationCtx) {
        self.axis_instance_arrays.obj.validate_impl(ctx);
        if self.axis_instance_arrays.obj.axes.len() != self.axis_count as usize {
            ctx.report("Fvar", "axis_count", "count does not match the axes array length");
        }
        if self.axis_instance_arrays.obj.instances.len() != self.instance_count as usize {
            ctx.report(
                "Fvar",
                "instance_count",
                "count does not match the instances array length",
            );
        }
        if self.axis_count > 0x3FFE {
            ctx.report("Fvar", "axis_count", "instance size exceeds its 16-bit field");
        }
        proof {
            assert(final(ctx).spec_errors() =~= old(ctx).spec_errors()
                + self.validation_errors());
        }
    }

    #[verifier::rlimit(100)]
    #[verifier::spinoff_prover]
    fn write_into(&self, w: &mut TableWriter) {
        w.write_u16(self.version.major);
        w.write_u16(self.version.minor);
        self.axis_instance_arrays.write_into(w);
        w.write_u16(2);
        w.write_u16(self.axis_count);
        w.write_u16(20);
        w.write_u16(self.instance_count);
        let obj = &self.axis_instance_arrays.obj;
        let with_ps = obj.instances.len() > 0 && obj.instances[0].post_script_name_id.is_some();
        proof {
            if with_ps {
                assert(obj.spec_with_ps());
            } else {
                if obj.spec_with_ps() {
                    assert(obj.instances@[0].post_script_name_id is Some);
                }
            }
        }
        let instance_size: u16 = 4 * self.axis_count + (if with_ps {
            6
        } else {
            4
        });
        w.write_u16(instance_size);
        proof {
            assert(final(w)@.bytes =~= append_wire(old(w)@, self.wire()).bytes);
            assert(final(w)@.subs =~~= append_wire(old(w)@, self.wire()).subs);
        }
    }
}

/// The mathematical shape of an instance record.
pub struct InstanceModel {
    pub subfamily_name_id: u16,
    pub flags: u16,
    pub coordinates: Seq<Fixed>,
    pub post_script_name_id: Option<u16>,
}

impl View for InstanceRecord {
    type V = InstanceModel;

    open spec fn view(&self) -> InstanceModel {
        InstanceModel {
            subfamily_name_id: self.subfamily_name_id,
            flags: self.flags,
            coordinates: self.coordinates@,
            post_script_name_id: self.post_script_name_id,
        }
    }
}

impl DeepView for InstanceRecord {
    type V = InstanceModel;

    open spec fn deep_view(&self) -> InstanceModel {
        self@
    }
}

/// The models of an instance array, element by element.
pub open spec fn instance_models(rs: Seq<InstanceRecord>) -> Seq<InstanceModel> {
    rs.map_values(|r: InstanceRecord| r@)
}

/// The signed value a 32-bit word denotes in two's complement.
pub open spec fn sign32(w: int) -> int {
    if w < 0x80000000 {
        w
    } else {
        w - 0x100000000
    }
}

/// Parse `n` axis records from the front of `b`; yields the records and
/// the remaining bytes.
pub open spec fn parse_axes(b: Seq<u8>, n: int) -> Option<(Seq<VariationAxisRecord>, Seq<u8>)>
    decreases n,
{
    if n <= 0 {
        Some((Seq::empty(), b))
    } else if b.len() < 20 {
        None
    } else {
        let a = VariationAxisRecord {
            axis_tag: Tag { b0: b[0], b1: b[1], b2: b[2], b3: b[3] },
            min_value: Fixed { bits: sign32(crate::font_data::be_u32_at(b, 4)) as i32 },
            default_value: Fixed { bits: sign32(crate::font_data::be_u32_at(b, 8)) as i32 },
            max_value: Fixed { bits: sign32(crate::font_data::be_u32_at(b, 12)) as i32 },
            flags: crate::font_data::be_u16_at(b, 16) as u16,
            axis_name_id: crate::font_data::be_u16_at(b, 18) as u16,
        };
        match parse_axes(b.skip(20), n - 1) {
            Some((rest, rem)) => Some((seq![a] + rest, rem)),
            None => None,
        }
    }
}

/// Parse `n` coordinates from the front of `b`.
pub open spec fn parse_coords(b: Seq<u8>, n: int) -> Option<(Seq<Fixed>, Seq<u8>)>
    decreases n,
{
    if n <= 0 {
        Some((Seq::empty(), b))
    } else if b.len() < 4 {
        None
    } else {
        let c = Fixed { bits: sign32(crate::font_data::be_u32_at(b, 0)) as i32 };
        match parse_coords(b.skip(4), n - 1) {
            Some((rest, rem)) => Some((seq![c] + rest, rem)),
            None => None,
        }
    }
}

/// Parse `n` instance records of `ac` coordinates each from the front of
/// `b`; the PostScript name field is read exactly when `with_ps`.
pub open spec fn parse_instances(b: Seq<u8>, n: int, ac: int, with_ps: bool) -> Option<
    (Seq<InstanceModel>, Seq<u8>),
>
    decreases n,
{
    if n <= 0 {
        Some((Seq::empty(), b))
    } else if b.len() < 4 {
        None
    } else {
        let subfamily = crate::font_data::be_u16_at(b, 0);
        let flags = crate::font_data::be_u16_at(b, 2);
        match parse_coords(b.skip(4), ac) {
            Some((cs, rem)) => {
                if with_ps {
                    if rem.len() < 2 {
                        None
                    } else {
                        let ps = crate::font_data::be_u16_at(rem, 0);
                        let m = InstanceModel {
                            subfamily_name_id: subfamily as u16,
                            flags: flags as u16,
                            coordinates: cs,
                            post_script_name_id: Some(ps as u16),
                        };
                        match parse_instances(rem.skip(2), n - 1, ac, with_ps) {
                            Some((rest, rem2)) => Some((seq![m] + rest, rem2)),
                            None => None,
                        }
                    }
                } else {
                    let m = InstanceModel {
                        subfamily_name_id: subfamily as u16,
                        flags: flags as u16,
                        coordinates: cs,
                        post_script_name_id: None,
                    };
                    match parse_instances(rem, n - 1, ac, with_ps) {
                        Some((rest, rem2)) => Some((seq![m] + rest, rem2)),
                        None => None,
                    }
                }
            },
            None => None,
        }
    }
}

/// Parse a whole serialized font-variations record: the header fields,
/// then the axis and instance arrays at the stored offset.  A null or
/// out-of-range offset and truncated arrays are failures.
pub open spec fn spec_read_fvar(b: Seq<u8>) -> Option<
    (MajorMinor, u16, u16, Seq<VariationAxisRecord>, Seq<InstanceModel>),
> {
    if b.len() < 16 {
        None
    } else {
        let major = crate::font_data::be_u16_at(b, 0);
        let minor = crate::font_data::be_u16_at(b, 2);
        let off = crate::font_data::be_u16_at(b, 4);
        let ac = crate::font_data::be_u16_at(b, 8);
        let ic = crate::font_data::be_u16_at(b, 12);
        let isize_ = crate::font_data::be_u16_at(b, 14);
        let with_ps = isize_ == 4 * ac + 6;
        if off == 0 || off > b.len() {
            None
        } else {
            match parse_axes(b.skip(off), ac) {
                Some((axes, rem)) => match parse_instances(rem, ic, ac, with_ps) {
                    Some((insts, _)) => Some(
                        (
                            MajorMinor { major: major as u16, minor: minor as u16 },
                            ac as u16,
                            ic as u16,
                            axes,
                            insts,
                        ),
                    ),
                    None => None,
                },
                None => None,
            }
        }
    }
}

/// Parsing undoes the serialization of an axis array.
#[verifier::rlimit(100)]
#[verifier::spinoff_prover]
proof fn lemma_parse_axes_inverse(axes: Seq<VariationAxisRecord>, rest: Seq<u8>)
    ensures
        axes_bytes(axes).len() == 20 * axes.len(),
        parse_axes(axes_bytes(axes) + rest, axes.len() as int) == Some((axes, rest)),
    decreases axes.len(),
{
    if axes.len() == 0 {
        assert(axes_bytes(axes) + rest =~= rest);
        assert(parse_axes(rest, 0) == Some((Seq::<VariationAxisRecord>::empty(), rest)));
        assert(Seq::<VariationAxisRecord>::empty() =~= axes);
    } else {
        lemma_parse_axes_inverse(axes.skip(1), rest);
        let b = axes_bytes(axes) + rest;
        let a = axes[0];
        assert(b.skip(20) =~= axes_bytes(axes.skip(1)) + rest);
        assert(b[0] == a.axis_tag.b0);
        assert(b[1] == a.axis_tag.b1);
        assert(b[2] == a.axis_tag.b2);
        assert(b[3] == a.axis_tag.b3);
        lemma_be32_signed_inverse(a.min_value.bits as int);
        lemma_be32_signed_inverse(a.default_value.bits as int);
        lemma_be32_signed_inverse(a.max_value.bits as int);
        assert(b.subrange(4, 8) =~= be32_signed(a.min_value.bits as int));
        assert(b.subrange(8, 12) =~= be32_signed(a.default_value.bits as int));
        assert(b.subrange(12, 16) =~= be32_signed(a.max_value.bits as int));
        assert(sign32(crate::font_data::be_u32_at(b, 4)) == a.min_value.bits);
        assert(sign32(crate::font_data::be_u32_at(b, 8)) == a.default_value.bits);
        assert(sign32(crate::font_data::be_u32_at(b, 12)) == a.max_value.bits);
        lemma_be16_inverse(a.flags as int);
        lemma_be16_inverse(a.axis_name_id as int);
        assert(b.subrange(16, 18) =~= be16(a.flags as int));
        assert(b.subrange(18, 20) =~= be16(a.axis_name_id as int));
        assert(crate::font_data::be_u16_at(b, 16) == a.flags);
        assert(crate::font_data::be_u16_at(b, 18) == a.axis_name_id);
        assert(seq![a] + axes.skip(1) =~= axes);
    }
}

/// Parsing undoes the serialization of a coordinate array.
proof fn lemma_parse_coords_inverse(cs: Seq<Fixed>, rest: Seq<u8>)
    ensures
        coords_bytes(cs).len() == 4 * cs.len(),
        parse_coords(coords_bytes(cs) + rest, cs.len() as int) == Some((cs, rest)),
    decreases cs.len(),
{
    if cs.len() == 0 {
        assert(coords_bytes(cs) + rest =~= rest);
        assert(Seq::<Fixed>::empty() =~= cs);
    } else {
        lemma_parse_coords_inverse(cs.skip(1), rest);
        let b = coords_bytes(cs) + rest;
        assert(b.skip(4) =~= coords_bytes(cs.skip(1)) + rest);
        lemma_be32_signed_inverse(cs[0].bits as int);
        assert(b.subrange(0, 4) =~= be32_signed(cs[0].bits as int));
        assert(sign32(crate::font_data::be_u32_at(b, 0)) == cs[0].bits);
        assert(seq![cs[0]] + cs.skip(1) =~= cs);
    }
}

/// Parsing one serialized instance record recovers its fields and
/// leaves exactly the trailing bytes.
#[verifier::rlimit(100)]
#[verifier::spinoff_prover]
proof fn lemma_instance_bytes_parse(r: InstanceRecord, tail: Seq<u8>, ac: int, with_ps: bool)
    requires
        r.coordinates@.len() == ac,
        with_ps ==> r.post_script_name_id is Some,
        !with_ps ==> r.post_script_name_id is None,
    ensures
        parse_rest_of_instance(r, tail, ac, with_ps),
{
    let b = instance_bytes(r, with_ps) + tail;
    lemma_be16_inverse(r.subfamily_name_id as int);
    lemma_be16_inverse(r.flags as int);
    assert(b.subrange(0, 2) =~= be16(r.subfamily_name_id as int));
    assert(b.subrange(2, 4) =~= be16(r.flags as int));
    assert(crate::font_data::be_u16_at(b, 0) == r.subfamily_name_id);
    assert(crate::font_data::be_u16_at(b, 2) == r.flags);
    if with_ps {
        let ps = r.post_script_name_id.unwrap() as int;
        lemma_parse_coords_inverse(r.coordinates@, be16(ps) + tail);
        assert(b.skip(4) =~= coords_bytes(r.coordinates@) + (be16(ps) + tail));
        let rem = be16(ps) + tail;
        assert(parse_coords(b.skip(4), ac) == Some((r.coordinates@, rem)));
        lemma_be16_inverse(ps);
        assert(rem.subrange(0, 2) =~= be16(ps));
        assert(crate::font_data::be_u16_at(rem, 0) == ps);
        assert(rem.skip(2) =~= tail);
        assert(InstanceModel {
            subfamily_name_id: crate::font_data::be_u16_at(b, 0) as u16,
            flags: crate::font_data::be_u16_at(b, 2) as u16,
            coordinates: r.coordinates@,
            post_script_name_id: Some(crate::font_data::be_u16_at(rem, 0) as u16),
        } == r@);
    } else {
        lemma_parse_coords_inverse(r.coordinates@, tail);
        assert(b.skip(4) =~= coords_bytes(r.coordinates@) + tail);
        assert(parse_coords(b.skip(4), ac) == Some((r.coordinates@, tail)));
        assert(InstanceModel {
            subfamily_name_id: crate::font_data::be_u16_at(b, 0) as u16,
            flags: crate::font_data::be_u16_at(b, 2) as u16,
            coordinates: r.coordinates@,
            post_script_name_id: None,
        } == r@);
    }
    assert forall|n: int| n >= 1 implies #[trigger] parse_instances(
        instance_bytes(r, with_ps) + tail,
        n,
        ac,
        with_ps,
    ) == (match parse_instances(tail, n - 1, ac, with_ps) {
        Some((ms, rem)) => Some((seq![r@] + ms, rem)),
        None => None::<(Seq<InstanceModel>, Seq<u8>)>,
    }) by {
        assert(b.len() >= 4);
    }
}

/// Naming helper for the parse step: parsing the bytes of `r` followed
/// by anything continues in that remainder.
pub open spec fn parse_rest_of_instance(
    r: InstanceRecord,
    tail: Seq<u8>,
    ac: int,
    with_ps: bool,
) -> bool {
    forall|n: int|
        n >= 1 ==> #[trigger] parse_instances(instance_bytes(r, with_ps) + tail, n, ac, with_ps)
            == (match parse_instances(tail, n - 1, ac, with_ps) {
            Some((ms, rem)) => Some((seq![r@] + ms, rem)),
            None => None::<(Seq<InstanceModel>, Seq<u8>)>,
        })
}

/// Parsing undoes the serialization of an instance array, when every
/// instance has `ac` coordinates and the PostScript name field is
/// present on all of them or on none, matching `with_ps`.
#[verifier::rlimit(100)]
#[verifier::spinoff_prover]
proof fn lemma_parse_instances_inverse(
    rs: Seq<InstanceRecord>,
    rest: Seq<u8>,
    ac: int,
    with_ps: bool,
)
    requires
        forall|i: int| 0 <= i < rs.len() ==> (#[trigger] rs[i]).coordinates@.len() == ac,
        with_ps ==> forall|i: int|
            0 <= i < rs.len() ==> (#[trigger] rs[i].post_script_name_id) is Some,
        !with_ps ==> forall|i: int|
            0 <= i < rs.len() ==> (#[trigger] rs[i].post_script_name_id) is None,
    ensures
        parse_instances(instances_bytes(rs, with_ps) + rest, rs.len() as int, ac, with_ps)
            == Some((instance_models(rs), rest)),
    decreases rs.len(),
{
    if rs.len() == 0 {
        assert(instances_bytes(rs, with_ps) + rest =~= rest);
        assert(instance_models(rs) =~= Seq::<InstanceModel>::empty());
    } else {
        assert(forall|i: int|
            0 <= i < rs.skip(1).len() ==> (#[trigger] rs.skip(1)[i]).coordinates@.len() == ac);
        assert(with_ps ==> forall|i: int|
            0 <= i < rs.skip(1).len() ==> (#[trigger] rs.skip(1)[i].post_script_name_id) is Some);
        assert(!with_ps ==> forall|i: int|
            0 <= i < rs.skip(1).len() ==> (#[trigger] rs.skip(1)[i].post_script_name_id) is None);
        lemma_parse_instances_inverse(rs.skip(1), rest, ac, with_ps);
        let tail = instances_bytes(rs.skip(1), with_ps) + rest;
        lemma_instance_bytes_parse(rs[0], tail, ac, with_ps);
        assert(instances_bytes(rs, with_ps) + rest =~= instance_bytes(rs[0], with_ps) + tail);
        assert(parse_instances(tail, rs.len() - 1, ac, with_ps) == Some(
            (instance_models(rs.skip(1)), rest),
        ));
        assert(parse_instances(instance_bytes(rs[0], with_ps) + tail, rs.len() as int, ac, with_ps)
            == Some((seq![rs[0]@] + instance_models(rs.skip(1)), rest)));
        assert(seq![rs[0]@] + instance_models(rs.skip(1)) =~= instance_models(rs));
    }
}

/// The header bytes written out flat, element by element.
#[verifier::rlimit(100)]
#[verifier::spinoff_prover]
proof fn lemma_fvar_header_flat(f: &Fvar)
    requires
        f.writable(),
    ensures
        fvar_header_bytes(f) == seq![
            ((f.version.major as int / 256) % 256) as u8,
            (f.version.major as int % 256) as u8,
            ((f.version.minor as int / 256) % 256) as u8,
            (f.version.minor as int % 256) as u8,
            0u8,
            0u8,
            0u8,
            2u8,
            ((f.axis_count as int / 256) % 256) as u8,
            (f.axis_count as int % 256) as u8,
            0u8,
            20u8,
            ((f.instance_count as int / 256) % 256) as u8,
            (f.instance_count as int % 256) as u8,
            ((fvar_instance_size(f) / 256) % 256) as u8,
            (fvar_instance_size(f) % 256) as u8,
        ],
{
    assert(fvar_header_bytes(f) =~= seq![
        ((f.version.major as int / 256) % 256) as u8,
        (f.version.major as int % 256) as u8,
        ((f.version.minor as int / 256) % 256) as u8,
        (f.version.minor as int % 256) as u8,
        0u8,
        0u8,
        0u8,
        2u8,
        ((f.axis_count as int / 256) % 256) as u8,
        (f.axis_count as int % 256) as u8,
        0u8,
        20u8,
        ((f.instance_count as int / 256) % 256) as u8,
        (f.instance_count as int % 256) as u8,
        ((fvar_instance_size(f) / 256) % 256) as u8,
        (fvar_instance_size(f) % 256) as u8,
    ]);
}

/// The patched header of a writable record: the offset field holds 16,
/// everything else is unchanged.
#[verifier::rlimit(100)]
#[verifier::spinoff_prover]
proof fn lemma_fvar_patched_flat(f: &Fvar)
    requires
        f.writable(),
    ensures
        crate::writer::all_offsets_fit(f.wire()),
        crate::writer::patched_root(f.wire(), 1) == fvar_header_bytes(f).update(4, 0u8).update(
            5,
            16u8,
        ),
{
    let wire = f.wire();
    let header = fvar_header_bytes(f);
    assert(header.len() == 16);
    assert(crate::writer::subs_len_prefix(wire.subs, 0) == 0);
    assert(crate::writer::sub_start(wire, 0) == 16);
    assert(crate::writer::all_offsets_fit(wire)) by {
        assert forall|j: int| 0 <= j < wire.subs.len() implies crate::writer::sub_start(wire, j)
            <= crate::writer::width_max(#[trigger] wire.subs[j].width) by {
            assert(j == 0);
            assert(crate::writer::sub_start(wire, 0) == 16);
        }
    }
    let patched = crate::writer::patched_root(wire, 1);
    assert(crate::writer::patched_root(wire, 0) == wire.bytes);
    assert(wire.subs[0].pos == 4 && wire.subs[0].width == 2);
    assert(patched == crate::writer::patch_at(header, 4, 2, 16));
    assert(crate::writer::be_bytes(16, 2) == seq![0u8, 16u8]);
    assert(patched =~= header.update(4, 0u8).update(5, 16u8));
}

/// Splitting a 16-bit value into its two bytes loses nothing.
proof fn lemma_u16_divmod(v: int)
    by (nonlinear_arith)
    requires
        0 <= v <= 0xFFFF,
    ensures
        ((v / 256) % 256) * 256 + v % 256 == v,
{
}

#[verifier::rlimit(100)]
#[verifier::spinoff_prover]
proof fn lemma_fvar_dump_layout(f: &Fvar)
    requires
        f.writable(),
    ensures
        crate::writer::spec_dump(f.wire()) is Some,
        ({
            let out = crate::writer::spec_dump(f.wire()).unwrap();
            &&& out.len() == 16 + aia_bytes(&f.axis_instance_arrays.obj).len()
            &&& out.skip(16) == aia_bytes(&f.axis_instance_arrays.obj)
            &&& crate::font_data::be_u16_at(out, 0) == f.version.major
            &&& crate::font_data::be_u16_at(out, 2) == f.version.minor
            &&& crate::font_data::be_u16_at(out, 4) == 16
            &&& crate::font_data::be_u16_at(out, 8) == f.axis_count
            &&& crate::font_data::be_u16_at(out, 12) == f.instance_count
            &&& crate::font_data::be_u16_at(out, 14) == fvar_instance_size(f)
        }),
{
    let wire = f.wire();
    let obj = &f.axis_instance_arrays.obj;
    lemma_fvar_header_flat(f);
    lemma_fvar_patched_flat(f);
    let patched = crate::writer::patched_root(wire, 1);
    let image = aia_bytes(obj);
    assert(crate::writer::subs_concat(wire.subs, 1) =~= Seq::<u8>::empty());
    assert(crate::writer::subs_concat(wire.subs, 0) =~= image);
    let out = crate::writer::spec_dump(wire).unwrap();
    assert(out == patched + image);
    assert(patched.len() == 16);
    assert(out.skip(16) =~= image);
    lemma_u16_divmod(f.version.major as int);
    lemma_u16_divmod(f.version.minor as int);
    lemma_u16_divmod(f.axis_count as int);
    lemma_u16_divmod(f.instance_count as int);
    lemma_u16_divmod(fvar_instance_size(f));
    assert(out[0] == patched[0] && out[1] == patched[1]);
    assert(out[2] == patched[2] && out[3] == patched[3]);
    assert(out[4] == 0u8 && out[5] == 16u8);
    assert(out[8] == patched[8] && out[9] == patched[9]);
    assert(out[12] == patched[12] && out[13] == patched[13]);
    assert(out[14] == patched[14] && out[15] == patched[15]);
}

/// Writer round trip: serializing a font-variations record with its
/// offset-referenced axis/instance sub-table, then reading the buffer
/// back, reproduces every field value and the nested arrays unchanged.
#[verifier::rlimit(100)]
#[verifier::spinoff_prover]
pub proof fn lemma_fvar_round_trip(f: &Fvar)
    requires
        f.writable(),
    ensures
        crate::writer::spec_dump(f.wire()) is Some,
        spec_read_fvar(crate::writer::spec_dump(f.wire()).unwrap()) == Some(
            (
                f.version,
                f.axis_count,
                f.instance_count,
                f.axis_instance_arrays.obj.axes@,
                instance_models(f.axis_instance_arrays.obj.instances@),
            ),
        ),
{
    let obj = &f.axis_instance_arrays.obj;
    lemma_fvar_dump_layout(f);
    let out = crate::writer::spec_dump(f.wire()).unwrap();
    let with_ps = obj.spec_with_ps();
    assert((fvar_instance_size(f) == 4 * f.axis_count + 6) == with_ps);
    lemma_parse_axes_inverse(obj.axes@, instances_bytes(obj.instances@, with_ps));
    assert(out.skip(16) =~= axes_bytes(obj.axes@) + instances_bytes(obj.instances@, with_ps));
    lemma_parse_instances_inverse(obj.instances@, Seq::empty(), f.axis_count as int, with_ps);
    assert(instances_bytes(obj.instances@, with_ps) + Seq::<u8>::empty() =~= instances_bytes(
        obj.instances@,
        with_ps,
    ));
    assert(parse_axes(out.skip(16), f.axis_count as int) == Some(
        (obj.axes@, instances_bytes(obj.instances@, with_ps)),
    ));
    assert(MajorMinor {
        major: crate::font_data::be_u16_at(out, 0) as u16,
        minor: crate::font_data::be_u16_at(out, 2) as u16,
    } == f.version);
}

/// Read `n` axis records starting at byte `i`; yields the records and
/// the position after them.
#[verifier::rlimit(100)]
fn parse_axes_rec(data: &crate::font_data::FontData, i: usize, n: usize) -> (r: Option<
    (Vec<VariationAxisRecord>, usize),
>)
    requires
        i <= data@.len(),
    ensures
        match r {
            Some(v) => {
                &&& i <= v.1 <= data@.len()
                &&& parse_axes(data@.skip(i as int), n as int) == Some(
                    (v.0@, data@.skip(v.1 as int)),
                )
            },
            None => parse_axes(data@.skip(i as int), n as int) is None,
        },
    decreases n,
{
    let ghost b = data@.skip(i as int);
    if n == 0 {
        return Some((Vec::new(), i));
    }
    if data.len() - i < 20 {
        return None;
    }
    proof {
        assert forall|k: int| 0 <= k < 20 implies b[k] == data@[i + k] by {}
        assert(crate::font_data::be_u32_at(b, 4) == crate::font_data::be_u32_at(data@, i + 4));
        assert(crate::font_data::be_u32_at(b, 8) == crate::font_data::be_u32_at(data@, i + 8));
        assert(crate::font_data::be_u32_at(b, 12) == crate::font_data::be_u32_at(data@, i + 12));
        assert(crate::font_data::be_u16_at(b, 16) == crate::font_data::be_u16_at(data@, i + 16));
        assert(crate::font_data::be_u16_at(b, 18) == crate::font_data::be_u16_at(data@, i + 18));
    }
    let t0 = match data.read_u8_at(i) {
        Ok(v) => v,
        Err(_) => { return None },
    };
    let t1 = match data.read_u8_at(i + 1) {
        Ok(v) => v,
        Err(_) => { return None },
    };
    let t2 = match data.read_u8_at(i + 2) {
        Ok(v) => v,
        Err(_) => { return None },
    };
    let t3 = match data.read_u8_at(i + 3) {
        Ok(v) => v,
        Err(_) => { return None },
    };
    let min_w = match data.read_u32_at(i + 4) {
        Ok(v) => v,
        Err(_) => { return None },
    };
    let def_w = match data.read_u32_at(i + 8) {
        Ok(v) => v,
        Err(_) => { return None },
    };
    let max_w = match data.read_u32_at(i + 12) {
        Ok(v) => v,
        Err(_) => { return None },
    };
    let flags = match data.read_u16_at(i + 16) {
        Ok(v) => v,
        Err(_) => { return None },
    };
    let name_id = match data.read_u16_at(i + 18) {
        Ok(v) => v,
        Err(_) => { return None },
    };
    let a = VariationAxisRecord {
        axis_tag: Tag { b0: t0, b1: t1, b2: t2, b3: t3 },
        min_value: Fixed { bits: u32_to_i32_pattern(min_w) },
        default_value: Fixed { bits: u32_to_i32_pattern(def_w) },
        max_value: Fixed { bits: u32_to_i32_pattern(max_w) },
        flags,
        axis_name_id: name_id,
    };
    match parse_axes_rec(data, i + 20, n - 1) {
        Some(rest) => {
            let (mut more, end) = rest;
            proof {
                assert(b.skip(20) =~= data@.skip(i + 20));
            }
            let mut out: Vec<VariationAxisRecord> = Vec::new();
            out.push(a);
            let ghost pre = out@;
            let ghost tail = more@;
            out.append(&mut more);
            proof {
                assert(out@ == pre + tail);
                assert(out@ =~= seq![a] + tail);
            }
            Some((out, end))
        },
        None => {
            proof {
                assert(b.skip(20) =~= data@.skip(i + 20));
            }
            None
        },
    }
}

/// The signed 32-bit value with the given unsigned bit pattern.
fn u32_to_i32_pattern(w: u32) -> (r: i32)
    ensures
        r as int == sign32(w as int),
{
    if w < 0x80000000 {
        w as i32
    } else {
        ((w as i64) - 0x100000000i64) as i32
    }
}

/// Read `n` coordinates starting at byte `i`.
fn parse_coords_rec(data: &crate::font_data::FontData, i: usize, n: usize) -> (r: Option<
    (Vec<Fixed>, usize),
>)
    requires
        i <= data@.len(),
    ensures
        match r {
            Some(v) => {
                &&& i <= v.1 <= data@.len()
                &&& parse_coords(data@.skip(i as int), n as int) == Some(
                    (v.0@, data@.skip(v.1 as int)),
                )
            },
            None => parse_coords(data@.skip(i as int), n as int) is None,
        },
    decreases n,
{
    let ghost b = data@.skip(i as int);
    if n == 0 {
        return Some((Vec::new(), i));
    }
    if data.len() - i < 4 {
        return None;
    }
    proof {
        assert forall|k: int| 0 <= k < 4 implies b[k] == data@[i + k] by {}
        assert(crate::font_data::be_u32_at(b, 0) == crate::font_data::be_u32_at(data@, i as int));
    }
    let w = match data.read_u32_at(i) {
        Ok(v) => v,
        Err(_) => { return None },
    };
    let c = Fixed { bits: u32_to_i32_pattern(w) };
    match parse_coords_rec(data, i + 4, n - 1) {
        Some(rest) => {
            let (mut more, end) = rest;
            proof {
                assert(b.skip(4) =~= data@.skip(i + 4));
            }
            let mut out: Vec<Fixed> = Vec::new();
            out.push(c);
            let ghost pre = out@;
            let ghost tail = more@;
            out.append(&mut more);
            proof {
                assert(out@ == pre + tail);
                assert(out@ =~= seq![c] + tail);
            }
            Some((out, end))
        },
        None => {
            proof {
                assert(b.skip(4) =~= data@.skip(i + 4));
            }
            None
        },
    }
}

/// Read `n` instance records of `ac` coordinates each starting at byte
/// `i`.
#[verifier::rlimit(100)]
fn parse_instances_rec(
    data: &crate::font_data::FontData,
    i: usize,
    n: usize,
    ac: usize,
    with_ps: bool,
) -> (r: Option<(Vec<InstanceRecord>, usize)>)
    requires
        i <= data@.len(),
    ensures
        match r {
            Some(v) => {
                &&& i <= v.1 <= data@.len()
                &&& parse_instances(data@.skip(i as int), n as int, ac as int, with_ps) == Some(
                    (v.0.deep_view(), data@.skip(v.1 as int)),
                )
            },
            None => parse_instances(data@.skip(i as int), n as int, ac as int, with_ps) is None,
        },
    decreases n,
{
    let ghost b = data@.skip(i as int);
    if n == 0 {
        let r: Vec<InstanceRecord> = Vec::new();
        proof {
            assert(r.deep_view() =~= Seq::<InstanceModel>::empty());
        }
        return Some((r, i));
    }
    if data.len() - i < 4 {
        return None;
    }
    proof {
        assert(b[0] == data@[i as int] && b[1] == data@[i + 1]);
        assert(b[2] == data@[i + 2] && b[3] == data@[i + 3]);
        assert(crate::font_data::be_u16_at(b, 0) == crate::font_data::be_u16_at(data@, i as int));
        assert(crate::font_data::be_u16_at(b, 2) == crate::font_data::be_u16_at(data@, i + 2));
    }
    let subfamily = match data.read_u16_at(i) {
        Ok(v) => v,
        Err(_) => { return None },
    };
    let flags = match data.read_u16_at(i + 2) {
        Ok(v) => v,
        Err(_) => { return None },
    };
    let coords = match parse_coords_rec(data, i + 4, ac) {
        Some(v) => v,
        None => {
            proof {
                assert(b.skip(4) =~= data@.skip(i + 4));
            }
            return None;
        },
    };
    let (cs, after_coords) = coords;
    proof {
        assert(b.skip(4) =~= data@.skip(i + 4));
    }
    let ghost rem = data@.skip(after_coords as int);
    let ps: Option<u16>;
    let next: usize;
    if with_ps {
        if data.len() - after_coords < 2 {
            return None;
        }
        proof {
            assert(rem[0] == data@[after_coords as int] && rem[1] == data@[after_coords + 1]);
            assert(crate::font_data::be_u16_at(rem, 0) == crate::font_data::be_u16_at(
                data@,
                after_coords as int,
            ));
        }
        let id = match data.read_u16_at(after_coords) {
            Ok(v) => v,
            Err(_) => { return None },
        };
        ps = Some(id);
        next = after_coords + 2;
        proof {
            assert(rem.skip(2) =~= data@.skip(next as int));
        }
    } else {
        ps = None;
        next = after_coords;
    }
    let inst = InstanceRecord {
        subfamily_name_id: subfamily,
        flags,
        coordinates: cs,
        post_script_name_id: ps,
    };
    match parse_instances_rec(data, next, n - 1, ac, with_ps) {
        Some(rest) => {
            let (mut more, end) = rest;
            let ghost m = inst@;
            let mut out: Vec<InstanceRecord> = Vec::new();
            out.push(inst);
            let ghost tail = more.deep_view();
            let ghost pre_len = out@.len();
            out.append(&mut more);
            proof {
                assert(out.deep_view() =~= seq![m] + tail);
            }
            Some((out, end))
        },
        None => None,
    }
}

/// Read a whole serialized font-variations record back: header fields,
/// then the axis and instance arrays resolved through the stored offset.
pub fn read_fvar(data: &crate::font_data::FontData) -> (r: Option<
    (MajorMinor, u16, u16, Vec<VariationAxisRecord>, Vec<InstanceRecord>),
>)
    ensures
        match r {
            Some(v) => spec_read_fvar(data@) == Some(
                (v.0, v.1, v.2, v.3@, v.4.deep_view()),
            ),
            None => spec_read_fvar(data@) is None,
        },
{
    if data.len() < 16 {
        return None;
    }
    let major = match data.read_u16_at(0) {
        Ok(v) => v,
        Err(_) => { return None },
    };
    let minor = match data.read_u16_at(2) {
        Ok(v) => v,
        Err(_) => { return None },
    };
    let off = match data.read_u16_at(4) {
        Ok(v) => v,
        Err(_) => { return None },
    };
    let ac = match data.read_u16_at(8) {
        Ok(v) => v,
        Err(_) => { return None },
    };
    let ic = match data.read_u16_at(12) {
        Ok(v) => v,
        Err(_) => { return None },
    };
    let isize_ = match data.read_u16_at(14) {
        Ok(v) => v,
        Err(_) => { return None },
    };
    let with_ps = isize_ as u32 == 4 * (ac as u32) + 6;
    let start = match crate::offset::resolve_required(0, off as u32, 0, data.len()) {
        Ok(p) => p,
        Err(_) => { return None },
    };
    let axes = match parse_axes_rec(data, start, ac as usize) {
        Some(v) => v,
        None => { return None },
    };
    let (axes_vec, after_axes) = axes;
    let insts = match parse_instances_rec(data, after_axes, ic as usize, ac as usize, with_ps) {
        Some(v) => v,
        None => { return None },
    };
    let (insts_vec, _) = insts;
    Some((MajorMinor { major, minor }, ac, ic, axes_vec, insts_vec))
}

/// Reading the two bytes of `be16(v)` gives back `v`.
proof fn lemma_be16_inverse(v: int)
    requires
        0 <= v <= 0xFFFF,
    ensures
        be16(v).len() == 2,
        forall|b: Seq<u8>, p: int|
            0 <= p && p + 2 <= b.len() && b.subrange(p, p + 2) == be16(v)
                ==> #[trigger] crate::font_data::be_u16_at(b, p) == v,
{
    assert forall|b: Seq<u8>, p: int|
        0 <= p && p + 2 <= b.len() && b.subrange(p, p + 2) == be16(v) implies #[trigger]
        crate::font_data::be_u16_at(b, p) == v by {
        assert(b[p] == be16(v)[0]);
        assert(b[p + 1] == be16(v)[1]);
        assert(((v / 256) % 256) * 256 + v % 256 == v) by (nonlinear_arith)
            requires
                0 <= v <= 0xFFFF,
        ;
    }
}

/// Reading the four bytes of `be32_signed(v)` as an unsigned word and
/// reapplying the sign gives back `v`.
proof fn lemma_be32_signed_inverse(v: int)
    requires
        -0x80000000 <= v <= 0x7FFFFFFF,
    ensures
        be32_signed(v).len() == 4,
        forall|b: Seq<u8>, p: int|
            0 <= p && p + 4 <= b.len() && b.subrange(p, p + 4) == be32_signed(v)
                ==> sign32(#[trigger] crate::font_data::be_u32_at(b, p)) == v,
{
    let w = if v >= 0 {
        v
    } else {
        v + 0x100000000
    };
    assert forall|b: Seq<u8>, p: int|
        0 <= p && p + 4 <= b.len() && b.subrange(p, p + 4) == be32_signed(v) implies sign32(
        #[trigger] crate::font_data::be_u32_at(b, p),
    ) == v by {
        assert(b[p] == be32_signed(v)[0]);
        assert(b[p + 1] == be32_signed(v)[1]);
        assert(b[p + 2] == be32_signed(v)[2]);
        assert(b[p + 3] == be32_signed(v)[3]);
        assert(((w / 0x1000000) % 256) * 0x1000000 + ((w / 0x10000) % 256) * 0x10000 + ((w / 256)
            % 256) * 256 + w % 256 == w) by (nonlinear_arith)
            requires
                0 <= w < 0x100000000,
        ;
    }
}

} // verus!
