//! The write side: assembling records into one contiguous byte buffer.
//!
//! Serialization is a two-phase pass.  In the first phase an object's
//! fixed-size fields are written directly; each field that references a
//! sub-object by offset writes a placeholder (a *marker*) and queues the
//! sub-object's finished byte image.  In the second phase
//! ([`TableWriter::dump`]) the queued images are emitted after the host
//! table, in declaration order, and every marker is patched with its
//! target's final position relative to the host table's start.  An offset
//! that does not fit its declared width is a failure, never a silent
//! truncation.  The input objects are not mutated.

use vstd::prelude::*;

verus! {

/// An error from serialization.
#[derive(Clone, Debug, PartialEq, Eq)]
pub enum DumpError {
    /// Structural validation failed; one entry per problem, each with a
    /// path-like locator (table name, field name).
    Validation(Vec<ValidationError>),
    /// A resolved offset exceeds the addressable range of its declared
    /// width.
    OffsetOverflow,
}

/// One structural validation failure, located by table and field.
#[derive(Clone, Copy, Debug, PartialEq, Eq)]
pub struct ValidationError {
    pub table: &'static str,
    pub field: &'static str,
    pub message: &'static str,
}

/// Collects validation failures so that several problems can be reported
/// together rather than stopping at the first.
pub struct ValidationCtx {
    errors: Vec<ValidationError>,
}

impl ValidationCtx {
    /// The failures collected so far.
    pub closed spec fn spec_errors(&self) -> Seq<ValidationError> {
        self.errors@
    }

    /// An empty collector.
    pub fn new() -> (r: Self)
        ensures
            r.spec_errors() == Seq::<ValidationError>::empty(),
    {
        ValidationCtx { errors: Vec::new() }
    }

    /// Record one failure.
    pub fn report(&mut self, table: &'static str, field: &'static str, message: &'static str)
        ensures
            final(self).spec_errors() == old(self).spec_errors().push(
                ValidationError { table, field, message },
            ),
    {
        self.errors.push(ValidationError { table, field, message });
    }

    /// Has anything been reported?
    pub fn has_errors(&self) -> (r: bool)
        ensures
            r == (self.spec_errors().len() > 0),
    {
        self.errors.len() > 0
    }

    /// Give up the collected failures.
    pub fn into_errors(self) -> (r: Vec<ValidationError>)
        ensures
            r@ == self.spec_errors(),
    {
        self.errors
    }
}

/// One queued sub-object image together with the marker that refers to it:
/// the marker's byte position in the host image, the offset width in
/// bytes, and the image itself.
pub struct SubImage {
    pub pos: int,
    pub width: int,
    pub image: Seq<u8>,
}

/// What a writer holds: the host table's byte image (with zero
/// placeholders at marker positions) and the queued sub-objects in
/// declaration order.
pub struct WireModel {
    pub bytes: Seq<u8>,
    pub subs: Seq<SubImage>,
}

/// The contents one object contributes, appended at the end of a writer:
/// marker positions shift by the bytes already written.
pub open spec fn append_wire(a: WireModel, b: WireModel) -> WireModel {
    WireModel {
        bytes: a.bytes + b.bytes,
        subs: a.subs + b.subs.map_values(
            |s: SubImage|
                SubImage { pos: s.pos + a.bytes.len(), width: s.width, image: s.image },
        ),
    }
}

/// Markers lie fully within the host image and have an offset width of
/// 2, 3 or 4 bytes.
pub open spec fn wire_wf(w: WireModel) -> bool {
    forall|j: int|
        0 <= j < w.subs.len() ==> {
            &&& 0 <= #[trigger] w.subs[j].pos
            &&& w.subs[j].pos + w.subs[j].width <= w.bytes.len()
            &&& (w.subs[j].width == 2 || w.subs[j].width == 3 || w.subs[j].width == 4)
        }
}

/// Largest offset a field of the given width can store.
pub open spec fn width_max(w: int) -> int {
    if w == 2 {
        0xFFFF
    } else if w == 3 {
        0xFFFFFF
    } else {
        0xFFFFFFFF
    }
}

/// The big-endian bytes of a non-negative value in the given width.
pub open spec fn be_bytes(v: int, w: int) -> Seq<u8> {
    if w == 2 {
        seq![(v / 256) as u8, (v % 256) as u8]
    } else if w == 3 {
        seq![(v / 0x10000) as u8, ((v / 256) % 256) as u8, (v % 256) as u8]
    } else {
        seq![
            (v / 0x1000000) as u8,
            ((v / 0x10000) % 256) as u8,
            ((v / 256) % 256) as u8,
            (v % 256) as u8,
        ]
    }
}

/// `b` with the `w` bytes at `pos` replaced by the big-endian bytes of
/// `v`.
pub open spec fn patch_at(b: Seq<u8>, pos: int, w: int, v: int) -> Seq<u8> {
    Seq::new(
        b.len(),
        |k: int|
            if pos <= k < pos + w {
                be_bytes(v, w)[k - pos]
            } else {
                b[k]
            },
    )
}

/// Total length of the first `j` queued images.
pub open spec fn subs_len_prefix(subs: Seq<SubImage>, j: int) -> int
    decreases j,
{
    if j <= 0 {
        0
    } else {
        subs_len_prefix(subs, j - 1) + subs[j - 1].image.len()
    }
}

/// Final start position of the `j`-th queued sub-object: after the host
/// image and all earlier images.
pub open spec fn sub_start(wire: WireModel, j: int) -> int {
    wire.bytes.len() + subs_len_prefix(wire.subs, j)
}

/// The host image with the first `j` markers patched with their targets'
/// final positions.
pub open spec fn patched_root(wire: WireModel, j: int) -> Seq<u8>
    decreases j,
{
    if j <= 0 {
        wire.bytes
    } else {
        patch_at(
            patched_root(wire, j - 1),
            wire.subs[j - 1].pos,
            wire.subs[j - 1].width,
            sub_start(wire, j - 1),
        )
    }
}

/// Does every resolved offset fit its declared width?
pub open spec fn all_offsets_fit(wire: WireModel) -> bool {
    forall|j: int| 0 <= j < wire.subs.len() ==> sub_start(wire, j) <= width_max(#[trigger] wire.subs[j].width)
}

/// The queued images from index `j` on, concatenated.
pub open spec fn subs_concat(subs: Seq<SubImage>, j: int) -> Seq<u8>
    decreases subs.len() - j,
{
    if j < 0 || j >= subs.len() {
        Seq::empty()
    } else {
        subs[j].image + subs_concat(subs, j + 1)
    }
}

/// What the second phase produces: the patched host image followed by
/// the queued images in declaration order, or nothing when an offset
/// does not fit its width.
pub open spec fn spec_dump(wire: WireModel) -> Option<Seq<u8>> {
    if all_offsets_fit(wire) {
        Some(patched_root(wire, wire.subs.len() as int) + subs_concat(wire.subs, 0))
    } else {
        None
    }
}

/// A serializable record: it can state its structural validity, say
/// exactly what failures it reports, what it contributes to a writer,
/// and write itself.
pub trait FontWrite {
    /// Structural validity: what `validate_impl` checks.
    spec fn writable(&self) -> bool;

    /// The exact failures validation reports for this object, in order,
    /// each with its table and field locator.
    spec fn validation_errors(&self) -> Seq<ValidationError>;

    /// Collect this object's structural problems: appends exactly
    /// [`FontWrite::validation_errors`], so several problems are
    /// reported together, and reports nothing exactly when the object
    /// is writable.
    fn validate_impl(&self, ctx: &mut ValidationCtx)
        ensures
            final(ctx).spec_errors() == old(ctx).spec_errors() + self.validation_errors(),
            self.writable() <==> self.validation_errors().len() == 0,
    ;

    /// The writer contents this object contributes: its own byte image
    /// and the sub-objects it references.
    spec fn wire(&self) -> WireModel;

    /// First serialization phase: append this object's contribution to
    /// the writer.
    fn write_into(&self, w: &mut TableWriter)
        requires
            self.writable(),
            old(w).wf(),
        ensures
            final(w).wf(),
            final(w)@ == append_wire(old(w)@, self.wire()),
    ;
}

/// Serialize one record: validate it, run the two writer phases, and
/// return the finished buffer.  Validation failures and offsets that
/// exceed their width are errors, never silent corruption.
pub fn dump_table<T: FontWrite>(table: &T) -> (r: Result<Vec<u8>, DumpError>)
    ensures
        match r {
            Ok(out) => table.writable() && spec_dump(table.wire()) == Some(out@),
            Err(DumpError::Validation(errs)) => !table.writable() && errs@
                == table.validation_errors() && errs@.len() > 0,
            Err(DumpError::OffsetOverflow) => table.writable() && spec_dump(table.wire()) is None,
        },
{
    let mut ctx = ValidationCtx::new();
    table.validate_impl(&mut ctx);
    proof {
        assert(Seq::<ValidationError>::empty() + table.validation_errors()
            =~= table.validation_errors());
    }
    if ctx.has_errors() {
        return Err(DumpError::Validation(ctx.into_errors()));
    }
    let mut w = TableWriter::new();
    let ghost w0 = w@;
    table.write_into(&mut w);
    proof {
        assert(w@.bytes =~= table.wire().bytes);
        assert(w@.subs =~~= table.wire().subs) by {
            assert forall|j: int| 0 <= j < table.wire().subs.len() implies append_wire(
                w0,
                table.wire(),
            ).subs[j] == table.wire().subs[j] by {
                assert(append_wire(w0, table.wire()).subs[j] == table.wire().subs.map_values(
                    |s: SubImage| SubImage { pos: s.pos + 0, width: s.width, image: s.image },
                )[j]);
            }
        }
        assert(w@ == table.wire());
    }
    w.dump()
}

/// A marker: where in the host image an offset placeholder sits, how
/// wide it is, and which queued image it refers to (markers and images
/// pair up one to one, in order).
struct Marker {
    pos: usize,
    width: u8,
}

/// The first-phase writer: the host table's image under construction,
/// its markers, and the queued sub-object images.
pub struct TableWriter {
    bytes: Vec<u8>,
    markers: Vec<Marker>,
    subs: Vec<Vec<u8>>,
}

impl View for TableWriter {
    type V = WireModel;

    closed spec fn view(&self) -> WireModel {
        WireModel {
            bytes: self.bytes@,
            subs: Seq::new(
                self.subs@.len(),
                |j: int|
                    SubImage {
                        pos: self.markers@[j].pos as int,
                        width: self.markers@[j].width as int,
                        image: self.subs@[j]@,
                    },
            ),
        }
    }
}

impl TableWriter {
    /// Markers and images pair up, and markers lie within the image.
    pub closed spec fn wf(&self) -> bool {
        &&& self.markers@.len() == self.subs@.len()
        &&& wire_wf(self@)
    }

    /// An empty writer.
    pub fn new() -> (r: Self)
        ensures
            r.wf(),
            r@.bytes == Seq::<u8>::empty(),
            r@.subs == Seq::<SubImage>::empty(),
    {
        let r = TableWriter { bytes: Vec::new(), markers: Vec::new(), subs: Vec::new() };
        proof {
            assert(r@.subs =~= Seq::<SubImage>::empty());
        }
        r
    }

    /// Append one byte to the host image.
    pub fn write_u8(&mut self, v: u8)
        requires
            old(self).wf(),
        ensures
            final(self).wf(),
            final(self)@.bytes == old(self)@.bytes.push(v),
            final(self)@.subs == old(self)@.subs,
    {
        self.bytes.push(v);
        proof {
            assert(final(self)@.subs =~= old(self)@.subs);
        }
    }

    /// Append a big-endian 16-bit word to the host image.
    pub fn write_u16(&mut self, v: u16)
        requires
            old(self).wf(),
        ensures
            final(self).wf(),
            final(self)@.bytes == old(self)@.bytes + seq![(v / 256) as u8, (v % 256) as u8],
            final(self)@.subs == old(self)@.subs,
    {
        self.bytes.push((v / 256) as u8);
        self.bytes.push((v % 256) as u8);
        proof {
            assert(final(self)@.subs =~= old(self)@.subs);
            assert(final(self)@.bytes =~= old(self)@.bytes + seq![
                (v / 256) as u8,
                (v % 256) as u8,
            ]);
        }
    }

    /// Append a big-endian signed 16-bit word to the host image, as its
    /// two's-complement 16-bit pattern.
    pub fn write_i16(&mut self, v: i16)
        requires
            old(self).wf(),
        ensures
            final(self).wf(),
            final(self)@.bytes == old(self)@.bytes + seq![
                crate::delta_codec::i16_hi(v),
                crate::delta_codec::i16_lo(v),
            ],
            final(self)@.subs == old(self)@.subs,
    {
        let w: u32 = if v >= 0 {
            v as u32
        } else {
            (v as i32 + 0x10000) as u32
        };
        self.bytes.push((w / 256) as u8);
        self.bytes.push((w % 256) as u8);
        proof {
            assert(final(self)@.subs =~= old(self)@.subs);
            assert(final(self)@.bytes =~= old(self)@.bytes + seq![
                crate::delta_codec::i16_hi(v),
                crate::delta_codec::i16_lo(v),
            ]);
        }
    }

    /// Append a big-endian 32-bit word to the host image.
    pub fn write_u32(&mut self, v: u32)
        requires
            old(self).wf(),
        ensures
            final(self).wf(),
            final(self)@.bytes == old(self)@.bytes + seq![
                (v / 0x1000000) as u8,
                ((v / 0x10000) % 256) as u8,
                ((v / 256) % 256) as u8,
                (v % 256) as u8,
            ],
            final(self)@.subs == old(self)@.subs,
    {
        self.bytes.push((v / 0x1000000) as u8);
        self.bytes.push(((v / 0x10000) % 256) as u8);
        self.bytes.push(((v / 256) % 256) as u8);
        self.bytes.push((v % 256) as u8);
        proof {
            assert(final(self)@.subs =~= old(self)@.subs);
            assert(final(self)@.bytes =~= old(self)@.bytes + seq![
                (v / 0x1000000) as u8,
                ((v / 0x10000) % 256) as u8,
                ((v / 256) % 256) as u8,
                (v % 256) as u8,
            ]);
        }
    }

    /// Append the big-endian 32-bit two's-complement pattern of a signed
    /// value to the host image.
    pub fn write_i32(&mut self, v: i32)
        requires
            old(self).wf(),
        ensures
            final(self).wf(),
            final(self)@.bytes == old(self)@.bytes + crate::fvar::be32_signed(v as int),
            final(self)@.subs == old(self)@.subs,
    {
        let w: u32 = if v >= 0 {
            v as u32
        } else {
            ((v as i64) + 0x100000000i64) as u32
        };
        self.bytes.push((w / 0x1000000) as u8);
        self.bytes.push(((w / 0x10000) % 256) as u8);
        self.bytes.push(((w / 256) % 256) as u8);
        self.bytes.push((w % 256) as u8);
        proof {
            assert(final(self)@.subs =~= old(self)@.subs);
            assert(final(self)@.bytes =~= old(self)@.bytes + crate::fvar::be32_signed(v as int));
        }
    }

    /// Append raw bytes to the host image.
    pub fn write_bytes(&mut self, data: &Vec<u8>)
        requires
            old(self).wf(),
        ensures
            final(self).wf(),
            final(self)@.bytes == old(self)@.bytes + data@,
            final(self)@.subs == old(self)@.subs,
    {
        let mut k: usize = 0;
        while k < data.len()
            invariant
                k <= data@.len(),
                self.wf(),
                self@.bytes == old(self)@.bytes + data@.take(k as int),
                self@.subs == old(self)@.subs,
            decreases data@.len() - k,
        {
            let b = data[k];
            self.bytes.push(b);
            proof {
                assert(self@.subs =~= old(self)@.subs);
                assert(data@.take(k + 1) =~= data@.take(k as int).push(data@[k as int]));
                assert(self@.bytes =~= old(self)@.bytes + data@.take(k + 1));
            }
            k = k + 1;
        }
        proof {
            assert(data@.take(data@.len() as int) =~= data@);
        }
    }

    /// Write a 16-bit offset field referencing a sub-object: a two-byte
    /// placeholder now, the queued image emitted and the offset patched
    /// by [`TableWriter::dump`].
    pub fn write_offset16_sub(&mut self, image: Vec<u8>)
        requires
            old(self).wf(),
        ensures
            final(self).wf(),
            final(self)@ == append_wire(
                old(self)@,
                WireModel {
                    bytes: seq![0u8, 0u8],
                    subs: seq![SubImage { pos: 0, width: 2, image: image@ }],
                },
            ),
    {
        let pos = self.bytes.len();
        self.bytes.push(0u8);
        self.bytes.push(0u8);
        self.markers.push(Marker { pos, width: 2 });
        self.subs.push(image);
        proof {
            let w = append_wire(
                old(self)@,
                WireModel {
                    bytes: seq![0u8, 0u8],
                    subs: seq![SubImage { pos: 0, width: 2, image: image@ }],
                },
            );
            assert(final(self)@.bytes =~= w.bytes);
            assert(final(self)@.subs =~= w.subs);
            assert(wire_wf(final(self)@));
        }
    }

    /// First-phase result of a leaf object: its image, which must have
    /// queued no sub-objects.
    pub fn finish_leaf(self) -> (r: Vec<u8>)
        requires
            self.wf(),
            self@.subs.len() == 0,
        ensures
            r@ == self@.bytes,
    {
        self.bytes
    }

    /// Second phase: emit the queued sub-objects after the host image, in
    /// declaration order, and patch every marker with its target's final
    /// position relative to the host table's start.  Fails when a
    /// resolved offset exceeds its declared width.
    #[verifier::loop_isolation(false)]
    #[verifier::rlimit(100)]
    pub fn dump(self) -> (r: Result<Vec<u8>, DumpError>)
        requires
            self.wf(),
        ensures
            match r {
                Ok(out) => spec_dump(self@) == Some(out@),
                Err(DumpError::OffsetOverflow) => spec_dump(self@) is None,
                Err(DumpError::Validation(_)) => false,
            },
    {
        let ghost wire = self@;
        let TableWriter { bytes, markers, subs } = self;
        let n = markers.len();
        let mut starts: Vec<usize> = Vec::new();
        let mut acc: usize = bytes.len();
        let mut overflowed = false;
        let mut j: usize = 0;
        while j < n && !overflowed
            invariant
                j <= n,
                !overflowed && j < n ==> acc == sub_start(wire, j as int),
                !overflowed ==> starts@.len() == j,
                !overflowed ==> forall|k: int|
                    0 <= k < j ==> starts@[k] == sub_start(wire, k) && sub_start(wire, k)
                        <= width_max(wire.subs[k].width),
                overflowed ==> !all_offsets_fit(wire),
            decreases n - j, (if overflowed { 0int } else { 1int }),
        {
            let width = markers[j].width;
            let limit: usize = if width == 2 {
                0xFFFF
            } else if width == 3 {
                0xFFFFFF
            } else {
                0xFFFFFFFFusize
            };
            if acc > limit {
                proof {
                    assert(sub_start(wire, j as int) > width_max(wire.subs[j as int].width));
                }
                overflowed = true;
            } else {
                starts.push(acc);
                proof {
                    assert(subs_len_prefix(wire.subs, j + 1) == subs_len_prefix(wire.subs, j as int)
                        + wire.subs[j as int].image.len());
                }
                match acc.checked_add(subs[j].len()) {
                    Some(next) => {
                        acc = next;
                        j = j + 1;
                    },
                    None => {
                        if j + 1 < n {
                            proof {
                                assert(sub_start(wire, j + 1) > usize::MAX);
                                assert(sub_start(wire, j + 1) > width_max(wire.subs[j + 1].width));
                            }
                            overflowed = true;
                        } else {
                            // the accumulator is never read again
                            acc = 0;
                            j = j + 1;
                        }
                    },
                }
            }
        }
        if overflowed {
            return Err(DumpError::OffsetOverflow);
        }
        proof {
            assert(all_offsets_fit(wire));
        }
        let mut out = bytes;
        let mut p: usize = 0;
        while p < n
            invariant
                p <= n,
                out@ == patched_root(wire, p as int),
                out@.len() == wire.bytes.len(),
                starts@.len() == n,
                forall|k: int|
                    0 <= k < n ==> starts@[k] == sub_start(wire, k) && sub_start(wire, k)
                        <= width_max(wire.subs[k].width),
            decreases n - p,
        {
            let pos = markers[p].pos;
            let width = markers[p].width;
            let v = starts[p];
            let ghost before = out@;
            proof {
                assert(wire.subs[p as int].pos == pos as int);
                assert(wire.subs[p as int].width == width as int);
                assert(wire.subs[p as int].pos + wire.subs[p as int].width <= wire.bytes.len());
                assert(v as int == sub_start(wire, p as int));
                assert(v as int <= width_max(width as int));
            }
            if width == 2 {
                out[pos] = (v / 256) as u8;
                out[pos + 1] = (v % 256) as u8;
            } else if width == 3 {
                out[pos] = (v / 0x10000) as u8;
                out[pos + 1] = ((v / 256) % 256) as u8;
                out[pos + 2] = (v % 256) as u8;
            } else {
                out[pos] = (v / 0x1000000) as u8;
                out[pos + 1] = ((v / 0x10000) % 256) as u8;
                out[pos + 2] = ((v / 256) % 256) as u8;
                out[pos + 3] = (v % 256) as u8;
            }
            proof {
                assert(out@ =~= patch_at(
                    before,
                    wire.subs[p as int].pos,
                    wire.subs[p as int].width,
                    sub_start(wire, p as int),
                ));
            }
            p = p + 1;
        }
        let mut imgs = subs;
        let ghost patched = patched_root(wire, n as int);
        let mut q: usize = 0;
        while q < n
            invariant
                q <= n,
                imgs@.len() == n - q,
                forall|k: int| 0 <= k < n - q ==> imgs@[k]@ == wire.subs[q + k].image,
                out@ + subs_concat(wire.subs, q as int) == patched + subs_concat(wire.subs, 0),
            decreases n - q,
        {
            let mut img = imgs.remove(0);
            let ghost before = out@;
            out.append(&mut img);
            proof {
                assert(out@ == before + wire.subs[q as int].image);
                assert(before + (wire.subs[q as int].image + subs_concat(wire.subs, q + 1)) =~= (
                before + wire.subs[q as int].image) + subs_concat(wire.subs, q + 1));
            }
            q = q + 1;
        }
        proof {
            assert(subs_concat(wire.subs, n as int) =~= Seq::<u8>::empty());
            assert(out@ + Seq::<u8>::empty() =~= out@);
            assert(out@ == patched + subs_concat(wire.subs, 0));
        }
        Ok(out)
    }
}

} // verus!
