//! Greedy run-length packing of signed 16-bit delta sequences.
//!
//! A packed delta stream is a sequence of runs.  Each run starts with a
//! control byte: bit 7 set means "all deltas in this run are zero" (no
//! payload), bit 6 set means the payload holds one signed 16-bit word per
//! delta, neither set means one signed byte per delta; the low six bits
//! hold the run length minus one, so a run covers 1 to 64 deltas.
//!
//! The encoder is greedy and deterministic: leading zeros form a zero run;
//! a non-zero value opens a run in the width its first element requires,
//! which ends the moment a value needs the other width, a pair of
//! consecutive zeros begins, or the run reaches 64 elements.

use vstd::prelude::*;

verus! {

/// Flag bit marking a run whose deltas are all zero.
pub const DELTAS_ARE_ZERO: u8 = 0x80;

/// Flag bit marking a run whose deltas are stored as 16-bit words.
pub const DELTAS_ARE_WORDS: u8 = 0x40;

/// Most deltas one run can cover: the length is stored minus one in the
/// six low bits of the control byte.
pub const MAX_DELTAS_PER_RUN: usize = 64;

/// One maximal run of a packed delta stream, as the encoder emits it.
#[derive(Clone, Debug, PartialEq, Eq)]
pub enum PackedDeltaRun {
    /// `count` zeros, stored with no payload.
    Zeros(u8),
    /// Deltas stored as one signed byte each.
    OneByte(Vec<i16>),
    /// Deltas stored as one signed 16-bit word each.
    TwoBytes(Vec<i16>),
}

/// The mathematical shape of a run: what [`PackedDeltaRun`] denotes.
pub enum DeltaRunModel {
    Zeros { count: int },
    OneByte { values: Seq<i16> },
    TwoBytes { values: Seq<i16> },
}

impl View for PackedDeltaRun {
    type V = DeltaRunModel;

    open spec fn view(&self) -> DeltaRunModel {
        match self {
            PackedDeltaRun::Zeros(count) => DeltaRunModel::Zeros { count: *count as int },
            PackedDeltaRun::OneByte(values) => DeltaRunModel::OneByte { values: values@ },
            PackedDeltaRun::TwoBytes(values) => DeltaRunModel::TwoBytes { values: values@ },
        }
    }
}

impl DeepView for PackedDeltaRun {
    type V = DeltaRunModel;

    open spec fn deep_view(&self) -> DeltaRunModel {
        self@
    }
}

impl PackedDeltaRun {
    /// The control byte this run starts with: its length minus one in
    /// the low six bits, its kind in the top two.
    pub fn compute_flag(&self) -> (r: u8)
        requires
            run_wf(self@),
        ensures
            r == delta_run_bytes(self@)[0],
    {
        match self {
            PackedDeltaRun::Zeros(count) => {
                let header: u8 = *count - 1;
                proof {
                    assert(0x80u8 | header == (0x80 + header) as u8) by (bit_vector)
                        requires
                            header <= 63,
                    ;
                }
                DELTAS_ARE_ZERO | header
            },
            PackedDeltaRun::OneByte(values) => (values.len() - 1) as u8,
            PackedDeltaRun::TwoBytes(values) => {
                let header: u8 = (values.len() - 1) as u8;
                proof {
                    assert(0x40u8 | header == (0x40 + header) as u8) by (bit_vector)
                        requires
                            header <= 63,
                    ;
                }
                DELTAS_ARE_WORDS | header
            },
        }
    }
}

/// Does the value fit a signed byte?
pub open spec fn in_i8(v: i16) -> bool {
    -128 <= v <= 127
}

/// A sequence of `n` zero deltas.
pub open spec fn zero_seq(n: int) -> Seq<i16> {
    Seq::new(n as nat, |i: int| 0i16)
}

/// How many zeros the sequence starts with.
pub open spec fn leading_zeros(d: Seq<i16>) -> int
    decreases d.len(),
{
    if d.len() == 0 || d[0] != 0i16 {
        0
    } else {
        1 + leading_zeros(d.skip(1))
    }
}

/// May position 0 of `d` extend a run of the given width?  It may not when
/// it starts a pair of consecutive zeros (which must open a zero run) or
/// when its required width differs from the run's.
pub open spec fn extends_run(d: Seq<i16>, one_byte: bool) -> bool {
    &&& !(d.len() >= 2 && d[0] == 0i16 && d[1] == 0i16)
    &&& in_i8(d[0]) == one_byte
}

/// How many elements of `d` can extend an open run of the given width,
/// before any length cap.
pub open spec fn run_ext_len(d: Seq<i16>, one_byte: bool) -> int
    decreases d.len(),
{
    if d.len() == 0 {
        0
    } else if !extends_run(d, one_byte) {
        0
    } else {
        1 + run_ext_len(d.skip(1), one_byte)
    }
}

/// Length of the greedy run opened by a non-zero first element: the first
/// element plus however many can extend it, capped at 64 in all.
pub open spec fn nonzero_run_len(d: Seq<i16>) -> int {
    1 + vstd::math::min(run_ext_len(d.skip(1), in_i8(d[0])), MAX_DELTAS_PER_RUN as int - 1)
}

/// Length of the greedy zero run opened by a zero first element.
pub open spec fn zero_run_len(d: Seq<i16>) -> int {
    vstd::math::min(leading_zeros(d), MAX_DELTAS_PER_RUN as int)
}

/// The greedy run decomposition of a delta sequence.
pub open spec fn spec_delta_runs(d: Seq<i16>) -> Seq<DeltaRunModel>
    decreases d.len(),
    via spec_delta_runs_dec
{
    if d.len() == 0 {
        Seq::empty()
    } else if d[0] == 0i16 {
        let n = zero_run_len(d);
        seq![DeltaRunModel::Zeros { count: n }] + spec_delta_runs(d.skip(n))
    } else {
        let n = nonzero_run_len(d);
        if in_i8(d[0]) {
            seq![DeltaRunModel::OneByte { values: d.take(n) }] + spec_delta_runs(d.skip(n))
        } else {
            seq![DeltaRunModel::TwoBytes { values: d.take(n) }] + spec_delta_runs(d.skip(n))
        }
    }
}

#[via_fn]
proof fn spec_delta_runs_dec(d: Seq<i16>) {
    if d.len() > 0 {
        if d[0] == 0i16 {
            lemma_leading_zeros_bounds(d);
        } else {
            lemma_run_ext_len_bounds(d.skip(1), in_i8(d[0]));
        }
    }
}

/// `leading_zeros` counts a prefix of the sequence, and counts at least
/// one element when the sequence starts with a zero.
pub proof fn lemma_leading_zeros_bounds(d: Seq<i16>)
    ensures
        0 <= leading_zeros(d) <= d.len(),
        d.len() > 0 && d[0] == 0i16 ==> leading_zeros(d) >= 1,
        forall|i: int| 0 <= i < leading_zeros(d) ==> d[i] == 0i16,
        leading_zeros(d) < d.len() ==> d[leading_zeros(d)] != 0i16,
    decreases d.len(),
{
    if d.len() == 0 || d[0] != 0i16 {
    } else {
        lemma_leading_zeros_bounds(d.skip(1));
        assert forall|i: int| 0 <= i < leading_zeros(d) implies d[i] == 0i16 by {
            if i > 0 {
                assert(d.skip(1)[i - 1] == d[i]);
            }
        }
        assert(leading_zeros(d) < d.len() ==> d[leading_zeros(d)] == d.skip(1)[leading_zeros(d)
            - 1]);
    }
}

/// A prefix of zeros of length `m` forces `leading_zeros` to be at least
/// `m`.
pub proof fn lemma_leading_zeros_at_least(d: Seq<i16>, m: int)
    requires
        0 <= m <= d.len(),
        forall|i: int| 0 <= i < m ==> d[i] == 0i16,
    ensures
        leading_zeros(d) >= m,
    decreases m,
{
    if m > 0 {
        assert(d[0] == 0i16);
        assert forall|i: int| 0 <= i < m - 1 implies d.skip(1)[i] == 0i16 by {
            assert(d.skip(1)[i] == d[i + 1]);
        }
        lemma_leading_zeros_at_least(d.skip(1), m - 1);
    } else {
        lemma_leading_zeros_bounds(d);
    }
}

/// `run_ext_len` counts a prefix of the sequence, each element of which
/// extends the run, and stops only at the end or at an element that does
/// not.
pub proof fn lemma_run_ext_len_bounds(d: Seq<i16>, one_byte: bool)
    ensures
        0 <= run_ext_len(d, one_byte) <= d.len(),
        forall|i: int|
            0 <= i < run_ext_len(d, one_byte) ==> extends_run(#[trigger] d.skip(i), one_byte),
        run_ext_len(d, one_byte) < d.len() ==> !extends_run(
            d.skip(run_ext_len(d, one_byte)),
            one_byte,
        ),
    decreases d.len(),
{
    if d.len() == 0 || !extends_run(d, one_byte) {
    } else {
        lemma_run_ext_len_bounds(d.skip(1), one_byte);
        let n = run_ext_len(d, one_byte);
        assert forall|i: int| 0 <= i < n implies extends_run(#[trigger] d.skip(i), one_byte) by {
            if i > 0 {
                assert(d.skip(1).skip(i - 1) =~= d.skip(i));
                assert(extends_run(d.skip(1).skip(i - 1), one_byte));
            }
        }
        if n < d.len() {
            assert(d.skip(1).skip(n - 1) =~= d.skip(n));
        }
    }
}

/// A prefix whose every element extends the run forces `run_ext_len` to be
/// at least that long.
pub proof fn lemma_run_ext_len_at_least(d: Seq<i16>, one_byte: bool, m: int)
    requires
        0 <= m <= d.len(),
        forall|i: int| 0 <= i < m ==> extends_run(#[trigger] d.skip(i), one_byte),
    ensures
        run_ext_len(d, one_byte) >= m,
    decreases m,
{
    if m > 0 {
        assert(extends_run(d.skip(0), one_byte));
        assert(d.skip(0) =~= d);
        assert forall|i: int| 0 <= i < m - 1 implies extends_run(
            #[trigger] d.skip(1).skip(i),
            one_byte,
        ) by {
            assert(d.skip(1).skip(i) =~= d.skip(i + 1));
            assert(extends_run(d.skip(i + 1), one_byte));
        }
        lemma_run_ext_len_at_least(d.skip(1), one_byte, m - 1);
    } else {
        lemma_run_ext_len_bounds(d, one_byte);
    }
}

/// The deltas a run denotes.
pub open spec fn run_values(r: DeltaRunModel) -> Seq<i16> {
    match r {
        DeltaRunModel::Zeros { count } => zero_seq(count),
        DeltaRunModel::OneByte { values } => values,
        DeltaRunModel::TwoBytes { values } => values,
    }
}

/// The deltas a run sequence denotes: the concatenation of its runs.
pub open spec fn runs_values(rs: Seq<DeltaRunModel>) -> Seq<i16>
    decreases rs.len(),
{
    if rs.len() == 0 {
        Seq::empty()
    } else {
        run_values(rs[0]) + runs_values(rs.skip(1))
    }
}

/// A run the control byte can describe: between 1 and 64 deltas, each one
/// representable in the run's width.
pub open spec fn run_wf(r: DeltaRunModel) -> bool {
    match r {
        DeltaRunModel::Zeros { count } => 1 <= count <= 64,
        DeltaRunModel::OneByte { values } => 1 <= values.len() <= 64 && forall|i: int|
            0 <= i < values.len() ==> in_i8(#[trigger] values[i]),
        DeltaRunModel::TwoBytes { values } => 1 <= values.len() <= 64,
    }
}

/// The greedy decomposition reassembles to exactly the input, and every
/// run of it is well-formed.
pub proof fn lemma_delta_runs_exact(d: Seq<i16>)
    ensures
        runs_values(spec_delta_runs(d)) == d,
        forall|i: int|
            0 <= i < spec_delta_runs(d).len() ==> run_wf(#[trigger] spec_delta_runs(d)[i]),
    decreases d.len(),
{
    if d.len() == 0 {
        assert(runs_values(spec_delta_runs(d)) =~= d);
    } else if d[0] == 0i16 {
        lemma_leading_zeros_bounds(d);
        let n = zero_run_len(d);
        lemma_delta_runs_exact(d.skip(n));
        let rs = spec_delta_runs(d);
        assert(rs.skip(1) =~= spec_delta_runs(d.skip(n)));
        assert(zero_seq(n) =~= d.take(n));
        assert(runs_values(rs) =~= d.take(n) + d.skip(n));
        assert(d.take(n) + d.skip(n) =~= d);
    } else {
        let n = nonzero_run_len(d);
        lemma_run_ext_len_bounds(d.skip(1), in_i8(d[0]));
        lemma_delta_runs_exact(d.skip(n));
        let rs = spec_delta_runs(d);
        assert(rs.skip(1) =~= spec_delta_runs(d.skip(n)));
        assert(runs_values(rs) =~= d.take(n) + d.skip(n));
        assert(d.take(n) + d.skip(n) =~= d);
        if in_i8(d[0]) {
            assert forall|i: int| 0 <= i < n implies in_i8(#[trigger] d.take(n)[i]) by {
                if i > 0 {
                    assert(extends_run(d.skip(1).skip(i - 1), true));
                    assert(d.skip(1).skip(i - 1) =~= d.skip(i));
                    assert(d.skip(i)[0] == d[i]);
                }
            }
        }
    }
}

/// The byte that stores a signed value of byte width, two's complement.
pub open spec fn i8_byte(v: i16) -> u8 {
    (if v >= 0 {
        v as int
    } else {
        v + 256
    }) as u8
}

/// The unsigned 16-bit word that stores a signed 16-bit value.
pub open spec fn i16_word(v: i16) -> int {
    if v >= 0 {
        v as int
    } else {
        v + 0x10000
    }
}

/// High byte of the word storing a signed 16-bit value.
pub open spec fn i16_hi(v: i16) -> u8 {
    (i16_word(v) / 256) as u8
}

/// Low byte of the word storing a signed 16-bit value.
pub open spec fn i16_lo(v: i16) -> u8 {
    (i16_word(v) % 256) as u8
}

/// Payload of a one-byte run: each delta as a signed byte.
pub open spec fn one_byte_payload(vs: Seq<i16>) -> Seq<u8>
    decreases vs.len(),
{
    if vs.len() == 0 {
        Seq::empty()
    } else {
        seq![i8_byte(vs[0])] + one_byte_payload(vs.skip(1))
    }
}

/// Payload of a two-byte run: each delta as a big-endian signed word.
pub open spec fn two_byte_payload(vs: Seq<i16>) -> Seq<u8>
    decreases vs.len(),
{
    if vs.len() == 0 {
        Seq::empty()
    } else {
        seq![i16_hi(vs[0]), i16_lo(vs[0])] + two_byte_payload(vs.skip(1))
    }
}

/// The bytes of one run: its control byte followed by its payload.
pub open spec fn delta_run_bytes(r: DeltaRunModel) -> Seq<u8> {
    match r {
        DeltaRunModel::Zeros { count } => seq![(0x80 + count - 1) as u8],
        DeltaRunModel::OneByte { values } => seq![(values.len() - 1) as u8] + one_byte_payload(
            values,
        ),
        DeltaRunModel::TwoBytes { values } => seq![(0x40 + values.len() - 1) as u8]
            + two_byte_payload(values),
    }
}

/// The bytes of a run sequence.
pub open spec fn delta_runs_bytes(rs: Seq<DeltaRunModel>) -> Seq<u8>
    decreases rs.len(),
{
    if rs.len() == 0 {
        Seq::empty()
    } else {
        delta_run_bytes(rs[0]) + delta_runs_bytes(rs.skip(1))
    }
}

/// What a packed delta stream encodes: the bytes of the greedy run
/// decomposition of the deltas.
pub open spec fn spec_encode_deltas(d: Seq<i16>) -> Seq<u8> {
    delta_runs_bytes(spec_delta_runs(d))
}

/// The deltas a one-byte payload decodes to.
pub open spec fn decode_one_byte_payload(p: Seq<u8>) -> Seq<i16>
    decreases p.len(),
{
    if p.len() == 0 {
        Seq::empty()
    } else {
        seq![crate::font_data::sign8(p[0] as int) as i16] + decode_one_byte_payload(p.skip(1))
    }
}

/// The deltas a two-byte payload decodes to; payloads of odd length lose
/// their trailing byte, but the decoder never extracts one.
pub open spec fn decode_two_byte_payload(p: Seq<u8>) -> Seq<i16>
    decreases p.len(),
{
    if p.len() < 2 {
        Seq::empty()
    } else {
        seq![crate::font_data::sign16(p[0] * 256 + p[1]) as i16] + decode_two_byte_payload(
            p.skip(2),
        )
    }
}

/// The deltas a whole packed stream decodes to, reading runs until the
/// bytes are exhausted; `None` when a run's payload is truncated.
pub open spec fn spec_decode_deltas(b: Seq<u8>) -> Option<Seq<i16>>
    decreases b.len(),
{
    if b.len() == 0 {
        Some(Seq::empty())
    } else {
        let c = b[0] as int;
        let n = c % 64 + 1;
        if c >= 128 {
            match spec_decode_deltas(b.skip(1)) {
                Some(rest) => Some(zero_seq(n) + rest),
                None => None,
            }
        } else if c >= 64 {
            if b.len() >= 1 + 2 * n {
                match spec_decode_deltas(b.skip(1 + 2 * n)) {
                    Some(rest) => Some(decode_two_byte_payload(b.subrange(1, 1 + 2 * n)) + rest),
                    None => None,
                }
            } else {
                None
            }
        } else {
            if b.len() >= 1 + n {
                match spec_decode_deltas(b.skip(1 + n)) {
                    Some(rest) => Some(decode_one_byte_payload(b.subrange(1, 1 + n)) + rest),
                    None => None,
                }
            } else {
                None
            }
        }
    }
}

/// A one-byte payload decodes back to the values it was built from.
proof fn lemma_one_byte_payload_inverse(vs: Seq<i16>)
    requires
        forall|i: int| 0 <= i < vs.len() ==> in_i8(#[trigger] vs[i]),
    ensures
        one_byte_payload(vs).len() == vs.len(),
        decode_one_byte_payload(one_byte_payload(vs)) == vs,
    decreases vs.len(),
{
    if vs.len() > 0 {
        assert(vs.skip(1).len() == vs.len() - 1);
        assert(forall|i: int| 0 <= i < vs.skip(1).len() ==> in_i8(#[trigger] vs.skip(1)[i]));
        lemma_one_byte_payload_inverse(vs.skip(1));
        let p = one_byte_payload(vs);
        assert(p.skip(1) =~= one_byte_payload(vs.skip(1)));
        assert(crate::font_data::sign8(i8_byte(vs[0]) as int) == vs[0]);
        assert(decode_one_byte_payload(p) =~= vs);
    }
}

/// A two-byte payload decodes back to the values it was built from.
proof fn lemma_two_byte_payload_inverse(vs: Seq<i16>)
    ensures
        two_byte_payload(vs).len() == 2 * vs.len(),
        decode_two_byte_payload(two_byte_payload(vs)) == vs,
    decreases vs.len(),
{
    if vs.len() > 0 {
        lemma_two_byte_payload_inverse(vs.skip(1));
        let p = two_byte_payload(vs);
        assert(p.skip(2) =~= two_byte_payload(vs.skip(1)));
        assert(i16_hi(vs[0]) * 256 + i16_lo(vs[0]) == i16_word(vs[0]));
        assert(crate::font_data::sign16(i16_word(vs[0])) == vs[0]);
        assert(decode_two_byte_payload(p) =~= vs);
    }
}

/// Decoding distributes over a leading well-formed run: the run's values
/// come first, whatever follows decodes independently.
proof fn lemma_run_decode(r: DeltaRunModel, rest: Seq<u8>)
    requires
        run_wf(r),
    ensures
        spec_decode_deltas(delta_run_bytes(r) + rest) == match spec_decode_deltas(rest) {
            Some(t) => Some(run_values(r) + t),
            None => None::<Seq<i16>>,
        },
{
    let b = delta_run_bytes(r) + rest;
    match r {
        DeltaRunModel::Zeros { count } => {
            assert(b[0] == (0x80 + count - 1) as u8);
            assert(b[0] as int % 64 + 1 == count);
            assert(b.skip(1) =~= rest);
        },
        DeltaRunModel::OneByte { values } => {
            lemma_one_byte_payload_inverse(values);
            let n = values.len() as int;
            assert(b[0] == (n - 1) as u8);
            assert(b[0] as int % 64 + 1 == n);
            assert(b.len() == 1 + n + rest.len());
            assert(b.subrange(1, 1 + n) =~= one_byte_payload(values));
            assert(b.skip(1 + n) =~= rest);
        },
        DeltaRunModel::TwoBytes { values } => {
            lemma_two_byte_payload_inverse(values);
            let n = values.len() as int;
            assert(b[0] == (0x40 + n - 1) as u8);
            assert(b[0] as int % 64 + 1 == n);
            assert(b.len() == 1 + 2 * n + rest.len());
            assert(b.subrange(1, 1 + 2 * n) =~= two_byte_payload(values));
            assert(b.skip(1 + 2 * n) =~= rest);
        },
    }
}

/// Decoding inverts the byte encoding of any sequence of well-formed runs.
proof fn lemma_runs_decode(rs: Seq<DeltaRunModel>)
    requires
        forall|i: int| 0 <= i < rs.len() ==> run_wf(#[trigger] rs[i]),
    ensures
        spec_decode_deltas(delta_runs_bytes(rs)) == Some(runs_values(rs)),
    decreases rs.len(),
{
    if rs.len() == 0 {
        assert(delta_runs_bytes(rs) =~= Seq::<u8>::empty());
        assert(runs_values(rs) =~= Seq::<i16>::empty());
    } else {
        assert(forall|i: int| 0 <= i < rs.skip(1).len() ==> run_wf(#[trigger] rs.skip(1)[i]));
        lemma_runs_decode(rs.skip(1));
        lemma_run_decode(rs[0], delta_runs_bytes(rs.skip(1)));
    }
}

/// Round trip: encoding any finite delta sequence and decoding the bytes
/// yields the original sequence exactly.
pub proof fn lemma_delta_round_trip(d: Seq<i16>)
    ensures
        spec_decode_deltas(spec_encode_deltas(d)) == Some(d),
{
    lemma_delta_runs_exact(d);
    lemma_runs_decode(spec_delta_runs(d));
}

/// An empty delta sequence encodes to zero bytes.
pub proof fn lemma_empty_deltas_encode_empty()
    ensures
        spec_encode_deltas(Seq::empty()) == Seq::<u8>::empty(),
{
    assert(spec_delta_runs(Seq::empty()) =~= Seq::<DeltaRunModel>::empty());
}

/// Split the deltas from position `i` on into greedy runs, appending them
/// to `runs`.
#[verifier::rlimit(60)]
fn delta_runs_rec(deltas: &Vec<i16>, i: usize, runs: &mut Vec<PackedDeltaRun>)
    requires
        i <= deltas@.len(),
    ensures
        final(runs).deep_view() == old(runs).deep_view() + spec_delta_runs(deltas@.skip(i as int)),
    decreases deltas@.len() - i,
{
    let ghost s = deltas@.skip(i as int);
    if i == deltas.len() {
        proof {
            assert(s =~= Seq::<i16>::empty());
            assert(final(runs).deep_view() =~= old(runs).deep_view() + spec_delta_runs(s));
        }
        return ;
    }
    if deltas[i] == 0 {
        let mut j: usize = i;
        while j < deltas.len() && j - i < 64 && deltas[j] == 0
            invariant
                i <= j <= deltas@.len(),
                j - i <= 64,
                forall|k: int| i <= k < j ==> deltas@[k] == 0i16,
            decreases deltas@.len() - j,
        {
            j = j + 1;
        }
        let n = j - i;
        proof {
            assert forall|k: int| 0 <= k < n implies s[k] == 0i16 by {
                assert(s[k] == deltas@[i + k]);
            }
            lemma_leading_zeros_at_least(s, n as int);
            lemma_leading_zeros_bounds(s);
            if n < 64 {
                if j < deltas@.len() {
                    assert(s[n as int] == deltas@[j as int]);
                    assert(leading_zeros(s) == n);
                } else {
                    assert(s.len() == n);
                }
            }
            assert(zero_run_len(s) == n);
        }
        runs.push(PackedDeltaRun::Zeros(n as u8));
        proof {
            assert(s.skip(n as int) =~= deltas@.skip(j as int));
        }
        delta_runs_rec(deltas, j, runs);
        proof {
            assert(spec_delta_runs(s) =~= seq![DeltaRunModel::Zeros { count: n as int }]
                + spec_delta_runs(deltas@.skip(j as int)));
            assert(final(runs).deep_view() =~= old(runs).deep_view() + spec_delta_runs(s));
        }
    } else {
        let first = deltas[i];
        let one_b = -128 <= first && first <= 127;
        let mut j: usize = i + 1;
        while j < deltas.len() && j - i < 64 && !(deltas[j] == 0 && j + 1 < deltas.len() && deltas[j
            + 1] == 0) && ((-128 <= deltas[j] && deltas[j] <= 127) == one_b)
            invariant
                i + 1 <= j <= deltas@.len(),
                j - i <= 64,
                one_b == in_i8(deltas@[i as int]),
                forall|k: int|
                    i + 1 <= k < j ==> extends_run(#[trigger] deltas@.skip(k), one_b),
            decreases deltas@.len() - j,
        {
            proof {
                let t = deltas@.skip(j as int);
                assert(t[0] == deltas@[j as int]);
                assert(t.len() >= 2 ==> t[1] == deltas@[j + 1]);
                assert(extends_run(t, one_b));
            }
            j = j + 1;
        }
        let n = j - i;
        proof {
            let ext = s.skip(1);
            assert(ext =~= deltas@.skip(i + 1));
            assert forall|k: int| 0 <= k < n - 1 implies extends_run(
                #[trigger] ext.skip(k),
                one_b,
            ) by {
                assert(ext.skip(k) =~= deltas@.skip(i + 1 + k));
            }
            lemma_run_ext_len_at_least(ext, one_b, n - 1);
            lemma_run_ext_len_bounds(ext, one_b);
            if n < 64 {
                if j < deltas@.len() {
                    assert(ext.skip(n - 1) =~= deltas@.skip(j as int));
                    assert(deltas@.skip(j as int)[0] == deltas@[j as int]);
                    assert(deltas@.skip(j as int).len() >= 2 ==> deltas@.skip(j as int)[1]
                        == deltas@[j + 1]);
                    assert(!extends_run(deltas@.skip(j as int), one_b));
                    assert(run_ext_len(ext, one_b) == n - 1);
                } else {
                    assert(ext.len() == n - 1);
                }
            }
            assert(s[0] == deltas@[i as int]);
            assert(nonzero_run_len(s) == n);
        }
        let mut vals: Vec<i16> = Vec::new();
        let mut k: usize = i;
        while k < j
            invariant
                i <= k <= j <= deltas@.len(),
                vals@ == deltas@.subrange(i as int, k as int),
            decreases j - k,
        {
            vals.push(deltas[k]);
            k = k + 1;
        }
        proof {
            assert(vals@ =~= s.take(n as int));
        }
        if one_b {
            runs.push(PackedDeltaRun::OneByte(vals));
        } else {
            runs.push(PackedDeltaRun::TwoBytes(vals));
        }
        proof {
            assert(s.skip(n as int) =~= deltas@.skip(j as int));
        }
        delta_runs_rec(deltas, j, runs);
        proof {
            if one_b {
                assert(spec_delta_runs(s) =~= seq![DeltaRunModel::OneByte {
                        values: s.take(n as int),
                    }] + spec_delta_runs(deltas@.skip(j as int)));
            } else {
                assert(spec_delta_runs(s) =~= seq![DeltaRunModel::TwoBytes {
                        values: s.take(n as int),
                    }] + spec_delta_runs(deltas@.skip(j as int)));
            }
            assert(final(runs).deep_view() =~= old(runs).deep_view() + spec_delta_runs(s));
        }
    }
}

/// Appending one value extends a one-byte payload by its byte.
proof fn lemma_one_byte_payload_push(vs: Seq<i16>, v: i16)
    ensures
        one_byte_payload(vs.push(v)) == one_byte_payload(vs) + seq![i8_byte(v)],
    decreases vs.len(),
{
    if vs.len() == 0 {
        assert(vs.push(v)[0] == v);
        assert(vs.push(v).skip(1) =~= Seq::<i16>::empty());
        assert(one_byte_payload(Seq::<i16>::empty()) == Seq::<u8>::empty());
        assert(one_byte_payload(vs.push(v)) =~= one_byte_payload(vs) + seq![i8_byte(v)]);
    } else {
        let w = vs.push(v);
        assert(w[0] == vs[0]);
        assert(w.skip(1) =~= vs.skip(1).push(v));
        lemma_one_byte_payload_push(vs.skip(1), v);
        assert(w.len() != 0);
        assert(one_byte_payload(w) == seq![i8_byte(w[0])] + one_byte_payload(w.skip(1)));
        assert(one_byte_payload(w.skip(1)) == one_byte_payload(vs.skip(1)) + seq![i8_byte(v)]);
        assert(one_byte_payload(vs) == seq![i8_byte(vs[0])] + one_byte_payload(vs.skip(1)));
        assert(one_byte_payload(vs.push(v)) =~= one_byte_payload(vs) + seq![i8_byte(v)]);
    }
}

/// Appending one value extends a two-byte payload by its two bytes.
proof fn lemma_two_byte_payload_push(vs: Seq<i16>, v: i16)
    ensures
        two_byte_payload(vs.push(v)) == two_byte_payload(vs) + seq![i16_hi(v), i16_lo(v)],
    decreases vs.len(),
{
    if vs.len() == 0 {
        assert(vs.push(v)[0] == v);
        assert(vs.push(v).skip(1) =~= Seq::<i16>::empty());
        assert(two_byte_payload(Seq::<i16>::empty()) == Seq::<u8>::empty());
        assert(two_byte_payload(vs.push(v)) =~= two_byte_payload(vs) + seq![i16_hi(v), i16_lo(v)]);
    } else {
        assert(vs.push(v)[0] == vs[0]);
        assert(vs.push(v).skip(1) =~= vs.skip(1).push(v));
        lemma_two_byte_payload_push(vs.skip(1), v);
        assert(two_byte_payload(vs.push(v)) =~= two_byte_payload(vs) + seq![i16_hi(v), i16_lo(v)]);
    }
}

/// Appending one run extends the stream by that run's bytes.
proof fn lemma_delta_runs_bytes_push(rs: Seq<DeltaRunModel>, r: DeltaRunModel)
    ensures
        delta_runs_bytes(rs.push(r)) == delta_runs_bytes(rs) + delta_run_bytes(r),
    decreases rs.len(),
{
    if rs.len() == 0 {
        assert(rs.push(r)[0] == r);
        assert(rs.push(r).skip(1) =~= Seq::<DeltaRunModel>::empty());
        assert(delta_runs_bytes(Seq::<DeltaRunModel>::empty()) == Seq::<u8>::empty());
        assert(delta_runs_bytes(rs.push(r)) =~= delta_runs_bytes(rs) + delta_run_bytes(r));
    } else {
        assert(rs.push(r)[0] == rs[0]);
        assert(rs.push(r).skip(1) =~= rs.skip(1).push(r));
        lemma_delta_runs_bytes_push(rs.skip(1), r);
        assert(delta_runs_bytes(rs.push(r)) =~= delta_runs_bytes(rs) + delta_run_bytes(r));
    }
}

/// Append the bytes of one well-formed run to `out`.
#[verifier::loop_isolation(false)]
fn emit_delta_run(run: &PackedDeltaRun, out: &mut Vec<u8>)
    requires
        run_wf(run@),
    ensures
        final(out)@ == old(out)@ + delta_run_bytes(run@),
{
    match run {
        PackedDeltaRun::Zeros(count) => {
            let header: u8 = *count - 1;
            out.push(DELTAS_ARE_ZERO | header);
            proof {
                assert(0x80u8 | header == (0x80 + header) as u8) by (bit_vector)
                    requires
                        header <= 63,
                ;
                assert(final(out)@ =~= old(out)@ + delta_run_bytes(run@));
            }
        },
        PackedDeltaRun::OneByte(values) => {
            out.push((values.len() - 1) as u8);
            let mut k: usize = 0;
            while k < values.len()
                invariant
                    k <= values@.len(),
                    forall|i: int| 0 <= i < values@.len() ==> in_i8(#[trigger] values@[i]),
                    out@ == old(out)@ + seq![(values@.len() - 1) as u8] + one_byte_payload(
                        values@.take(k as int),
                    ),
                decreases values@.len() - k,
            {
                let v = values[k];
                let b: u8 = if v >= 0 {
                    v as u8
                } else {
                    (v + 256) as u8
                };
                out.push(b);
                proof {
                    assert(values@.take(k + 1) =~= values@.take(k as int).push(values@[k as int]));
                    lemma_one_byte_payload_push(values@.take(k as int), values@[k as int]);
                    assert(b == i8_byte(values@[k as int]));
                }
                k = k + 1;
            }
            proof {
                assert(values@.take(values@.len() as int) =~= values@);
                assert(final(out)@ =~= old(out)@ + delta_run_bytes(run@));
            }
        },
        PackedDeltaRun::TwoBytes(values) => {
            let n8: u8 = (values.len() - 1) as u8;
            out.push(DELTAS_ARE_WORDS | n8);
            proof {
                assert(0x40u8 | n8 == (0x40 + n8) as u8) by (bit_vector)
                    requires
                        n8 <= 63,
                ;
            }
            let mut k: usize = 0;
            while k < values.len()
                invariant
                    k <= values@.len(),
                    1 <= values@.len() <= 64,
                    out@ == old(out)@ + seq![(0x40 + values@.len() - 1) as u8] + two_byte_payload(
                        values@.take(k as int),
                    ),
                decreases values@.len() - k,
            {
                let v = values[k];
                let w: u32 = if v >= 0 {
                    v as u32
                } else {
                    (v as i32 + 0x10000) as u32
                };
                out.push((w / 256) as u8);
                out.push((w % 256) as u8);
                proof {
                    assert(values@.take(k + 1) =~= values@.take(k as int).push(values@[k as int]));
                    lemma_two_byte_payload_push(values@.take(k as int), values@[k as int]);
                    assert(w == i16_word(values@[k as int]));
                    assert((w / 256) as u8 == i16_hi(values@[k as int]));
                    assert((w % 256) as u8 == i16_lo(values@[k as int]));
                }
                k = k + 1;
            }
            proof {
                assert(values@.take(values@.len() as int) =~= values@);
                assert(final(out)@ =~= old(out)@ + delta_run_bytes(run@));
            }
        },
    }
}

/// Encode a delta sequence into its packed byte stream.
#[verifier::loop_isolation(false)]
pub fn encode_packed_deltas(deltas: &Vec<i16>) -> (out: Vec<u8>)
    ensures
        out@ == spec_encode_deltas(deltas@),
{
    let runs = split_delta_runs(deltas);
    proof {
        lemma_delta_runs_exact(deltas@);
    }
    proof {
        assert forall|i: int| 0 <= i < runs@.len() implies run_wf(#[trigger] runs@[i]@) by {
            assert(runs@[i]@ == runs.deep_view()[i]);
        }
    }
    let mut out: Vec<u8> = Vec::new();
    let mut k: usize = 0;
    while k < runs.len()
        invariant
            k <= runs@.len(),
            runs.deep_view() == spec_delta_runs(deltas@),
            forall|i: int| 0 <= i < runs@.len() ==> run_wf(#[trigger] runs@[i]@),
            out@ == delta_runs_bytes(runs.deep_view().take(k as int)),
        decreases runs@.len() - k,
    {
        proof {
            assert(runs@[k as int]@ == runs.deep_view()[k as int]);
        }
        emit_delta_run(&runs[k], &mut out);
        proof {
            assert(runs.deep_view().take(k + 1) =~= runs.deep_view().take(k as int).push(
                runs.deep_view()[k as int],
            ));
            lemma_delta_runs_bytes_push(runs.deep_view().take(k as int), runs.deep_view()[k as int]);
        }
        k = k + 1;
    }
    proof {
        assert(runs.deep_view().take(runs@.len() as int) =~= runs.deep_view());
    }
    out
}

/// Decode the packed delta stream starting at byte `i`, reading runs until
/// the bytes are exhausted.  Fails exactly when a run's payload is
/// truncated.
#[verifier::loop_isolation(false)]
fn decode_deltas_rec(data: &[u8], i: usize) -> (r: Option<Vec<i16>>)
    requires
        i <= data@.len(),
    ensures
        match r {
            Some(v) => spec_decode_deltas(data@.skip(i as int)) == Some(v@),
            None => spec_decode_deltas(data@.skip(i as int)) is None,
        },
    decreases data@.len() - i,
{
    let ghost s = data@.skip(i as int);
    if i == data.len() {
        proof {
            assert(s =~= Seq::<u8>::empty());
        }
        return Some(Vec::new());
    }
    proof {
        assert(s[0] == data@[i as int]);
    }
    let c = data[i];
    let n: usize = (c % 64) as usize + 1;
    if c >= 128 {
        let mut vals: Vec<i16> = Vec::new();
        let mut k: usize = 0;
        while k < n
            invariant
                k <= n,
                vals@ == zero_seq(k as int),
            decreases n - k,
        {
            vals.push(0i16);
            proof {
                assert(vals@ =~= zero_seq(k + 1));
            }
            k = k + 1;
        }
        match decode_deltas_rec(data, i + 1) {
            Some(mut rest) => {
                proof {
                    assert(s.skip(1) =~= data@.skip(i + 1));
                }
                let ghost pre = vals@;
                let ghost tail = rest@;
                vals.append(&mut rest);
                proof {
                    assert(vals@ == pre + tail);
                }
                Some(vals)
            },
            None => {
                proof {
                    assert(s.skip(1) =~= data@.skip(i + 1));
                }
                None
            },
        }
    } else if c >= 64 {
        if data.len() - i - 1 < 2 * n {
            return None;
        }
        let mut vals: Vec<i16> = Vec::new();
        let mut k: usize = 0;
        while k < n
            invariant
                k <= n,
                i + 1 + 2 * n <= data@.len(),
                c == data@[i as int],
                n == c % 64 + 1,
                64 <= c < 128,
                vals@ == decode_two_byte_payload(data@.subrange(i + 1, i + 1 + 2 * k as int)),
            decreases n - k,
        {
            let hi = data[i + 1 + 2 * k];
            let lo = data[i + 1 + 2 * k + 1];
            let w: u32 = (hi as u32) * 256 + (lo as u32);
            let v: i16 = if w < 0x8000 {
                w as i16
            } else {
                (w as i32 - 0x10000) as i16
            };
            vals.push(v);
            proof {
                lemma_decode_two_take(data@, i as int, k as int);
                assert(v as int == crate::font_data::sign16(
                    data@[i + 1 + 2 * k] * 256 + data@[i + 1 + 2 * k + 1],
                ));
            }
            k = k + 1;
        }
        match decode_deltas_rec(data, i + 1 + 2 * n) {
            Some(mut rest) => {
                proof {
                    assert(s.skip(1 + 2 * n) =~= data@.skip(i + 1 + 2 * n));
                    assert(data@.subrange(i + 1, i + 1 + 2 * n as int) =~= s.subrange(
                        1,
                        1 + 2 * n as int,
                    ));
                }
                let ghost pre = vals@;
                let ghost tail = rest@;
                vals.append(&mut rest);
                proof {
                    assert(vals@ == pre + tail);
                }
                Some(vals)
            },
            None => {
                proof {
                    assert(s.skip(1 + 2 * n) =~= data@.skip(i + 1 + 2 * n));
                }
                None
            },
        }
    } else {
        if data.len() - i - 1 < n {
            return None;
        }
        let mut vals: Vec<i16> = Vec::new();
        let mut k: usize = 0;
        while k < n
            invariant
                k <= n,
                i + 1 + n <= data@.len(),
                c == data@[i as int],
                n == c % 64 + 1,
                c < 64,
                vals@ == decode_one_byte_payload(data@.subrange(i + 1, i + 1 + k as int)),
            decreases n - k,
        {
            let b = data[i + 1 + k];
            let v: i16 = if b < 128 {
                b as i16
            } else {
                (b as i16) - 256
            };
            vals.push(v);
            proof {
                lemma_decode_one_take(data@, i as int, k as int);
                assert(v as int == crate::font_data::sign8(data@[i + 1 + k] as int));
            }
            k = k + 1;
        }
        match decode_deltas_rec(data, i + 1 + n) {
            Some(mut rest) => {
                proof {
                    assert(s.skip(1 + n as int) =~= data@.skip(i + 1 + n));
                    assert(data@.subrange(i + 1, i + 1 + n as int) =~= s.subrange(
                        1,
                        1 + n as int,
                    ));
                }
                let ghost pre = vals@;
                let ghost tail = rest@;
                vals.append(&mut rest);
                proof {
                    assert(vals@ == pre + tail);
                }
                Some(vals)
            },
            None => {
                proof {
                    assert(s.skip(1 + n as int) =~= data@.skip(i + 1 + n));
                }
                None
            },
        }
    }
}

/// One step of the one-byte payload decode, as a take-prefix equation.
proof fn lemma_decode_one_take(d: Seq<u8>, i: int, k: int)
    requires
        0 <= i,
        0 <= k,
        i + 1 + k + 1 <= d.len(),
    ensures
        decode_one_byte_payload(d.subrange(i + 1, i + 1 + k + 1)) == decode_one_byte_payload(
            d.subrange(i + 1, i + 1 + k),
        ) + seq![crate::font_data::sign8(d[i + 1 + k] as int) as i16],
{
    lemma_decode_one_push(d.subrange(i + 1, i + 1 + k), d[i + 1 + k]);
    assert(d.subrange(i + 1, i + 1 + k + 1) =~= d.subrange(i + 1, i + 1 + k).push(d[i + 1 + k]));
}

/// Appending a byte appends its decoded value.
proof fn lemma_decode_one_push(p: Seq<u8>, b: u8)
    ensures
        decode_one_byte_payload(p.push(b)) == decode_one_byte_payload(p) + seq![
            crate::font_data::sign8(b as int) as i16,
        ],
    decreases p.len(),
{
    if p.len() == 0 {
        assert(p.push(b)[0] == b);
        assert(p.push(b).skip(1) =~= Seq::<u8>::empty());
        assert(decode_one_byte_payload(Seq::<u8>::empty()) == Seq::<i16>::empty());
        assert(decode_one_byte_payload(p.push(b)) =~= decode_one_byte_payload(p) + seq![
            crate::font_data::sign8(b as int) as i16,
        ]);
    } else {
        assert(p.push(b)[0] == p[0]);
        assert(p.push(b).skip(1) =~= p.skip(1).push(b));
        lemma_decode_one_push(p.skip(1), b);
        assert(decode_one_byte_payload(p.push(b)) =~= decode_one_byte_payload(p) + seq![
            crate::font_data::sign8(b as int) as i16,
        ]);
    }
}

/// One step of the two-byte payload decode, as a take-prefix equation.
proof fn lemma_decode_two_take(d: Seq<u8>, i: int, k: int)
    requires
        0 <= i,
        0 <= k,
        i + 1 + 2 * k + 2 <= d.len(),
    ensures
        decode_two_byte_payload(d.subrange(i + 1, i + 1 + 2 * k + 2)) == decode_two_byte_payload(
            d.subrange(i + 1, i + 1 + 2 * k),
        ) + seq![crate::font_data::sign16(d[i + 1 + 2 * k] * 256 + d[i + 1 + 2 * k + 1]) as i16],
{
    lemma_decode_two_push(d.subrange(i + 1, i + 1 + 2 * k), d[i + 1 + 2 * k], d[i + 1 + 2 * k + 1]);
    assert(d.subrange(i + 1, i + 1 + 2 * k + 2) =~= d.subrange(i + 1, i + 1 + 2 * k).push(
        d[i + 1 + 2 * k],
    ).push(d[i + 1 + 2 * k + 1]));
}

/// Appending a byte pair appends its decoded value, when the payload had
/// even length.
proof fn lemma_decode_two_push(p: Seq<u8>, hi: u8, lo: u8)
    requires
        p.len() % 2 == 0,
    ensures
        decode_two_byte_payload(p.push(hi).push(lo)) == decode_two_byte_payload(p) + seq![
            crate::font_data::sign16(hi * 256 + lo) as i16,
        ],
    decreases p.len(),
{
    if p.len() == 0 {
        assert(p.push(hi).push(lo)[0] == hi);
        assert(p.push(hi).push(lo)[1] == lo);
        assert(p.push(hi).push(lo).skip(2) =~= Seq::<u8>::empty());
        assert(decode_two_byte_payload(Seq::<u8>::empty()) == Seq::<i16>::empty());
        assert(decode_two_byte_payload(p.push(hi).push(lo)) =~= decode_two_byte_payload(p) + seq![
            crate::font_data::sign16(hi * 256 + lo) as i16,
        ]);
    } else {
        assert(p.len() >= 2);
        assert(p.push(hi).push(lo).skip(2) =~= p.skip(2).push(hi).push(lo));
        lemma_decode_two_push(p.skip(2), hi, lo);
        assert(p.push(hi).push(lo)[0] == p[0]);
        assert(p.push(hi).push(lo)[1] == p[1]);
        assert(decode_two_byte_payload(p.push(hi).push(lo)) =~= decode_two_byte_payload(p) + seq![
            crate::font_data::sign16(hi * 256 + lo) as i16,
        ]);
    }
}

/// Decode a whole packed delta stream; `None` when a run's payload is
/// truncated.
pub fn decode_packed_deltas(data: &[u8]) -> (r: Option<Vec<i16>>)
    ensures
        match r {
            Some(v) => spec_decode_deltas(data@) == Some(v@),
            None => spec_decode_deltas(data@) is None,
        },
{
    let r = decode_deltas_rec(data, 0);
    proof {
        assert(data@.skip(0) =~= data@);
    }
    r
}

/// Split a delta sequence into its greedy runs.
pub fn split_delta_runs(deltas: &Vec<i16>) -> (runs: Vec<PackedDeltaRun>)
    ensures
        runs.deep_view() == spec_delta_runs(deltas@),
{
    let mut runs: Vec<PackedDeltaRun> = Vec::new();
    delta_runs_rec(deltas, 0, &mut runs);
    proof {
        assert(deltas@.skip(0) =~= deltas@);
        assert(runs.deep_view() =~= spec_delta_runs(deltas@));
    }
    runs
}

} // verus!
