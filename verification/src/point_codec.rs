//! Greedy run-length packing of point-index arrays.
//!
//! Point indices are stored as unsigned deltas from the previously emitted
//! point (the first point is preceded by an implicit 0).  Each run starts
//! with a control byte whose high bit says whether the deltas are 16-bit
//! words or single bytes; the low seven bits hold the run length minus
//! one, so a run covers 1 to 128 points.  The whole array is prefixed by
//! a count: one byte for up to 127 points, else two bytes with the high
//! bit of the first set; a zero count byte stands for "one value per point
//! of the owning record" rather than an explicit list.
//!
//! A run decides up front whether it uses words, from whether its first
//! delta exceeds 255, and keeps consuming points while each delta's
//! required width matches that decision.

use vstd::prelude::*;

verus! {

/// Flag bit marking a run whose deltas are 16-bit words.
pub const POINTS_ARE_WORDS: u8 = 0x80;

/// Most points one run can cover: the length is stored minus one in the
/// seven low bits of the control byte.
pub const MAX_POINTS_PER_RUN: usize = 128;

/// One maximal run of a packed point-index array, as the encoder emits
/// it: the point values themselves, plus the point emitted just before
/// the run (0 for the first run), from which the first delta is taken.
#[derive(Clone, Debug, PartialEq, Eq)]
pub struct PackedPointRun {
    /// The point preceding this run; deltas chain from it.
    pub last_point: u16,
    /// Whether deltas are stored as 16-bit words.
    pub are_words: bool,
    /// The points of this run.
    pub points: Vec<u16>,
}

/// The mathematical shape of a run: what [`PackedPointRun`] denotes.
pub struct PointRunModel {
    pub last_point: int,
    pub are_words: bool,
    pub points: Seq<u16>,
}

impl View for PackedPointRun {
    type V = PointRunModel;

    open spec fn view(&self) -> PointRunModel {
        PointRunModel {
            last_point: self.last_point as int,
            are_words: self.are_words,
            points: self.points@,
        }
    }
}

impl DeepView for PackedPointRun {
    type V = PointRunModel;

    open spec fn deep_view(&self) -> PointRunModel {
        self@
    }
}

/// The point preceding position `k` of `s`, when the point before `s`
/// itself was `prev`.
pub open spec fn point_prev(s: Seq<u16>, prev: int, k: int) -> int {
    if k == 0 {
        prev
    } else {
        s[k - 1] as int
    }
}

/// Does the delta at position `k` match a run of the given width?
pub open spec fn point_matches(s: Seq<u16>, prev: int, words: bool, k: int) -> bool {
    (s[k] - point_prev(s, prev, k) > 255) == words
}

/// How many leading points of `s` match a run of the given width, before
/// any length cap.
pub open spec fn point_ext_len(s: Seq<u16>, prev: int, words: bool) -> int
    decreases s.len(),
{
    if s.len() == 0 {
        0
    } else if (s[0] - prev > 255) != words {
        0
    } else {
        1 + point_ext_len(s.skip(1), s[0] as int, words)
    }
}

/// Length of the greedy run opened at the head of `s`: as many matching
/// points as possible, capped at 128.
pub open spec fn point_run_len(s: Seq<u16>, prev: int) -> int {
    vstd::math::min(point_ext_len(s, prev, s[0] - prev > 255), 128)
}

/// The greedy run decomposition of a point array, where `prev` is the
/// point emitted before it (0 at the start).
pub open spec fn spec_point_runs(s: Seq<u16>, prev: int) -> Seq<PointRunModel>
    decreases s.len(),
    via spec_point_runs_dec
{
    if s.len() == 0 {
        Seq::empty()
    } else {
        let words = s[0] - prev > 255;
        let n = point_run_len(s, prev);
        seq![PointRunModel { last_point: prev, are_words: words, points: s.take(n) }]
            + spec_point_runs(s.skip(n), s[n - 1] as int)
    }
}

#[via_fn]
proof fn spec_point_runs_dec(s: Seq<u16>, prev: int) {
    if s.len() > 0 {
        lemma_point_ext_len_bounds(s, prev, s[0] - prev > 255);
    }
}

/// `point_ext_len` counts a matching prefix, counts the head when it
/// matches, and stops only at the end or at a mismatch.
pub proof fn lemma_point_ext_len_bounds(s: Seq<u16>, prev: int, words: bool)
    ensures
        0 <= point_ext_len(s, prev, words) <= s.len(),
        s.len() > 0 && (s[0] - prev > 255) == words ==> point_ext_len(s, prev, words) >= 1,
        forall|k: int| 0 <= k < point_ext_len(s, prev, words) ==> point_matches(s, prev, words, k),
        point_ext_len(s, prev, words) < s.len() ==> !point_matches(
            s,
            prev,
            words,
            point_ext_len(s, prev, words),
        ),
    decreases s.len(),
{
    if s.len() == 0 || (s[0] - prev > 255) != words {
    } else {
        lemma_point_ext_len_bounds(s.skip(1), s[0] as int, words);
        let n = point_ext_len(s, prev, words);
        assert forall|k: int| 0 <= k < n implies point_matches(s, prev, words, k) by {
            if k > 0 {
                assert(point_matches(s.skip(1), s[0] as int, words, k - 1));
                assert(s.skip(1)[k - 1] == s[k]);
                assert(point_prev(s.skip(1), s[0] as int, k - 1) == point_prev(s, prev, k));
            }
        }
        if n < s.len() {
            assert(!point_matches(s.skip(1), s[0] as int, words, n - 1));
            assert(s.skip(1)[n - 1] == s[n]);
            assert(point_prev(s.skip(1), s[0] as int, n - 1) == point_prev(s, prev, n));
        }
    }
}

/// A matching prefix of length `m` forces `point_ext_len` to be at least
/// `m`.
pub proof fn lemma_point_ext_len_at_least(s: Seq<u16>, prev: int, words: bool, m: int)
    requires
        0 <= m <= s.len(),
        forall|k: int| 0 <= k < m ==> point_matches(s, prev, words, k),
    ensures
        point_ext_len(s, prev, words) >= m,
    decreases m,
{
    if m > 0 {
        assert(point_matches(s, prev, words, 0));
        assert forall|k: int| 0 <= k < m - 1 implies point_matches(
            s.skip(1),
            s[0] as int,
            words,
            k,
        ) by {
            assert(point_matches(s, prev, words, k + 1));
            assert(s.skip(1)[k] == s[k + 1]);
            assert(point_prev(s.skip(1), s[0] as int, k) == point_prev(s, prev, k + 1));
            if k > 0 {
                assert(s.skip(1)[k - 1] == s[k]);
            }
        }
        lemma_point_ext_len_at_least(s.skip(1), s[0] as int, words, m - 1);
    } else {
        lemma_point_ext_len_bounds(s, prev, words);
    }
}

/// Dropping a non-empty prefix of a monotone array leaves a monotone
/// array, chaining from the last dropped point.
pub proof fn lemma_monotone_skip(s: Seq<u16>, prev: int, n: int)
    requires
        monotone_from(s, prev),
        1 <= n <= s.len(),
    ensures
        monotone_from(s.skip(n), s[n - 1] as int),
{
    assert(s.skip(n).len() > 0 ==> s.skip(n)[0] == s[n]);
    assert(s.skip(n).len() > 0 ==> s[n - 1] <= s[n]);
    assert forall|i: int| 0 <= i < s.skip(n).len() - 1 implies #[trigger] s.skip(n)[i]
        <= s.skip(n)[i + 1] by {
        assert(s.skip(n)[i] == s[n + i]);
        assert(s.skip(n)[i + 1] == s[n + i + 1]);
    }
}

/// The points a run sequence denotes: the concatenation of its runs.
pub open spec fn point_runs_values(rs: Seq<PointRunModel>) -> Seq<u16>
    decreases rs.len(),
{
    if rs.len() == 0 {
        Seq::empty()
    } else {
        rs[0].points + point_runs_values(rs.skip(1))
    }
}

/// Is the point array non-decreasing, starting from `prev`?  The encoder
/// requires this: deltas are unsigned.
pub open spec fn monotone_from(s: Seq<u16>, prev: int) -> bool {
    &&& (s.len() > 0 ==> prev <= s[0])
    &&& forall|i: int| 0 <= i < s.len() - 1 ==> #[trigger] s[i] <= s[i + 1]
}

/// Are the deltas of a run representable in its width, chaining from
/// `prev`?
pub open spec fn point_deltas_ok(pts: Seq<u16>, prev: int, words: bool) -> bool
    decreases pts.len(),
{
    if pts.len() == 0 {
        true
    } else {
        &&& 0 <= pts[0] - prev
        &&& (!words ==> pts[0] - prev <= 255)
        &&& point_deltas_ok(pts.skip(1), pts[0] as int, words)
    }
}

/// A run the control byte can describe, with encodable deltas.
pub open spec fn point_run_wf(r: PointRunModel) -> bool {
    &&& 1 <= r.points.len() <= 128
    &&& 0 <= r.last_point <= 0xFFFF
    &&& point_deltas_ok(r.points, r.last_point, r.are_words)
}

/// The greedy decomposition of a monotone point array reassembles to
/// exactly the input; its runs are well-formed and chain properly.
pub proof fn lemma_point_runs_exact(s: Seq<u16>, prev: int)
    requires
        monotone_from(s, prev),
        0 <= prev <= 0xFFFF,
    ensures
        point_runs_values(spec_point_runs(s, prev)) == s,
        forall|i: int|
            0 <= i < spec_point_runs(s, prev).len() ==> point_run_wf(
                #[trigger] spec_point_runs(s, prev)[i],
            ),
        spec_point_runs(s, prev).len() > 0 ==> spec_point_runs(s, prev)[0].last_point == prev,
    decreases s.len(),
{
    if s.len() == 0 {
        assert(point_runs_values(spec_point_runs(s, prev)) =~= s);
    } else {
        let words = s[0] - prev > 255;
        let n = point_run_len(s, prev);
        lemma_point_ext_len_bounds(s, prev, words);
        lemma_monotone_skip(s, prev, n);
        lemma_point_runs_exact(s.skip(n), s[n - 1] as int);
        let rs = spec_point_runs(s, prev);
        assert(rs.skip(1) =~= spec_point_runs(s.skip(n), s[n - 1] as int));
        assert(point_runs_values(rs) =~= s.take(n) + s.skip(n));
        assert(s.take(n) + s.skip(n) =~= s);
        assert(point_deltas_ok_prefix(s, prev, words, n)) by {
            lemma_point_deltas_ok_from_matches(s, prev, words, n);
        }
        assert forall|i: int| 0 <= i < rs.len() implies point_run_wf(#[trigger] rs[i]) by {
            if i == 0 {
                assert(rs[0].points == s.take(n));
            }
        }
    }
}

/// Helper naming: the first `n` points of `s` have encodable deltas.
pub open spec fn point_deltas_ok_prefix(s: Seq<u16>, prev: int, words: bool, n: int) -> bool {
    point_deltas_ok(s.take(n), prev, words)
}

/// Points that match a run's width have encodable deltas.
proof fn lemma_point_deltas_ok_from_matches(s: Seq<u16>, prev: int, words: bool, n: int)
    requires
        0 <= n <= s.len(),
        monotone_from(s, prev),
        forall|k: int| 0 <= k < n ==> point_matches(s, prev, words, k),
    ensures
        point_deltas_ok(s.take(n), prev, words),
    decreases n,
{
    if n > 0 {
        assert(point_matches(s, prev, words, 0));
        let t = s.take(n);
        assert(t[0] == s[0]);
        assert(t.skip(1) =~= s.skip(1).take(n - 1));
        assert(monotone_from(s.skip(1), s[0] as int)) by {
            assert(s.skip(1).len() > 0 ==> s.skip(1)[0] == s[1]);
            assert(s.skip(1).len() > 0 ==> s[0] <= s[1]);
            assert forall|i: int| 0 <= i < s.skip(1).len() - 1 implies #[trigger] s.skip(1)[i]
                <= s.skip(1)[i + 1] by {
                assert(s.skip(1)[i] == s[i + 1]);
                assert(s.skip(1)[i + 1] == s[i + 2]);
            }
        }
        assert forall|k: int| 0 <= k < n - 1 implies point_matches(
            s.skip(1),
            s[0] as int,
            words,
            k,
        ) by {
            assert(point_matches(s, prev, words, k + 1));
            assert(s.skip(1)[k] == s[k + 1]);
            assert(point_prev(s.skip(1), s[0] as int, k) == point_prev(s, prev, k + 1));
            if k > 0 {
                assert(s.skip(1)[k - 1] == s[k]);
            }
        }
        lemma_point_deltas_ok_from_matches(s.skip(1), s[0] as int, words, n - 1);
    }
}

/// Payload of a run: each point as its delta from the previous one, one
/// byte or one big-endian word each.
pub open spec fn point_payload(pts: Seq<u16>, prev: int, words: bool) -> Seq<u8>
    decreases pts.len(),
{
    if pts.len() == 0 {
        Seq::empty()
    } else {
        let d = pts[0] - prev;
        (if words {
            seq![(d / 256) as u8, (d % 256) as u8]
        } else {
            seq![d as u8]
        }) + point_payload(pts.skip(1), pts[0] as int, words)
    }
}

/// The bytes of one run: its control byte followed by its payload.
pub open spec fn point_run_bytes(r: PointRunModel) -> Seq<u8> {
    seq![
        (if r.are_words {
            0x80 + r.points.len() - 1
        } else {
            r.points.len() - 1
        }) as u8,
    ] + point_payload(r.points, r.last_point, r.are_words)
}

/// The bytes of a run sequence.
pub open spec fn point_runs_bytes(rs: Seq<PointRunModel>) -> Seq<u8>
    decreases rs.len(),
{
    if rs.len() == 0 {
        Seq::empty()
    } else {
        point_run_bytes(rs[0]) + point_runs_bytes(rs.skip(1))
    }
}

/// The count field that precedes the runs: one byte for counts up to 127,
/// else two bytes with the high bit of the first set.
pub open spec fn count_prefix(n: int) -> Seq<u8> {
    if n <= 127 {
        seq![n as u8]
    } else {
        seq![(0x80 + n / 256) as u8, (n % 256) as u8]
    }
}

/// What a packed point array encodes: its count prefix (or a zero byte
/// for "one value per point") followed by the bytes of its greedy runs.
pub open spec fn spec_encode_points(is_all: bool, s: Seq<u16>) -> Seq<u8> {
    (if is_all {
        seq![0u8]
    } else {
        count_prefix(s.len() as int)
    }) + point_runs_bytes(spec_point_runs(s, 0))
}

/// The points a payload decodes to, accumulating deltas from `prev`;
/// `None` when a sum leaves the 16-bit range.
pub open spec fn points_of_payload(p: Seq<u8>, prev: int, words: bool) -> Option<Seq<u16>>
    decreases p.len(),
{
    if p.len() == 0 {
        Some(Seq::empty())
    } else if words {
        if p.len() < 2 {
            None
        } else {
            let v = prev + p[0] * 256 + p[1];
            if v > 0xFFFF {
                None
            } else {
                match points_of_payload(p.skip(2), v, words) {
                    Some(t) => Some(seq![v as u16] + t),
                    None => None,
                }
            }
        }
    } else {
        let v = prev + p[0];
        if v > 0xFFFF {
            None
        } else {
            match points_of_payload(p.skip(1), v, words) {
                Some(t) => Some(seq![v as u16] + t),
                None => None,
            }
        }
    }
}

/// Decode runs until `n` points have been produced, chaining deltas from
/// `prev`.  Fails on truncated payloads, on a run that overruns the
/// count, and on trailing bytes.
pub open spec fn spec_decode_point_runs(b: Seq<u8>, n: int, prev: int) -> Option<Seq<u16>>
    decreases n,
{
    if n <= 0 {
        if n == 0 && b.len() == 0 {
            Some(Seq::empty())
        } else {
            None
        }
    } else if b.len() == 0 {
        None
    } else {
        let c = b[0] as int;
        let words = c >= 128;
        let cnt = c % 128 + 1;
        let w: int = if words {
            2
        } else {
            1
        };
        if cnt > n || b.len() < 1 + cnt * w {
            None
        } else {
            match points_of_payload(b.subrange(1, 1 + cnt * w), prev, words) {
                Some(pts) => {
                    if pts.len() > 0 {
                        match spec_decode_point_runs(b.skip(1 + cnt * w), n - cnt, pts.last() as int) {
                            Some(t) => Some(pts + t),
                            None => None,
                        }
                    } else {
                        None
                    }
                },
                None => None,
            }
        }
    }
}

/// Decode a whole packed point array, count prefix included.  A zero
/// count byte (the "one value per point" form) decodes to the empty
/// list, as does an explicit count of zero.
pub open spec fn spec_decode_points(b: Seq<u8>) -> Option<Seq<u16>> {
    if b.len() == 0 {
        None
    } else if b[0] < 128 {
        spec_decode_point_runs(b.skip(1), b[0] as int, 0)
    } else if b.len() >= 2 {
        spec_decode_point_runs(b.skip(2), (b[0] - 128) * 256 + b[1], 0)
    } else {
        None
    }
}

/// A payload decodes back to the points it was built from.
proof fn lemma_point_payload_inverse(pts: Seq<u16>, prev: int, words: bool)
    requires
        point_deltas_ok(pts, prev, words),
        0 <= prev <= 0xFFFF,
    ensures
        point_payload(pts, prev, words).len() == (if words {
            2int
        } else {
            1int
        }) * pts.len(),
        points_of_payload(point_payload(pts, prev, words), prev, words) == Some(pts),
    decreases pts.len(),
{
    if pts.len() > 0 {
        let d = pts[0] - prev;
        lemma_point_payload_inverse(pts.skip(1), pts[0] as int, words);
        let p = point_payload(pts, prev, words);
        if words {
            assert(p[0] == (d / 256) as u8);
            assert(p[1] == (d % 256) as u8);
            assert(0 <= d <= 0xFFFF);
            assert(d / 256 <= 255 && d % 256 <= 255) by (nonlinear_arith)
                requires
                    0 <= d <= 0xFFFF,
            ;
            assert((d / 256) * 256 + d % 256 == d) by (nonlinear_arith);
            assert(prev + p[0] * 256 + p[1] == pts[0]);
            assert(p.skip(2) =~= point_payload(pts.skip(1), pts[0] as int, words));
            assert(points_of_payload(p, prev, words) == Some(
                seq![pts[0]] + pts.skip(1),
            ));
            assert(seq![pts[0]] + pts.skip(1) =~= pts);
        } else {
            assert(0 <= d <= 255);
            assert(p[0] == d as u8);
            assert(prev + p[0] == pts[0]);
            assert(p.skip(1) =~= point_payload(pts.skip(1), pts[0] as int, words));
            assert(points_of_payload(p, prev, words) == Some(
                seq![pts[0]] + pts.skip(1),
            ));
            assert(seq![pts[0]] + pts.skip(1) =~= pts);
        }
    }
}

/// Decoding a stream that starts with the runs of a monotone point array
/// yields that array: the inductive heart of the point round trip.
#[verifier::rlimit(100)]
#[verifier::spinoff_prover]
proof fn lemma_point_runs_decode(s: Seq<u16>, prev: int)
    requires
        monotone_from(s, prev),
        0 <= prev <= 0xFFFF,
    ensures
        spec_decode_point_runs(
            point_runs_bytes(spec_point_runs(s, prev)),
            s.len() as int,
            prev,
        ) == Some(s),
    decreases s.len(),
{
    if s.len() == 0 {
        assert(point_runs_bytes(spec_point_runs(s, prev)) =~= Seq::<u8>::empty());
    } else {
        let words = s[0] - prev > 255;
        let n = point_run_len(s, prev);
        lemma_point_ext_len_bounds(s, prev, words);
        lemma_point_runs_exact(s, prev);
        let rs = spec_point_runs(s, prev);
        let r = rs[0];
        assert(r.points == s.take(n));
        assert(r.points.len() == n);
        lemma_point_payload_inverse(r.points, prev, words);
        let b = point_runs_bytes(rs);
        assert(rs.skip(1) =~= spec_point_runs(s.skip(n), s[n - 1] as int));
        let rest = point_runs_bytes(rs.skip(1));
        assert(b =~= point_run_bytes(r) + rest);
        let c = (if words {
            0x80 + n - 1
        } else {
            n - 1
        });
        assert(b[0] == c as u8);
        assert(b[0] as int == c);
        assert((c >= 128) == words);
        assert(c % 128 + 1 == n);
        let w: int = if words {
            2
        } else {
            1
        };
        assert(b.len() >= 1 + n * w);
        assert(b.subrange(1, 1 + n * w) =~= point_payload(r.points, prev, words));
        assert(b.skip(1 + n * w) =~= rest);
        assert(s.take(n).last() == s[n - 1]);
        lemma_monotone_skip(s, prev, n);
        lemma_point_runs_decode(s.skip(n), s[n - 1] as int);
        assert(s.take(n) + s.skip(n) =~= s);
    }
}

/// Round trip: encoding any non-decreasing point array of at most
/// 0x7FFF entries as an explicit list and decoding the bytes yields the
/// original array exactly.
pub proof fn lemma_point_round_trip(s: Seq<u16>)
    requires
        monotone_from(s, 0),
        s.len() <= 0x7FFF,
    ensures
        spec_decode_points(spec_encode_points(false, s)) == Some(s),
{
    let n = s.len() as int;
    lemma_point_runs_decode(s, 0);
    let b = spec_encode_points(false, s);
    let runs = point_runs_bytes(spec_point_runs(s, 0));
    if n <= 127 {
        assert(b[0] == n as u8);
        assert(b[0] < 128);
        assert(b.skip(1) =~= runs);
    } else {
        assert(n / 256 <= 127 && (n / 256) * 256 + n % 256 == n) by (nonlinear_arith)
            requires
                128 <= n <= 0x7FFF,
        ;
        assert(b[0] == (0x80 + n / 256) as u8);
        assert(b[1] == (n % 256) as u8);
        assert(b[0] >= 128);
        assert((b[0] - 128) * 256 + b[1] == n);
        assert(b.skip(2) =~= runs);
    }
}

/// Split a point array from position `i` on into greedy runs, appending
/// them to `runs`; `prev` is the point before position `i`.
#[verifier::rlimit(100)]
#[verifier::loop_isolation(false)]
fn point_runs_rec(numbers: &Vec<u16>, i: usize, prev: u16, runs: &mut Vec<PackedPointRun>)
    requires
        i <= numbers@.len(),
        monotone_from(numbers@.skip(i as int), prev as int),
    ensures
        final(runs).deep_view() == old(runs).deep_view() + spec_point_runs(
            numbers@.skip(i as int),
            prev as int,
        ),
    decreases numbers@.len() - i,
{
    let ghost s = numbers@.skip(i as int);
    if i == numbers.len() {
        proof {
            assert(s =~= Seq::<u16>::empty());
            assert(final(runs).deep_view() =~= old(runs).deep_view() + spec_point_runs(
                s,
                prev as int,
            ));
        }
        return ;
    }
    proof {
        assert(s[0] == numbers@[i as int]);
    }
    let words = numbers[i] - prev > 255;
    let mut j: usize = i + 1;
    let mut rp: u16 = numbers[i];
    proof {
        if i + 1 < numbers@.len() {
            assert(s[0] <= s[1]);
        }
    }
    while j < numbers.len() && j - i < 128 && ((numbers[j] - rp > 255) == words)
        invariant
            i + 1 <= j <= numbers@.len(),
            j - i <= 128,
            rp == numbers@[j - 1],
            j < numbers@.len() ==> rp <= numbers@[j as int],
            forall|k: int| 0 <= k < j - i ==> point_matches(s, prev as int, words, k),
        decreases numbers@.len() - j,
    {
        proof {
            assert(s[j - i] == numbers@[j as int]);
            assert(point_prev(s, prev as int, j - i) == numbers@[j - 1]);
        }
        rp = numbers[j];
        j = j + 1;
        proof {
            if j < numbers@.len() {
                assert(s[j - i - 1] <= s[j - i]);
                assert(s[j - i] == numbers@[j as int]);
            }
        }
    }
    let n = j - i;
    proof {
        lemma_point_ext_len_at_least(s, prev as int, words, n as int);
        lemma_point_ext_len_bounds(s, prev as int, words);
        if n < 128 {
            if j < numbers@.len() {
                assert(s[n as int] == numbers@[j as int]);
                assert(point_prev(s, prev as int, n as int) == numbers@[j - 1]);
                assert(!point_matches(s, prev as int, words, n as int));
                assert(point_ext_len(s, prev as int, words) == n);
            } else {
                assert(s.len() == n);
            }
        }
        assert(point_run_len(s, prev as int) == n);
    }
    let mut vals: Vec<u16> = Vec::new();
    let mut k: usize = i;
    while k < j
        invariant
            i <= k <= j,
            vals@ == numbers@.subrange(i as int, k as int),
        decreases j - k,
    {
        vals.push(numbers[k]);
        k = k + 1;
    }
    proof {
        assert(vals@ =~= s.take(n as int));
    }
    let run_last = numbers[j - 1];
    runs.push(PackedPointRun { last_point: prev, are_words: words, points: vals });
    proof {
        assert(s.skip(n as int) =~= numbers@.skip(j as int));
        assert(run_last == s[n - 1]);
        lemma_monotone_skip(s, prev as int, n as int);
        assert(s.skip(n as int) =~= numbers@.skip(j as int));
    }
    point_runs_rec(numbers, j, run_last, runs);
    proof {
        assert(spec_point_runs(s, prev as int) =~= seq![PointRunModel {
                last_point: prev as int,
                are_words: words,
                points: s.take(n as int),
            }] + spec_point_runs(numbers@.skip(j as int), run_last as int));
        assert(final(runs).deep_view() =~= old(runs).deep_view() + spec_point_runs(
            s,
            prev as int,
        ));
    }
}

/// Split a non-decreasing point array into its greedy runs.
pub fn split_point_runs(numbers: &Vec<u16>) -> (runs: Vec<PackedPointRun>)
    requires
        monotone_from(numbers@, 0),
    ensures
        runs.deep_view() == spec_point_runs(numbers@, 0),
{
    let mut runs: Vec<PackedPointRun> = Vec::new();
    proof {
        assert(numbers@.skip(0) =~= numbers@);
    }
    point_runs_rec(numbers, 0, 0, &mut runs);
    proof {
        assert(runs.deep_view() =~= spec_point_runs(numbers@, 0));
    }
    runs
}

/// Appending one point appends its delta's bytes to the payload.
proof fn lemma_point_payload_push(pts: Seq<u16>, prev: int, words: bool, v: u16)
    requires
        pts.len() > 0 ==> 0 <= v - pts.last(),
        pts.len() == 0 ==> 0 <= v - prev,
    ensures
        point_payload(pts.push(v), prev, words) == point_payload(pts, prev, words) + (if words {
            seq![((v - point_prev(pts.push(v), prev, pts.len() as int)) / 256) as u8, ((v
                - point_prev(pts.push(v), prev, pts.len() as int)) % 256) as u8]
        } else {
            seq![(v - point_prev(pts.push(v), prev, pts.len() as int)) as u8]
        }),
    decreases pts.len(),
{
    if pts.len() == 0 {
        assert(pts.push(v)[0] == v);
        assert(pts.push(v).skip(1) =~= Seq::<u16>::empty());
        assert(point_payload(Seq::<u16>::empty(), v as int, words) == Seq::<u8>::empty());
        assert(point_payload(pts.push(v), prev, words) =~= point_payload(pts, prev, words) + (
        if words {
            seq![((v - prev) / 256) as u8, ((v - prev) % 256) as u8]
        } else {
            seq![(v - prev) as u8]
        }));
    } else {
        assert(pts.push(v)[0] == pts[0]);
        assert(pts.push(v).skip(1) =~= pts.skip(1).push(v));
        if pts.len() == 1 {
            assert(pts.skip(1).len() == 0);
        } else {
            assert(pts.skip(1).last() == pts.last());
        }
        lemma_point_payload_push(pts.skip(1), pts[0] as int, words, v);
        assert(point_prev(pts.skip(1).push(v), pts[0] as int, pts.skip(1).len() as int)
            == point_prev(pts.push(v), prev, pts.len() as int));
        assert(point_payload(pts.push(v), prev, words) =~= point_payload(pts, prev, words) + (
        if words {
            seq![((v - point_prev(pts.push(v), prev, pts.len() as int)) / 256) as u8, ((v
                - point_prev(pts.push(v), prev, pts.len() as int)) % 256) as u8]
        } else {
            seq![(v - point_prev(pts.push(v), prev, pts.len() as int)) as u8]
        }));
    }
}

/// Appending one run extends the stream by that run's bytes.
proof fn lemma_point_runs_bytes_push(rs: Seq<PointRunModel>, r: PointRunModel)
    ensures
        point_runs_bytes(rs.push(r)) == point_runs_bytes(rs) + point_run_bytes(r),
    decreases rs.len(),
{
    if rs.len() == 0 {
        assert(rs.push(r)[0] == r);
        assert(rs.push(r).skip(1) =~= Seq::<PointRunModel>::empty());
        assert(point_runs_bytes(Seq::<PointRunModel>::empty()) == Seq::<u8>::empty());
        assert(point_runs_bytes(rs.push(r)) =~= point_runs_bytes(rs) + point_run_bytes(r));
    } else {
        assert(rs.push(r)[0] == rs[0]);
        assert(rs.push(r).skip(1) =~= rs.skip(1).push(r));
        lemma_point_runs_bytes_push(rs.skip(1), r);
        assert(point_runs_bytes(rs.push(r)) =~= point_runs_bytes(rs) + point_run_bytes(r));
    }
}

/// Append the bytes of one well-formed run to `out`.
#[verifier::loop_isolation(false)]
#[verifier::rlimit(60)]
fn emit_point_run(run: &PackedPointRun, out: &mut Vec<u8>)
    requires
        point_run_wf(run@),
    ensures
        final(out)@ == old(out)@ + point_run_bytes(run@),
{
    let n = run.points.len();
    if run.are_words {
        let header: u8 = POINTS_ARE_WORDS | (n - 1) as u8;
        proof {
            let m: u8 = (n - 1) as u8;
            assert(0x80u8 | m == (0x80 + m) as u8) by (bit_vector)
                requires
                    m <= 127,
            ;
        }
        out.push(header);
    } else {
        out.push((n - 1) as u8);
    }
    let mut rp: u16 = run.last_point;
    let mut k: usize = 0;
    while k < n
        invariant
            k <= n,
            rp as int == point_prev(run@.points, run@.last_point, k as int),
            out@ == old(out)@ + seq![
                (if run@.are_words {
                    0x80 + run@.points.len() - 1
                } else {
                    run@.points.len() - 1
                }) as u8,
            ] + point_payload(run@.points.take(k as int), run@.last_point, run@.are_words),
        decreases n - k,
    {
        let p = run.points[k];
        proof {
            lemma_point_deltas_ok_index(run@.points, run@.last_point, run@.are_words, k as int);
        }
        let d: u16 = p - rp;
        if run.are_words {
            out.push((d / 256) as u8);
            out.push((d % 256) as u8);
        } else {
            out.push(d as u8);
        }
        proof {
            assert(run@.points.take(k + 1) =~= run@.points.take(k as int).push(
                run@.points[k as int],
            ));
            if k > 0 {
                assert(run@.points.take(k as int).last() == run@.points[k - 1]);
            }
            lemma_point_payload_push(
                run@.points.take(k as int),
                run@.last_point,
                run@.are_words,
                run@.points[k as int],
            );
            assert(point_prev(
                run@.points.take(k as int).push(run@.points[k as int]),
                run@.last_point,
                k as int,
            ) == point_prev(run@.points, run@.last_point, k as int));
        }
        rp = p;
        k = k + 1;
    }
    proof {
        assert(run@.points.take(n as int) =~= run@.points);
        assert(final(out)@ =~= old(out)@ + point_run_bytes(run@));
    }
}

/// The delta at position `k` of a run with encodable deltas is
/// non-negative, and fits a byte in a non-word run.
proof fn lemma_point_deltas_ok_index(pts: Seq<u16>, prev: int, words: bool, k: int)
    requires
        point_deltas_ok(pts, prev, words),
        0 <= k < pts.len(),
    ensures
        0 <= pts[k] - point_prev(pts, prev, k),
        !words ==> pts[k] - point_prev(pts, prev, k) <= 255,
    decreases k,
{
    if k == 0 {
    } else {
        assert(pts.skip(1)[k - 1] == pts[k]);
        assert(point_prev(pts.skip(1), pts[0] as int, k - 1) == point_prev(pts, prev, k));
        lemma_point_deltas_ok_index(pts.skip(1), pts[0] as int, words, k - 1);
    }
}

/// Append the bytes of a sequence of well-formed runs to `out`.
#[verifier::loop_isolation(false)]
fn emit_point_runs(runs: &Vec<PackedPointRun>, out: &mut Vec<u8>)
    requires
        forall|i: int| 0 <= i < runs@.len() ==> point_run_wf(#[trigger] runs@[i]@),
    ensures
        final(out)@ == old(out)@ + point_runs_bytes(runs.deep_view()),
{
    let mut k: usize = 0;
    while k < runs.len()
        invariant
            k <= runs@.len(),
            out@ == old(out)@ + point_runs_bytes(runs.deep_view().take(k as int)),
        decreases runs@.len() - k,
    {
        proof {
            assert(runs@[k as int]@ == runs.deep_view()[k as int]);
        }
        emit_point_run(&runs[k], out);
        proof {
            assert(runs.deep_view().take(k + 1) =~= runs.deep_view().take(k as int).push(
                runs.deep_view()[k as int],
            ));
            lemma_point_runs_bytes_push(
                runs.deep_view().take(k as int),
                runs.deep_view()[k as int],
            );
        }
        k = k + 1;
    }
    proof {
        assert(runs.deep_view().take(runs@.len() as int) =~= runs.deep_view());
    }
}

/// Encode a non-decreasing point array into its packed byte stream: the
/// count prefix (a zero byte when `is_all` marks "one value per point")
/// followed by the greedy runs.
pub fn encode_packed_points(numbers: &Vec<u16>, is_all: bool) -> (out: Vec<u8>)
    requires
        monotone_from(numbers@, 0),
        numbers@.len() <= 0x7FFF,
    ensures
        out@ == spec_encode_points(is_all, numbers@),
{
    let mut out: Vec<u8> = Vec::new();
    if is_all {
        out.push(0u8);
    } else if numbers.len() <= 127 {
        out.push(numbers.len() as u8);
    } else {
        let n = numbers.len();
        proof {
            assert(n as int / 256 <= 127) by (nonlinear_arith)
                requires
                    n <= 0x7FFF,
            ;
        }
        let hi: u8 = (n / 256) as u8;
        out.push(0x80u8 | hi);
        out.push((n % 256) as u8);
        proof {
            assert(0x80u8 | hi == (0x80 + hi) as u8) by (bit_vector)
                requires
                    hi <= 127,
            ;
        }
    }
    proof {
        assert(out@ =~= if is_all {
            seq![0u8]
        } else {
            count_prefix(numbers@.len() as int)
        });
        lemma_point_runs_exact(numbers@, 0);
    }
    let runs = split_point_runs(numbers);
    proof {
        assert forall|i: int| 0 <= i < runs@.len() implies point_run_wf(#[trigger] runs@[i]@) by {
            assert(runs@[i]@ == runs.deep_view()[i]);
        }
    }
    emit_point_runs(&runs, &mut out);
    out
}

/// Decode runs from byte `i` until `n` points are produced, chaining
/// deltas from `prev`; mirrors [`spec_decode_point_runs`].
#[verifier::loop_isolation(false)]
#[verifier::rlimit(100)]
fn decode_point_runs_rec(data: &[u8], i: usize, n: usize, prev: u16) -> (r: Option<Vec<u16>>)
    requires
        i <= data@.len(),
    ensures
        match r {
            Some(v) => spec_decode_point_runs(data@.skip(i as int), n as int, prev as int)
                == Some(v@),
            None => spec_decode_point_runs(data@.skip(i as int), n as int, prev as int) is None,
        },
    decreases n,
{
    let ghost b = data@.skip(i as int);
    if n == 0 {
        if i == data.len() {
            proof {
                assert(b =~= Seq::<u8>::empty());
            }
            return Some(Vec::new());
        } else {
            return None;
        }
    }
    if i == data.len() {
        proof {
            assert(b =~= Seq::<u8>::empty());
        }
        return None;
    }
    proof {
        assert(b[0] == data@[i as int]);
    }
    let c = data[i];
    let words = c >= 128;
    let cnt: usize = (c % 128) as usize + 1;
    let w: usize = if words {
        2
    } else {
        1
    };
    if cnt > n {
        return None;
    }
    if data.len() - i - 1 < cnt * w {
        return None;
    }
    let ghost pl = b.subrange(1, 1 + (cnt * w) as int);
    proof {
        assert(pl =~= data@.subrange(i + 1, i + 1 + (cnt * w) as int));
    }
    let mut vals: Vec<u16> = Vec::new();
    let mut cur: u16 = prev;
    let mut k: usize = 0;
    proof {
        assert(pl.skip(0int) =~= pl);
        if points_of_payload(pl, prev as int, words) is Some {
            assert(Seq::<u16>::empty() + points_of_payload(pl, prev as int, words).unwrap()
                =~= points_of_payload(pl, prev as int, words).unwrap());
        }
    }
    while k < cnt
        invariant
            k <= cnt,
            vals@.len() == k,
            k > 0 ==> vals@.last() == cur,
            k == 0 ==> cur == prev,
            points_of_payload(pl, prev as int, words) == (match points_of_payload(
                pl.skip((k * w) as int),
                cur as int,
                words,
            ) {
                Some(t) => Some(vals@ + t),
                None => None::<Seq<u16>>,
            }),
        decreases cnt - k,
    {
        let ghost rest = pl.skip((k * w) as int);
        let delta: u32 = if words {
            let hi = data[i + 1 + 2 * k];
            let lo = data[i + 1 + 2 * k + 1];
            (hi as u32) * 256 + (lo as u32)
        } else {
            data[i + 1 + k] as u32
        };
        proof {
            if words {
                assert(rest[0] == pl[(2 * k) as int]);
                assert(rest[1] == pl[2 * k + 1]);
                assert(pl[(2 * k) as int] == data@[i + 1 + 2 * k]);
                assert(pl[2 * k + 1] == data@[i + 1 + 2 * k + 1]);
            } else {
                assert(rest[0] == pl[k as int]);
                assert(pl[k as int] == data@[i + 1 + k]);
            }
        }
        let v32: u32 = cur as u32 + delta;
        if v32 > 0xFFFF {
            proof {
                assert(points_of_payload(rest, cur as int, words) is None);
            }
            return None;
        }
        let v: u16 = v32 as u16;
        let ghost vals0 = vals@;
        vals.push(v);
        proof {
            assert(rest.skip(w as int) =~= pl.skip(((k + 1) * w) as int));
            assert(points_of_payload(rest, cur as int, words) == (
            match points_of_payload(pl.skip(((k + 1) * w) as int), v as int, words) {
                Some(t) => Some(seq![v] + t),
                None => None::<Seq<u16>>,
            }));
            if points_of_payload(pl.skip(((k + 1) * w) as int), v as int, words) is Some {
                let t = points_of_payload(pl.skip(((k + 1) * w) as int), v as int, words).unwrap();
                assert(vals0 + (seq![v] + t) =~= vals0.push(v) + t);
            }
        }
        cur = v;
        k = k + 1;
    }
    proof {
        assert(pl.skip((cnt * w) as int) =~= Seq::<u8>::empty());
        assert(points_of_payload(pl, prev as int, words) == Some(vals@));
        assert(vals@.len() == cnt);
    }
    match decode_point_runs_rec(data, i + 1 + cnt * w, n - cnt, cur) {
        Some(mut rest_pts) => {
            proof {
                assert(b.skip(1 + (cnt * w) as int) =~= data@.skip(i + 1 + (cnt * w) as int));
            }
            let ghost pre = vals@;
            let ghost tail = rest_pts@;
            vals.append(&mut rest_pts);
            proof {
                assert(vals@ == pre + tail);
            }
            Some(vals)
        },
        None => {
            proof {
                assert(b.skip(1 + (cnt * w) as int) =~= data@.skip(i + 1 + (cnt * w) as int));
            }
            None
        },
    }
}

/// Decode a whole packed point array, count prefix included; `None` on a
/// truncated stream.  A zero count byte decodes to the empty list.
pub fn decode_packed_points(data: &[u8]) -> (r: Option<Vec<u16>>)
    ensures
        match r {
            Some(v) => spec_decode_points(data@) == Some(v@),
            None => spec_decode_points(data@) is None,
        },
{
    if data.len() == 0 {
        return None;
    }
    let b0 = data[0];
    if b0 < 128 {
        let r = decode_point_runs_rec(data, 1, b0 as usize, 0);
        proof {
            assert(data@.skip(1) == data@.skip(1));
        }
        r
    } else if data.len() >= 2 {
        let n: usize = ((b0 - 128) as usize) * 256 + data[1] as usize;
        decode_point_runs_rec(data, 2, n, 0)
    } else {
        None
    }
}

} // verus!
