//! The closed-form fast-path simulation: a discrete-time Selective-Repeat
//! ARQ loop that advances a virtual clock directly, without an event loop,
//! for fast parameter sweeps.
//!
//! Time is in ticks of 100 ns, so at the fixed 10 Mbps line rate a frame of
//! `n` bits costs exactly `n` ticks of transmission time.  Recovery is by
//! timeout alone: with deterministic delays and no jitter the timeout is
//! tight, so no selective rejects are needed here.

#![verifier::loop_isolation(false)]

use vstd::prelude::*;

use crate::channel::GilbertElliotChannel;
use crate::common::{MAX_SIM_TIME, TICKS_PER_SECOND};

verus! {

/// Size of the transferred payload used by [`simulate_arq`], in bytes.
pub const FILE_SIZE_BYTES: u64 = 100_000_000;

/// Link layer header size, in bytes.
pub const TOTAL_FRAME_OVERHEAD: u64 = 24;

/// Round trip plus the minimal margin, in ticks: the 54 ms round trip
/// (forward and reverse path delays plus two processing delays) times the
/// 1.0001 timeout margin, which is exactly 540054 ticks.
pub const BASE_TIMEOUT: u64 = 540_054;

/// The virtual clock's step when a pass makes no progress: 0.1 ms.
pub const IDLE_STEP: u64 = 1_000;

/// Largest window size the simulation accepts.
pub const MAX_WINDOW: u64 = 1_000_000;

/// Largest frame payload size the simulation accepts, in bytes.
pub const MAX_PAYLOAD: u64 = 1_000_000;

/// One in-flight frame of the discrete-time loop: when its acknowledgment
/// would come back, and whether frame and acknowledgment both crossed
/// their channels intact.
struct InFlightFrame {
    seq: u64,
    ack_receiving_time: u64,
    success: bool,
}

/// Simulation results.
pub struct SimulationStats {
    /// Primary goodput metric: useful payload bits delivered per second of
    /// simulated time, rounded down.
    pub goodput: u64,
    /// Total number of retransmissions.
    pub retransmissions: u64,
    /// Total simulated transfer time, in ticks of 100 ns.
    pub time: u64,
}

/// A frame's total cost on the wire, in ticks: payload plus link header
/// plus one byte of transport overhead, at one tick per bit.
pub open spec fn spec_frame_ticks(l: u64) -> int {
    (l + TOTAL_FRAME_OVERHEAD + 1) * 8
}

/// How many frames the payload splits into.
pub open spec fn spec_num_frames(file_size_bytes: u64, l: u64) -> int
    recommends
        l >= 1,
{
    (file_size_bytes + l - 1) as int / l as int
}

/// Two to the power `k`.
pub open spec fn spec_pow2(k: nat) -> int
    decreases k,
{
    if k == 0 {
        1
    } else {
        2 * spec_pow2((k - 1) as nat)
    }
}

/// The window entries are strictly ascending by sequence number.
spec fn window_sorted(w: Seq<InFlightFrame>) -> bool {
    forall|i: int, j: int| 0 <= i < j < w.len() ==> w[i].seq < w[j].seq
}

/// Whether some window entry carries this sequence number.
spec fn window_has(w: Seq<InFlightFrame>, s: u64) -> bool {
    exists|i: int| 0 <= i < w.len() && w[i].seq == s
}

/// The acknowledged set is strictly ascending.
spec fn acked_sorted(a: Seq<u64>) -> bool {
    forall|i: int, j: int| 0 <= i < j < a.len() ==> a[i] < a[j]
}

/// How far the virtual clock still is from its cap; the simulation's
/// termination measure, since every pass moves the clock.
spec fn ticks_left(t: u64) -> int {
    if t < MAX_SIM_TIME {
        MAX_SIM_TIME - t
    } else {
        0
    }
}

/// The number of bits of a minimal acknowledgment frame: the ceiling of
/// the base-2 logarithm of the payload size.
fn ceil_log2(l: u64) -> (r: u64)
    requires
        1 <= l <= 0x1_0000_0000,
    ensures
        spec_pow2(r as nat) >= l,
        r >= 1 ==> spec_pow2((r - 1) as nat) < l,
{
    let mut k: u64 = 0;
    let mut p: u64 = 1;
    while p < l
        invariant
            p == spec_pow2(k as nat),
            k >= 1 ==> spec_pow2((k - 1) as nat) < l,
            p >= k + 1,
            p >= 1,
            p <= 0x2_0000_0000,
        decreases 2 * l - p,
    {
        proof {
            assert(spec_pow2((k + 1) as nat) == 2 * spec_pow2(k as nat));
        }
        p = p * 2;
        k = k + 1;
    }
    k
}

/// Checks whether `s` is the sequence number of an in-flight frame.
fn window_contains(window: &Vec<InFlightFrame>, s: u64) -> (r: bool)
    ensures
        r == window_has(window@, s),
{
    let mut i: usize = 0;
    while i < window.len()
        invariant
            i <= window@.len(),
            forall|j: int| 0 <= j < i ==> window@[j].seq != s,
        decreases window@.len() - i,
    {
        if window[i].seq == s {
            return true;
        }
        i = i + 1;
    }
    false
}

/// Checks whether `s` has been acknowledged but not yet slid past.
fn acked_contains(acked: &Vec<u64>, s: u64) -> (r: bool)
    ensures
        r == acked@.contains(s),
{
    let mut i: usize = 0;
    while i < acked.len()
        invariant
            i <= acked@.len(),
            forall|j: int| 0 <= j < i ==> acked@[j] != s,
        decreases acked@.len() - i,
    {
        if acked[i] == s {
            return true;
        }
        i = i + 1;
    }
    false
}

/// Inserts a fresh in-flight frame, keeping the window sorted by sequence
/// number.
fn window_insert(window: &mut Vec<InFlightFrame>, f: InFlightFrame)
    requires
        window_sorted(old(window)@),
        !window_has(old(window)@, f.seq),
    ensures
        window_sorted(final(window)@),
        final(window)@.len() == old(window)@.len() + 1,
        forall|e: InFlightFrame|
            #[trigger] final(window)@.contains(e) <==> (old(window)@.contains(e) || e == f),
        forall|s: u64| #[trigger]
            window_has(final(window)@, s) <==> (window_has(old(window)@, s) || s == f.seq),
    {
    let mut pos: usize = 0;
    while pos < window.len() && window[pos].seq < f.seq
        invariant
            pos <= window@.len(),
            forall|j: int| 0 <= j < pos ==> window@[j].seq < f.seq,
        decreases window@.len() - pos,
    {
        pos = pos + 1;
    }
    let ghost pre = window@;
    window.insert(pos, f);
    proof {
        let post = window@;
        pre.insert_ensures(pos as int, f);
        assert forall|j: int, k: int| 0 <= j < k < post.len() implies post[j].seq < post[k].seq by {
            if pos < pre.len() {
                assert(pre[pos as int].seq >= f.seq);
                assert(pre[pos as int].seq != f.seq) by {
                    if pre[pos as int].seq == f.seq {
                        assert(window_has(pre, f.seq));
                    }
                }
            }
            if k < pos {
                assert(post[j] == pre[j] && post[k] == pre[k]);
            } else if j > pos {
                assert(post[j] == pre[j - 1] && post[k] == pre[k - 1]);
            } else if j < pos && k == pos {
                assert(post[j] == pre[j] && post[k] == f);
            } else if j < pos && k > pos {
                assert(post[j] == pre[j] && post[k] == pre[k - 1]);
            } else if j == pos && k > pos {
                assert(post[j] == f && post[k] == pre[k - 1]);
                assert(pre[pos as int].seq <= pre[k - 1].seq);
            }
        }
        assert forall|e: InFlightFrame| #[trigger]
            post.contains(e) <==> (pre.contains(e) || e == f) by {
            if post.contains(e) {
                let j = choose|j: int| 0 <= j < post.len() && post[j] == e;
                if j < pos {
                    assert(pre[j] == e);
                } else if j > pos {
                    assert(pre[j - 1] == e);
                }
            }
            if pre.contains(e) {
                let j = choose|j: int| 0 <= j < pre.len() && pre[j] == e;
                if j < pos {
                    assert(post[j] == e);
                } else {
                    assert(post[j + 1] == e);
                }
            }
            if e == f {
                assert(post[pos as int] == e);
            }
        }
        assert forall|s: u64| #[trigger]
            window_has(post, s) <==> (window_has(pre, s) || s == f.seq) by {
            if window_has(post, s) {
                let j = choose|j: int| 0 <= j < post.len() && post[j].seq == s;
                if j < pos {
                    assert(pre[j].seq == s);
                } else if j > pos {
                    assert(pre[j - 1].seq == s);
                }
            }
            if window_has(pre, s) {
                let j = choose|j: int| 0 <= j < pre.len() && pre[j].seq == s;
                if j < pos {
                    assert(post[j].seq == s);
                } else {
                    assert(post[j + 1].seq == s);
                }
            }
            if s == f.seq {
                assert(post[pos as int].seq == s);
            }
        }
    }
}

/// Records a retired sequence number, keeping the set sorted.
fn acked_insert(acked: &mut Vec<u64>, s: u64)
    requires
        acked_sorted(old(acked)@),
        !old(acked)@.contains(s),
    ensures
        acked_sorted(final(acked)@),
        final(acked)@.len() == old(acked)@.len() + 1,
        forall|x: u64| #[trigger]
            final(acked)@.contains(x) <==> (old(acked)@.contains(x) || x == s),
{
    let mut pos: usize = 0;
    while pos < acked.len() && acked[pos] < s
        invariant
            pos <= acked@.len(),
            forall|j: int| 0 <= j < pos ==> acked@[j] < s,
        decreases acked@.len() - pos,
    {
        pos = pos + 1;
    }
    let ghost pre = acked@;
    acked.insert(pos, s);
    proof {
        let post = acked@;
        pre.insert_ensures(pos as int, s);
        assert forall|j: int, k: int| 0 <= j < k < post.len() implies post[j] < post[k] by {
            if pos < pre.len() {
                assert(pre[pos as int] >= s);
                assert(pre[pos as int] != s) by {
                    if pre[pos as int] == s {
                        assert(pre.contains(s));
                    }
                }
            }
            if k < pos {
                assert(post[j] == pre[j] && post[k] == pre[k]);
            } else if j > pos {
                assert(post[j] == pre[j - 1] && post[k] == pre[k - 1]);
            } else if j < pos && k == pos {
                assert(post[j] == pre[j] && post[k] == s);
            } else if j < pos && k > pos {
                assert(post[j] == pre[j] && post[k] == pre[k - 1]);
            } else if j == pos && k > pos {
                assert(post[j] == s && post[k] == pre[k - 1]);
                assert(pre[pos as int] <= pre[k - 1]);
            }
        }
        assert forall|x: u64| #[trigger] post.contains(x) <==> (pre.contains(x) || x == s) by {
            if post.contains(x) {
                let j = choose|j: int| 0 <= j < post.len() && post[j] == x;
                if j < pos {
                    assert(pre[j] == x);
                } else if j > pos {
                    assert(pre[j - 1] == x);
                }
            }
            if pre.contains(x) {
                let j = choose|j: int| 0 <= j < pre.len() && pre[j] == x;
                if j < pos {
                    assert(post[j] == x);
                } else {
                    assert(post[j + 1] == x);
                }
            }
            if x == s {
                assert(post[pos as int] == x);
            }
        }
    }
}

/// Runs one Selective-Repeat ARQ transfer of `file_size_bytes` bytes, in
/// frames of `l` payload bytes, with window size `w`, over a fresh pair of
/// Gilbert-Elliot channels (forward for data, reverse for
/// acknowledgments), advancing a virtual clock directly.
///
/// The channel draws are random, so the outcome varies; what holds of
/// every run is the accounting: the clock pays one frame time per
/// transmission or retransmission, the final time covers at least the
/// serialized cost of every frame and every retransmission, and goodput
/// is the payload bits over the final time.  The clock is capped at
/// [`MAX_SIM_TIME`] as an overflow guard; a run that reaches the cap
/// (thousands of simulated years away) is abandoned there.
pub fn simulate_transfer(w: u64, l: u64, file_size_bytes: u64) -> (r: SimulationStats)
    requires
        1 <= w <= MAX_WINDOW,
        2 <= l <= MAX_PAYLOAD,
        1 <= file_size_bytes <= FILE_SIZE_BYTES,
    ensures
        1 <= r.time,
        r.time < MAX_SIM_TIME + spec_frame_ticks(l) * w + IDLE_STEP,
        r.goodput == file_size_bytes * 8 * TICKS_PER_SECOND / r.time as int,
        r.retransmissions * spec_frame_ticks(l) <= r.time,
        r.time >= MAX_SIM_TIME || r.time >= (spec_num_frames(file_size_bytes, l)
            + r.retransmissions) * spec_frame_ticks(l),
{
    // one byte on top of the link header accounts for transport overhead
    let frame_total_size = (l + TOTAL_FRAME_OVERHEAD + 1) * 8;
    let trans_time_per_frame = frame_total_size;
    // the 1.0001 margin on the frame time, rounded down to whole ticks
    let timeout = BASE_TIMEOUT + trans_time_per_frame + trans_time_per_frame / 10_000;
    let num_frames = (file_size_bytes + l - 1) / l;
    proof {
        assert(num_frames >= 1) by (nonlinear_arith)
            requires
                2 <= l,
                1 <= file_size_bytes,
                num_frames == (file_size_bytes + l - 1) as int / l as int,
        ;
    }
    let ack_size_bits = ceil_log2(l);
    proof {
        assert(spec_pow2(0) == 1);
        assert(ack_size_bits >= 1);
    }
    let frame_size_bits = (TOTAL_FRAME_OVERHEAD + l) * 8;

    let mut send_base: u64 = 0;
    let mut window: Vec<InFlightFrame> = Vec::new();
    let mut acked: Vec<u64> = Vec::new();

    let mut fwd_channel = GilbertElliotChannel::new();
    let mut rev_channel = GilbertElliotChannel::new();

    let mut current_time: u64 = 0;
    let mut retransmissions: u64 = 0;

    let ghost ft = spec_frame_ticks(l);
    proof {
        assert((send_base + acked@.len() + window@.len() + retransmissions) * ft == 0)
            by (nonlinear_arith)
            requires
                send_base + acked@.len() + window@.len() + retransmissions == 0,
        ;
    }

    while send_base < num_frames && current_time < MAX_SIM_TIME
        invariant
            send_base <= num_frames,
            window_sorted(window@),
            acked_sorted(acked@),
            forall|i: int|
                0 <= i < window@.len() ==> send_base <= (#[trigger] window@[i]).seq < num_frames
                    && window@[i].seq < send_base + w,
            forall|s: u64| #[trigger] acked@.contains(s) ==> send_base <= s < num_frames,
            forall|s: u64| #[trigger] acked@.contains(s) ==> !window_has(window@, s),
            (send_base + acked@.len() + window@.len() + retransmissions) * ft <= current_time,
            current_time < MAX_SIM_TIME + ft * w + IDLE_STEP,
            fwd_channel.wf(),
            rev_channel.wf(),
        decreases ticks_left(current_time),
    {
        let ghost t0 = current_time;
        let ghost sb0 = send_base;
        let window_end = if send_base + w < num_frames {
            send_base + w
        } else {
            num_frames
        };
        let mut action_taken = false;

        // send new frames, and re-send ones whose earlier try timed out
        let mut seq_num = send_base;
        while seq_num < window_end
            invariant
                send_base <= seq_num <= window_end,
                window_sorted(window@),
                forall|i: int|
                    0 <= i < window@.len() ==> send_base <= (#[trigger] window@[i]).seq
                        < num_frames && window@[i].seq < send_base + w,
                forall|s: u64| #[trigger] acked@.contains(s) ==> !window_has(window@, s),
                (send_base + acked@.len() + window@.len() + retransmissions) * ft
                    <= current_time,
                current_time <= t0 + (seq_num - sb0) * ft,
                !action_taken ==> current_time == t0,
                action_taken ==> t0 + trans_time_per_frame <= current_time,
                fwd_channel.wf(),
                rev_channel.wf(),
            decreases window_end - seq_num,
        {
            if !window_contains(&window, seq_num) && !acked_contains(&acked, seq_num) {
                let ghost sum0 = send_base + acked@.len() + window@.len() + retransmissions;
                let fwd_ok = fwd_channel.frame_success(frame_size_bits);
                let success = if fwd_ok {
                    rev_channel.frame_success(ack_size_bits)
                } else {
                    false
                };
                proof {
                    assert((sum0 + 1) * ft == sum0 * ft + ft) by (nonlinear_arith);
                    assert((seq_num + 1 - sb0) * ft == (seq_num - sb0) * ft + ft)
                        by (nonlinear_arith);
                    assert((seq_num - sb0) * ft <= 8_000_200_000_000) by (nonlinear_arith)
                        requires
                            0 <= seq_num - sb0 <= 1_000_000,
                            0 <= ft <= 8_000_200,
                    ;
                }
                let ghost pre_w = window@;
                window_insert(
                    &mut window,
                    InFlightFrame {
                        seq: seq_num,
                        ack_receiving_time: current_time + timeout,
                        success,
                    },
                );
                proof {
                    assert forall|i: int|
                        0 <= i < window@.len() implies send_base <= (#[trigger] window@[i]).seq
                        < num_frames && window@[i].seq < send_base + w by {
                        assert(window@.contains(window@[i]));
                        if pre_w.contains(window@[i]) {
                            let j = choose|j: int|
                                0 <= j < pre_w.len() && pre_w[j] == window@[i];
                        }
                    }
                }
                current_time = current_time + trans_time_per_frame;
                action_taken = true;
            } else {
                proof {
                    assert((seq_num + 1 - sb0) * ft >= (seq_num - sb0) * ft) by (nonlinear_arith)
                        requires
                            ft >= 0,
                            seq_num >= sb0,
                    ;
                }
            }
            seq_num = seq_num + 1;
        }

        // retire frames whose acknowledgment time has passed: a successful
        // one joins the acknowledged set, a failed one counts as a
        // retransmission and will be re-sent on a later pass
        while window.len() > 0 && window[0].ack_receiving_time < current_time
            invariant
                window_sorted(window@),
                acked_sorted(acked@),
                forall|i: int|
                    0 <= i < window@.len() ==> send_base <= (#[trigger] window@[i]).seq
                        < num_frames && window@[i].seq < send_base + w,
                forall|s: u64| #[trigger] acked@.contains(s) ==> send_base <= s < num_frames,
                forall|s: u64| #[trigger] acked@.contains(s) ==> !window_has(window@, s),
                (send_base + acked@.len() + window@.len() + retransmissions) * ft
                    <= current_time,
            decreases window@.len(),
        {
            let ghost pre_window = window@;
            let entry = window.remove(0);
            proof {
                pre_window.remove_ensures(0);
                assert forall|j: int, k: int| 0 <= j < k < window@.len() implies window@[j].seq
                    < window@[k].seq by {
                    assert(window@[j] == pre_window[j + 1] && window@[k] == pre_window[k + 1]);
                }
                assert forall|i: int|
                    0 <= i < window@.len() implies send_base <= (#[trigger] window@[i]).seq
                    < num_frames && window@[i].seq < send_base + w by {
                    assert(window@[i] == pre_window[i + 1]);
                }
                assert(!window_has(window@, entry.seq)) by {
                    if window_has(window@, entry.seq) {
                        let i = choose|i: int|
                            0 <= i < window@.len() && window@[i].seq == entry.seq;
                        assert(pre_window[i + 1].seq == entry.seq);
                        assert(pre_window[0].seq < pre_window[i + 1].seq);
                    }
                }
            }
            if entry.success {
                proof {
                    assert(!acked@.contains(entry.seq));
                }
                acked_insert(&mut acked, entry.seq);
            } else {
                proof {
                    let sum = send_base + acked@.len() + window@.len() + retransmissions + 1;
                    assert(sum <= sum * ft) by (nonlinear_arith)
                        requires
                            ft >= 1,
                            sum >= 0,
                    ;
                }
                retransmissions = retransmissions + 1;
            }
        }

        // slide the window base past contiguously acknowledged frames
        while acked.len() > 0 && acked[0] == send_base
            invariant
                send_base <= num_frames,
                acked_sorted(acked@),
                forall|s: u64| #[trigger] acked@.contains(s) ==> send_base <= s < num_frames,
                forall|i: int|
                    0 <= i < window@.len() ==> send_base <= (#[trigger] window@[i]).seq
                        < num_frames && window@[i].seq < send_base + w,
                forall|s: u64| #[trigger] acked@.contains(s) ==> !window_has(window@, s),
                (send_base + acked@.len() + window@.len() + retransmissions) * ft
                    <= current_time,
            decreases acked@.len(),
        {
            let ghost pre_acked = acked@;
            let ghost base0 = send_base;
            proof {
                assert(pre_acked.contains(pre_acked[0]));
                assert(!window_has(window@, send_base));
            }
            acked.remove(0);
            proof {
                pre_acked.remove_ensures(0);
            }
            send_base = send_base + 1;
            proof {
                assert forall|s: u64| #[trigger] acked@.contains(s) implies send_base <= s
                    < num_frames && !window_has(window@, s) by {
                    let i = choose|i: int| 0 <= i < acked@.len() && acked@[i] == s;
                    assert(acked@[i] == pre_acked[i + 1]);
                    assert(pre_acked[0] < pre_acked[i + 1]);
                    assert(pre_acked.contains(s));
                }
                assert forall|i: int|
                    0 <= i < window@.len() implies send_base <= (#[trigger] window@[i]).seq by {
                    if window@[i].seq == base0 {
                        assert(window_has(window@, base0));
                    }
                }
            }
        }

        if !action_taken {
            current_time = current_time + IDLE_STEP;
        }
        proof {
            assert((window_end - sb0) * ft <= w * ft && 0 <= w * ft && w * ft == ft * w)
                by (nonlinear_arith)
                requires
                    ft >= 0,
                    w >= 0,
                    0 <= window_end - sb0 <= w,
            ;
        }
    }

    proof {
        let sum_all = send_base + acked@.len() + window@.len() + retransmissions;
        assert(retransmissions * ft <= sum_all * ft) by (nonlinear_arith)
            requires
                ft >= 0,
                0 <= retransmissions <= sum_all,
        ;
        if send_base >= num_frames {
            let sum = send_base + acked@.len() + window@.len() + retransmissions;
            assert(sum >= 1);
            assert(ft <= sum * ft && (num_frames + retransmissions) * ft <= sum * ft)
                by (nonlinear_arith)
                requires
                    ft >= 1,
                    sum >= 1,
                    0 <= num_frames + retransmissions <= sum,
            ;
            assert(current_time >= 1);
        }
    }
    assert(current_time >= 1);

    let goodput = file_size_bytes * 8 * TICKS_PER_SECOND / current_time;

    SimulationStats { goodput, retransmissions, time: current_time }
}

/// Runs the Selective-Repeat ARQ simulation over the fixed 100 MB payload:
/// the fast-path entry point for parameter sweeps.  This variant recovers
/// by timeout alone, since the simulated link has no jitter or congestion;
/// see [`simulate_transfer`] for what holds of the result.
pub fn simulate_arq(w: u64, l: u64) -> (r: SimulationStats)
    requires
        1 <= w <= MAX_WINDOW,
        2 <= l <= MAX_PAYLOAD,
    ensures
        1 <= r.time,
        r.time < MAX_SIM_TIME + spec_frame_ticks(l) * w + IDLE_STEP,
        r.goodput == FILE_SIZE_BYTES * 8 * TICKS_PER_SECOND / r.time as int,
        r.retransmissions * spec_frame_ticks(l) <= r.time,
        r.time >= MAX_SIM_TIME || r.time >= (spec_num_frames(FILE_SIZE_BYTES, l)
            + r.retransmissions) * spec_frame_ticks(l),
{
    simulate_transfer(w, l, FILE_SIZE_BYTES)
}

} // verus!
