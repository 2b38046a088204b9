//! The two-state (Gilbert-Elliot) channel error model.
//!
//! The channel is a Markov process over a good and a bad state; each state
//! has its own per-bit error rate and its own per-bit probability of
//! switching to the other state.  Two statistically equivalent forms of the
//! model live here:
//!
//! * [`transmit_bits`] is the bit-by-bit baseline: one uniform draw per bit
//!   decides both corruption and a possible state transition;
//! * [`GilbertElliotChannel`] is the jump-ahead form: it keeps the sampled
//!   distance to the next state transition as a standing field and consumes
//!   a whole run of same-state bits as one chunk, deciding the chunk's
//!   corruption with per-bit draws only until the first error (further bits
//!   of an already corrupted frame need no draw, since one bit error already
//!   spoils the frame and each bit errs independently).

#![verifier::loop_isolation(false)]

use vstd::prelude::*;

use crate::common::{
    BAD_STATE_BER_PPB, GOOD_STATE_BER_PPB, PPB_SCALE, P_B_TO_G_PPB, P_G_TO_B_PPB,
};
use crate::rng::draw_below;

verus! {

/// Largest distance to the next state transition, in bits, that one sample
/// may report.  This guard keeps the arithmetic bounded; for the fixed
/// transition probabilities the truncated tail of the geometric
/// distribution has probability far below 10^-900.
pub const MAX_TRANSITION_GAP: i64 = 1_048_576;

/// Samples how many bits the channel stays in its current state: the number
/// of Bernoulli(`p_ppb` / [`PPB_SCALE`]) trials up to and including the
/// first success, a geometric distribution on {1, 2, ...}, truncated at
/// [`MAX_TRANSITION_GAP`].
fn sample_transition_gap(p_ppb: u64) -> (r: i64)
    requires
        1 <= p_ppb < PPB_SCALE,
    ensures
        1 <= r <= MAX_TRANSITION_GAP,
{
    let mut count: i64 = 1;
    while count < MAX_TRANSITION_GAP
        invariant
            1 <= count <= MAX_TRANSITION_GAP,
        decreases MAX_TRANSITION_GAP - count,
    {
        if draw_below(PPB_SCALE) < p_ppb {
            return count;
        }
        count = count + 1;
    }
    count
}

/// Whether a run of `num_bits` same-state bits suffers at least one bit
/// error: each bit errs independently with probability `ber_ppb` /
/// [`PPB_SCALE`], so the run is corrupted with probability
/// 1 - (1 - `ber_ppb` / [`PPB_SCALE`])^`num_bits`, and drawing per bit only
/// until the first error samples exactly that.
fn chunk_corrupted(ber_ppb: u64, num_bits: u64) -> (r: bool)
    requires
        ber_ppb < PPB_SCALE,
{
    let mut i: u64 = 0;
    while i < num_bits
        invariant
            i <= num_bits,
        decreases num_bits - i,
    {
        if draw_below(PPB_SCALE) < ber_ppb {
            return true;
        }
        i = i + 1;
    }
    false
}

/// The bit-by-bit baseline form of the error model.  Starting from `state`
/// (`true` is the good state), transmits `num_bits` bits: per bit, one
/// uniform draw decides corruption (sticky once set) and, against the
/// state's transition threshold, whether the next bit starts in the other
/// state.  Returns whether any bit was corrupted and the state after the
/// last bit.  The result is random; only the shape of the outcome can be
/// promised.
pub fn transmit_bits(state: bool, num_bits: u64) -> (r: (bool, bool))
    requires
        num_bits >= 1,
{
    let mut corrupted: bool = false;
    let mut next_state: bool = state;
    let mut i: u64 = 0;
    while i < num_bits
        invariant
            i <= num_bits,
        decreases num_bits - i,
    {
        let draw = draw_below(PPB_SCALE);
        if next_state {
            if draw < GOOD_STATE_BER_PPB {
                corrupted = true;
            }
            if draw < P_G_TO_B_PPB {
                next_state = false;
            }
        } else {
            if draw < BAD_STATE_BER_PPB {
                corrupted = true;
            }
            if draw < P_B_TO_G_PPB {
                next_state = true;
            }
        }
        i = i + 1;
    }
    (corrupted, next_state)
}

/// The jump-ahead form of the error model: tracks the sampled distance to
/// the next state transition so that a frame is consumed in whole
/// same-state chunks instead of strictly bit by bit.
pub struct GilbertElliotChannel {
    /// `true` is the good state.
    state: bool,
    /// Bits left before the next state transition; always at least 1.
    bits_until_next_state_change: i64,
}

impl GilbertElliotChannel {
    /// The standing transition distance is in its sampled range.
    pub closed spec fn wf(&self) -> bool {
        1 <= self.bits_until_next_state_change <= MAX_TRANSITION_GAP
    }

    /// Creates a new channel, in the good state.
    pub fn new() -> (r: Self)
        ensures
            r.wf(),
    {
        Self::default()
    }

    /// Samples the distance to the next transition out of the current
    /// state.
    fn get_bits_to_transition(&self) -> (r: i64)
        ensures
            1 <= r <= MAX_TRANSITION_GAP,
    {
        let p = if self.state {
            P_G_TO_B_PPB
        } else {
            P_B_TO_G_PPB
        };
        sample_transition_gap(p)
    }

    /// Whether a frame of `num_bits` bits is transmitted without
    /// corruption.  Consumes the frame in same-state chunks bounded by the
    /// standing transition distance; a chunk of an uncorrupted frame is
    /// corrupted with the compound probability of its length, and once the
    /// frame is corrupted further chunks only keep the transition
    /// bookkeeping going.  The outcome is random; the channel stays
    /// well-formed whatever was drawn.
    pub fn frame_success(&mut self, num_bits: u64) -> (r: bool)
        requires
            old(self).wf(),
            num_bits >= 1,
        ensures
            final(self).wf(),
    {
        let mut bits_processed: u64 = 0;
        let mut frame_corrupted: bool = false;

        while bits_processed < num_bits
            invariant
                self.wf(),
                bits_processed <= num_bits,
            decreases num_bits - bits_processed,
        {
            let remaining = num_bits - bits_processed;
            let gap = self.bits_until_next_state_change as u64;
            let bits_in_chunk: u64 = if remaining < gap {
                remaining
            } else {
                gap
            };

            if !frame_corrupted {
                let ber = if self.state {
                    GOOD_STATE_BER_PPB
                } else {
                    BAD_STATE_BER_PPB
                };
                frame_corrupted = chunk_corrupted(ber, bits_in_chunk);
            }

            bits_processed = bits_processed + bits_in_chunk;
            self.bits_until_next_state_change = self.bits_until_next_state_change
                - bits_in_chunk as i64;

            if self.bits_until_next_state_change <= 0 {
                self.state = !self.state;
                self.bits_until_next_state_change = self.get_bits_to_transition();
            }
        }

        !frame_corrupted
    }
}

impl Default for GilbertElliotChannel {
    /// A channel in the good state, with a freshly sampled transition
    /// distance.
    fn default() -> (r: Self)
        ensures
            r.wf(),
    {
        let mut channel = GilbertElliotChannel { state: true, bits_until_next_state_change: 1 };
        channel.bits_until_next_state_change = channel.get_bits_to_transition();
        channel
    }
}

} // verus!
