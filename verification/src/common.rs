//! Fixed physical-layer parameters.
//!
//! Time is counted in ticks of 100 ns.  At 10 Mbps one bit occupies the wire
//! for exactly one tick, so a frame of `n` bits has a transmission time of
//! `n` ticks.  Probabilities are exact numerators over [`PPB_SCALE`].

use vstd::prelude::*;

verus! {

/// Line rate: 10 Mbps.
pub const BIT_RATE: u64 = 10_000_000;

/// Ticks of simulated time per second (one tick is 100 ns, one bit time).
pub const TICKS_PER_SECOND: u64 = 10_000_000;

/// Frame header size: 24 bytes, in bits.
pub const FRAME_OVERHEAD: u64 = 192;

/// Forward propagation delay: 40 ms, in ticks.
pub const FORWARD_PATH: u64 = 400_000;

/// Reverse (ACK) propagation delay: 10 ms, in ticks.
pub const REVERSE_PATH: u64 = 100_000;

/// Processing delay per frame: 2 ms, in ticks.
pub const PROCESSING_DELAY: u64 = 20_000;

/// Denominator of every channel probability: draws are uniform below this.
pub const PPB_SCALE: u64 = 1_000_000_000;

/// Bit error rate in the good state: 10^-6.
pub const GOOD_STATE_BER_PPB: u64 = 1_000;

/// Bit error rate in the bad state: 5 * 10^-3.
pub const BAD_STATE_BER_PPB: u64 = 5_000_000;

/// Good-to-bad state transition probability per bit: 0.002.
pub const P_G_TO_B_PPB: u64 = 2_000_000;

/// Bad-to-good state transition probability per bit: 0.05.
pub const P_B_TO_G_PPB: u64 = 50_000_000;

/// Upper bound on the simulated clock, in ticks (about seven thousand
/// years of simulated time).  Guards every time addition against overflow.
pub const MAX_SIM_TIME: u64 = 0x2000_0000_0000_0000;

/// Upper bound on a frame's size in bits that the arithmetic below relies on.
pub const MAX_FRAME_BITS: u64 = 0x1_0000_0000;

/// Upper bound on a sequence number that the arithmetic below relies on.
pub const MAX_SEQ: i64 = 0x4000_0000_0000_0000;

} // verus!
