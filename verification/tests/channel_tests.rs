use arq_sim::channel::{transmit_bits, GilbertElliotChannel};

/// Frames per model run and bits per frame for the comparison below.
const FRAMES: u64 = 2_000;
const BITS_PER_FRAME: u64 = 800;

#[test]
fn test_jump_ahead_bit_loop_equivalence() {
    // Over many frames, the bit-by-bit baseline and the jump-ahead form
    // must produce statistically indistinguishable corruption rates and
    // bad-state occupancy for the same fixed probability parameters.

    // bit-loop baseline: thread the state through frame after frame
    let mut bit_loop_corrupted: u64 = 0;
    let mut bit_loop_bad_endings: u64 = 0;
    let mut state = true;
    for _ in 0..FRAMES {
        let (corrupted, next_state) = transmit_bits(state, BITS_PER_FRAME);
        if corrupted {
            bit_loop_corrupted += 1;
        }
        if !next_state {
            bit_loop_bad_endings += 1;
        }
        state = next_state;
    }

    // jump-ahead form over the same number of frames
    let mut jump_corrupted: u64 = 0;
    let mut channel = GilbertElliotChannel::new();
    for _ in 0..FRAMES {
        if !channel.frame_success(BITS_PER_FRAME) {
            jump_corrupted += 1;
        }
    }

    let rate_bit_loop = bit_loop_corrupted as f64 / FRAMES as f64;
    let rate_jump = jump_corrupted as f64 / FRAMES as f64;

    // the sampling tolerance is about five standard deviations of the
    // difference of two binomial rates at these parameters
    assert!(
        (rate_bit_loop - rate_jump).abs() < 0.05,
        "corruption rates diverged: bit-loop {} vs jump-ahead {}",
        rate_bit_loop,
        rate_jump
    );

    // bad-state occupancy of the bit-loop form must sit near the Markov
    // chain's stationary fraction 0.002 / (0.002 + 0.05)
    let stationary_bad = 0.002 / (0.002 + 0.05);
    let occupancy = bit_loop_bad_endings as f64 / FRAMES as f64;
    assert!(
        (occupancy - stationary_bad).abs() < 0.035,
        "bad-state occupancy {} is far from the stationary fraction {}",
        occupancy,
        stationary_bad
    );
}

#[test]
fn test_frame_success_single_bit() {
    // the smallest valid transmission is one bit; the channel keeps
    // working frame after frame
    let mut channel = GilbertElliotChannel::new();
    for _ in 0..100 {
        channel.frame_success(1);
    }
    let (_corrupted, _state) = transmit_bits(true, 1);
}
