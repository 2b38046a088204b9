//! Discrete-event simulator of a Selective-Repeat ARQ data link running over
//! a channel with bursty bit errors.
//!
//! Simulated time is measured in integer ticks of 100 ns; at the fixed line
//! rate of 10 Mbps one tick is exactly the time of one bit on the wire, so
//! transmission times, path delays and timeouts are all exact integers.
//! Probabilities are exact rationals with denominator 10^9 (parts per
//! billion), so the channel error process needs no floating point.

pub mod common;
pub mod channel;
pub mod event_loop;
pub mod layers;
pub mod simulation;
mod rng;
