//! Decision core of a low-latency trading engine.
//!
//! The crate keeps order-book state, derives streaming market-microstructure
//! signals from it, turns fills into position and profit accounting, and gates
//! outgoing orders through a shared risk check.  All signal and accounting
//! arithmetic is fixed-point: prices carry a fixed scale chosen by the host,
//! and signal values are expressed in micro-units (millionths), so every
//! result is a reproducible integer.

use vstd::prelude::*;

pub mod alpha;
pub mod alpha_flow;
pub mod alpha_markov;
pub mod alpha_meta;
pub mod alpha_ofi;
pub mod alpha_pressure;
pub mod alpha_reversal;
pub mod alpha_transient;
pub mod bus;
pub mod expneg;
pub mod feature;
pub mod fixed;
pub mod ipc;
pub mod lob;
pub mod positions;
pub mod risk;
pub mod rl;
pub mod shm;
pub mod signal_math;
pub mod strategy;
pub mod vol;

verus! {

/// Fixed-point scale for signal values: one unit is one millionth.
pub const SCALE: i64 = 1_000_000;

} // verus!
