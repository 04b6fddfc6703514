//! The fixed audio shape of a recorded session.

use vstd::prelude::*;

verus! {

/// Samples per second of every routine track.
pub const SAMPLE_RATE: u32 = 48_000;

/// Samples in one playout tick of 20 milliseconds.
pub const SAMPLES_PER_TICK: u64 = 960;

/// Samples in one millisecond.
pub const SAMPLES_PER_MILLISECOND: u64 = 48;

/// Routine tracks hold one channel.
pub const CHANNELS: u16 = 1;

/// Routine tracks hold 16-bit samples.
pub const BITS_PER_SAMPLE: u16 = 16;

} // verus!
