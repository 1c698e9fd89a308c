//! Shadow-memory oracle for an AXI4-style memory-mapped bus.
//!
//! The library models burst transactions bit-exactly: it computes the byte
//! addresses a burst touches, applies byte-lane-masked writes to a reference
//! memory image, and predicts the bytes a later read burst must return, so
//! that a divergence observed on the real bus points at the device under
//! test rather than at the oracle.
//!
//! The oracle is single-threaded by contract: the caller invokes one event
//! handler at a time and lets it run to completion before the next.

use vstd::prelude::*;

pub mod burst;
pub mod driver;
pub mod payload;
pub mod range;
pub mod shadow;

verus! {

/// Width of the bus data path in bits.
pub const AXI_SIZE: u32 = 32;

/// Number of byte lanes on the bus: one lane per byte of the data path.
pub const BUS_BYTES: u32 = AXI_SIZE / 8;

/// Largest legal `size` field: transfers move at most `BUS_BYTES` bytes per beat.
pub const MAX_SIZE: u8 = 2;

/// Capacity of the shadow memory in bytes; the modelled address space is
/// `[0, MEM_SIZE)`.
pub const MEM_SIZE: usize = 0x10_0000;

} // verus!
