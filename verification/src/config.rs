//! Limits that the rules are checked against, in micro-ohms.
use vstd::prelude::*;

verus! {

/// For digital circuits, resistors up to this value count as a tie: 100 Ω.
pub const MAX_TIE_RESISTANCE: u64 = 100_000_000;

/// A pull-up on an I2C line raises no remark where it lies above this: 2.2 kΩ.
pub const I2C_PULL_UP_MIN: u64 = 2_200_000_000;

/// A pull-up on an I2C line raises no remark where it lies below this: 10 kΩ.
pub const I2C_PULL_UP_MAX: u64 = 10_000_000_000;

} // verus!
