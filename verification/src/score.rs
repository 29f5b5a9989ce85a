//! The fixed-point representation of similarity scores.
//!
//! Every similarity value in this crate is a fixed-point number with six
//! decimal places, held in a `u64`: `SCALE` stands for the real value 1.0
//! and 0 for 0.0.  All scoring functions return values in `[0, SCALE]`.
use vstd::prelude::*;

verus! {

/// The fixed-point unit: this value stands for a similarity of exactly 1.0.
pub const SCALE: u64 = 1_000_000;

/// Upper bound on the character length of a single scored string.  The bound
/// keeps every intermediate product of the scoring arithmetic inside `u128`.
pub const MAX_LEN: usize = 0x20_0000;

/// Upper bound on the element count of a scored string list, for the same
/// reason as `MAX_LEN`.
pub const MAX_LIST: usize = 0x10_0000;

} // verus!
