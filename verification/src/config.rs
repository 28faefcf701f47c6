//! Constants used across the crate.

use vstd::prelude::*;

verus! {

/// Ticks during which the player cannot move again after a move, while a
/// direction is held.
pub const FREEZE_TIME: u32 = 10;

} // verus!
