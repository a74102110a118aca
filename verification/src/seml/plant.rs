//! The `plant_type` ids that the SEML card symbols stand for, as the
//! emulator's scenario reader numbers them.
use vstd::prelude::*;

verus! {

/// `A` and `A_NUM`.
pub const CHERRY_BOMB: i32 = 0x2;

/// `N`.
pub const DOOMSHROOM: i32 = 0xF;

/// `a`, `W`, `a_NUM` and `W_NUM`.
pub const SQUASH: i32 = 0x11;

/// `J` and `J_NUM`.
pub const JALAPENO: i32 = 0x14;

/// `G`.
pub const GARLIC: i32 = 0x24;

} // verus!
