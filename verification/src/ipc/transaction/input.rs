//! Input service codes.

use vstd::prelude::*;

verus! {

pub const INJECT: u32 = 1;
pub const DRAIN: u32 = 2;

} // verus!
