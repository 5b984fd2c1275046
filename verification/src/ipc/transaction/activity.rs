//! Activity service codes.

use vstd::prelude::*;

verus! {

pub const START: u32 = 1;
pub const FINISH: u32 = 2;
pub const GET_TOP: u32 = 3;

} // verus!
