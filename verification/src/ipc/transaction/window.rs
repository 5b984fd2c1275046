//! Window service codes.

use vstd::prelude::*;

verus! {

pub const CREATE: u32 = 1;
pub const RESIZE: u32 = 2;
pub const GET_GEOMETRY: u32 = 3;

} // verus!
