//! Package service codes.

use vstd::prelude::*;

verus! {

pub const GET_PACKAGE: u32 = 1;

} // verus!
