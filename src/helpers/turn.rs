use vstd::prelude::*;

verus! {

/// The side that owns the first two worker slots.
pub const W: u8 = 0;

/// The side that owns the last two worker slots.
pub const U: u8 = 1;

} // verus!
