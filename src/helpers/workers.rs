use vstd::prelude::*;

verus! {

// Worker slots of the compact board: two per side.
pub const W1: usize = 0;
pub const W2: usize = 1;
pub const U1: usize = 2;
pub const U2: usize = 3;

} // verus!
