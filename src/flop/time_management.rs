use vstd::prelude::*;

verus! {

/// How many more moves the remaining clock is shared among.
pub const EXPECTED_MOVES_LEFT: u64 = 15;

/// The thinking budget for one move, in nanoseconds, from the time left on the clock
/// in nanoseconds: an equal share over the moves expected to remain.
pub fn get_time(time_left: u64) -> (r: u64)
    ensures
        r == time_left / EXPECTED_MOVES_LEFT,
{
    time_left / EXPECTED_MOVES_LEFT
}

} // verus!
