use vstd::prelude::*;

verus! {

/// Marks the counter of the time left for a turn.
pub struct TurnCounter;

/// Marks the counter of the time left before a game starts.
pub struct PrestartCounter;

} // verus!
