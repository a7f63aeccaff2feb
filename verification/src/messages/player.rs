use vstd::prelude::*;

verus! {

/// A chat line from the player at a seat.
#[derive(Default, Debug)]
pub struct PlayerMessage(pub usize, pub String);

} // verus!
