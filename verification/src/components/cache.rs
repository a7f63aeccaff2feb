use vstd::prelude::*;

verus! {

/// A remembered view of the turn: whose turn it is and how many play.
pub struct Cache {
    current_active_player_pos: usize,
    total_player: usize,
}

} // verus!
