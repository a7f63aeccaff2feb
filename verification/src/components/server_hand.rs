use vstd::prelude::*;

verus! {

/// The cards of a player as the server keeps them: comma-separated short names.
pub struct ServerHand {
    pub cards: String,
}

impl ServerHand {
    pub fn new(cards: String) -> (h: Self)
        ensures
            h.cards == cards,
    {
        ServerHand { cards }
    }
}

} // verus!
