use vstd::prelude::*;

verus! {

/// The cards last put on the table: comma-separated short names.
pub struct Table {
    pub cards: String,
}

impl Default for Table {
    fn default() -> (t: Self)
        ensures
            t.cards@ == Seq::<char>::empty(),
    {
        Table { cards: String::new() }
    }
}

impl Table {
    pub fn new(card_str: String) -> (t: Self)
        ensures
            t.cards == card_str,
    {
        Table { cards: card_str }
    }
}

} // verus!
