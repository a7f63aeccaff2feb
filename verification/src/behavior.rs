use vstd::prelude::*;

use crate::components::table::Table;

verus! {

/// Puts the cards, as comma-separated short names, on the table.
pub fn update_table(card_str: &str, table: &mut Table)
    ensures
        final(table).cards@ == card_str@,
{
    table.cards = String::from_str(card_str);
}

} // verus!
