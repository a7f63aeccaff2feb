//! The things on the table: cards and their combinations, decks, hands,
//! players and the turn order.

pub mod cache;
pub mod card;
pub mod cards;
pub mod deck;
pub mod hand;
pub mod player;
pub mod rank;
pub mod server_hand;
pub mod suit;
pub mod table;
pub mod timer;
pub mod turn;

pub use player::{Active, Host, Player};
pub use table::Table;
pub use timer::{PrestartCounter, TurnCounter};

use vstd::prelude::*;

verus! {

/// The set of components that the game replicates to the clients.
pub struct ComponentsPlugin;

} // verus!
