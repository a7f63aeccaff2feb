//! Rules and data of the Tiến Lên card game: ranks, suits, cards, the
//! combinations a player may put on the table, decks, hands, the turn order,
//! and the messages that the server and the players exchange.

pub mod behavior;
pub mod channels;
pub mod components;
pub mod env;
pub mod messages;
pub mod text;
pub mod server;
pub mod client;
