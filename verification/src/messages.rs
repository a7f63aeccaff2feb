//! The messages that the server and the players' clients exchange.

pub mod error;
pub mod game;
pub mod player;

pub use error::{ErrorCode, GameError};
pub use game::{
    AcceptPlayCard, AcceptPlayerReady, AcceptStartGame, NewMatch, NewPlayer, PlayCard, PlayerReady,
    SkipTurn, StartGame, UpdateScore, UpdateTurn,
};
pub use player::PlayerMessage;

use vstd::prelude::*;

verus! {

/// The set of messages of the game protocol.
pub struct MessagesPlugin;

} // verus!
