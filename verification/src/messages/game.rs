use vstd::prelude::*;

verus! {

/// The state of a player as the server reports it.
#[derive(Default, Debug)]
pub struct PlayerMessage {
    pub pos: usize,
    pub active: bool,
    pub cards: String,
    pub score: u32,
}

#[derive(Default)]
pub struct StartGame(pub String);

#[derive(Default)]
pub struct RequestStart;

#[derive(Default)]
pub struct WaitForStart(pub usize);

#[derive(Default)]
pub struct AcceptStartGame {
    pub cards: String,
    pub active_player: usize,
}

#[derive(Debug, Default)]
pub struct UpdatePlayerCards;

/// The cards a player puts on the table, as comma-separated short names.
#[derive(Debug, Default)]
pub struct PlayCard(pub String);

/// The server accepted the cards that a player put on the table.
#[derive(Debug, Default)]
pub struct AcceptPlayCard {
    pub cur_player: usize,
    pub cards: String,
    pub next_player: usize,
    pub run_out_card: bool,
}

#[derive(Debug, Default)]
pub struct SkipTurn;

/// The seat of the player to play.
#[derive(Debug, Default)]
pub struct UpdateTurn(pub usize);

#[derive(Debug, Default)]
pub struct UpdateScore(pub u32);

#[derive(Debug, Default)]
pub struct NewMatch {
    pub cards: String,
    pub active_player: usize,
}

#[derive(Debug, Default)]
pub struct NewPlayer(pub String);

#[derive(Debug, Default)]
pub struct PlayerReady;

#[derive(Debug, Default)]
pub struct AcceptPlayerReady {
    pub name: String,
    pub server_pos: usize,
}

#[derive(Debug, Default)]
pub struct NewPlayerJoin;

} // verus!
