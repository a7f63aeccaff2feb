use vstd::prelude::*;

verus! {

/// Marks the player who created the game.
pub struct Host;

/// A player at the table.
pub struct Player {
    pub pos: usize,
    pub active: bool,
    pub score: u32,
    pub name: String,
    pub ready: bool,
}

impl Player {
    /// A new player at seat `pos`; the player at seat 0 plays first.
    pub fn new(pos: usize, name: &str) -> (p: Self)
        ensures
            p.pos == pos,
            p.active == (pos == 0),
            p.score == 0,
            p.name@ == name@,
            !p.ready,
    {
        let mut active = false;
        if pos == 0 {
            active = true;
        }

        Player { pos, active, score: 0, name: String::from_str(name), ready: false }
    }

    pub fn name(&self) -> (s: String)
        ensures
            s@ == self.name@,
    {
        self.name.clone()
    }
}

/// Marks a player who is ready to start.
pub struct Ready;

/// Marks the player whose turn it is.
pub struct Active;

} // verus!
