use vstd::prelude::*;

verus! {

/// The number under which an error travels to a client.
#[derive(Debug)]
pub struct ErrorCode {
    code: usize,
}

/// Why the server refused a player's move.
#[derive(Debug, PartialEq, Eq, Structural, Clone, Copy)]
pub enum GameError {
    InvalidCards,
    WrongTurn,
    WrongCombination,
    UnknownError,
}

/// The number that stands for a known error.
pub open spec fn error_number(e: GameError) -> usize {
    match e {
        GameError::InvalidCards => 0,
        GameError::WrongCombination => 1,
        GameError::WrongTurn => 2,
        GameError::UnknownError => 3,
    }
}

/// The error that a number stands for; numbers above 2 stand for an unknown error.
pub open spec fn error_of_number(code: usize) -> GameError {
    if code == 0 {
        GameError::InvalidCards
    } else if code == 1 {
        GameError::WrongCombination
    } else if code == 2 {
        GameError::WrongTurn
    } else {
        GameError::UnknownError
    }
}

impl ErrorCode {
    /// The number carried.
    pub closed spec fn code(&self) -> usize {
        self.code
    }

    /// The code of a known error.
    pub fn from(game_error: GameError) -> (c: Self)
        requires
            // the unknown error has no code yet
            game_error != GameError::UnknownError,
        ensures
            c.code() == error_number(game_error),
    {
        match game_error {
            GameError::InvalidCards => Self { code: 0 },
            GameError::WrongCombination => Self { code: 1 },
            GameError::WrongTurn => Self { code: 2 },
            GameError::UnknownError => Self { code: 3 },
        }
    }
}

impl Default for ErrorCode {
    fn default() -> (c: Self)
        ensures
            c.code() == 0,
    {
        ErrorCode { code: 0 }
    }
}

impl From<ErrorCode> for GameError {
    fn from(error_code: ErrorCode) -> (e: Self) {
        match error_code.code {
            0 => Self::InvalidCards,
            1 => Self::WrongCombination,
            2 => Self::WrongTurn,
            _ => Self::UnknownError,
        }
    }
}

impl vstd::std_specs::convert::FromSpecImpl<ErrorCode> for GameError {
    open spec fn obeys_from_spec() -> bool {
        true
    }

    open spec fn from_spec(v: ErrorCode) -> GameError {
        error_of_number(v.code())
    }
}

/// Sending a known error as its code and reading the code back gives the same error.
pub proof fn lemma_error_code_round_trip(e: GameError)
    requires
        e != GameError::UnknownError,
    ensures
        error_of_number(error_number(e)) == e,
{
}

} // verus!
