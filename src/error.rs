use vstd::prelude::*;

verus! {

/// Why a move on an in-progress board was rejected.
#[derive(Debug, Clone, Copy, PartialEq, Eq, Structural)]
pub enum GameplayError {
    /// The column already holds as many pieces as the board has rows.
    ColumnFull,
    /// The column index is not smaller than the number of columns.
    ColumnOutOfBounds,
}

/// The description of a gameplay error.
pub open spec fn gameplay_message(e: GameplayError) -> Seq<char> {
    match e {
        GameplayError::ColumnFull => "column is at max capacity"@,
        GameplayError::ColumnOutOfBounds => "column index is out of bounds"@,
    }
}

impl GameplayError {
    /// A human-readable description of the error.
    pub fn message(&self) -> (r: &'static str)
        ensures
            r@ == gameplay_message(*self),
    {
        match self {
            GameplayError::ColumnFull => "column is at max capacity",
            GameplayError::ColumnOutOfBounds => "column index is out of bounds",
        }
    }
}

/// Why a move on a board of any phase was rejected.
#[derive(Debug, Clone, Copy, PartialEq, Eq, Structural)]
pub enum WrapperError {
    /// The board is won or drawn and accepts no further moves.
    GameNotInProgress,
    /// The board is in progress and the move itself is illegal.
    Gameplay(GameplayError),
}

impl WrapperError {
    /// A human-readable description of the error.
    pub fn message(&self) -> (r: &'static str)
        ensures
            r@ == match *self {
                WrapperError::GameNotInProgress => "game is not in progress"@,
                WrapperError::Gameplay(e) => gameplay_message(e),
            },
    {
        match self {
            WrapperError::GameNotInProgress => "game is not in progress",
            WrapperError::Gameplay(e) => e.message(),
        }
    }
}

} // verus!
