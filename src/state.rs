use vstd::prelude::*;

use crate::cell::CellState;

verus! {

/// Marker for the phase a board is in.
pub trait GameState {}

/// A game still being played: `player` moves next.
#[derive(Debug, Clone, Copy)]
pub struct InProgress {
    pub player: CellState,
}

impl GameState for InProgress {}

impl InProgress {
    pub fn new(player: CellState) -> (r: InProgress)
        ensures
            r.player == player,
    {
        InProgress { player }
    }

    pub fn player(&self) -> (r: CellState)
        ensures
            r == self.player,
    {
        self.player
    }
}

/// A finished game that `winner` won.
#[derive(Debug, Clone, Copy)]
pub struct Victory {
    pub winner: CellState,
}

impl GameState for Victory {}

impl Victory {
    pub fn new(winner: CellState) -> (r: Victory)
        ensures
            r.winner == winner,
    {
        Victory { winner }
    }

    pub fn winner(&self) -> (r: CellState)
        ensures
            r == self.winner,
    {
        self.winner
    }
}

/// A finished game with a full board and no four in a row.
#[derive(Debug, Clone, Copy)]
pub struct Draw {}

impl GameState for Draw {}

} // verus!
