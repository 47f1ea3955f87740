use vstd::prelude::*;

use crate::board::{Board, TurnResult};
use crate::cell::CellState;
use crate::error::{GameplayError, WrapperError};
use crate::state::{Draw, InProgress, Victory};

verus! {

/// A board in any phase: the value a caller holds between moves.
#[derive(Debug, Clone)]
pub enum GameWrapper<const R: usize, const C: usize> {
    InProgress(Board<R, C, InProgress>),
    Victory(Board<R, C, Victory>),
    Draw(Board<R, C, Draw>),
}

impl<const R: usize, const C: usize> GameWrapper<R, C> {
    /// The same board, tagged with the phase of a move's outcome.
    pub open spec fn of_turn(t: TurnResult<R, C>) -> GameWrapper<R, C> {
        match t {
            TurnResult::InProgress(b) => GameWrapper::InProgress(b),
            TurnResult::Victory(b) => GameWrapper::Victory(b),
            TurnResult::Draw(b) => GameWrapper::Draw(b),
        }
    }

    /// The same board, seen as a move's outcome.
    pub open spec fn as_turn(self) -> TurnResult<R, C> {
        match self {
            GameWrapper::InProgress(b) => TurnResult::InProgress(b),
            GameWrapper::Victory(b) => TurnResult::Victory(b),
            GameWrapper::Draw(b) => TurnResult::Draw(b),
        }
    }

    pub open spec fn cells(self) -> [[Option<CellState>; R]; C] {
        self.as_turn().cells()
    }

    pub open spec fn heights(self) -> [usize; C] {
        self.as_turn().heights()
    }

    pub open spec fn key(self) -> u64 {
        self.as_turn().key()
    }

    pub open spec fn wf(self) -> bool {
        self.as_turn().wf()
    }

    pub fn column_heights(&self) -> (r: &[usize; C])
        ensures
            *r == self.heights(),
    {
        match self {
            GameWrapper::InProgress(b) => b.column_heights(),
            GameWrapper::Victory(b) => b.column_heights(),
            GameWrapper::Draw(b) => b.column_heights(),
        }
    }

    pub fn hash(&self) -> (r: u64)
        ensures
            r == self.key(),
    {
        match self {
            GameWrapper::InProgress(b) => b.hash(),
            GameWrapper::Victory(b) => b.hash(),
            GameWrapper::Draw(b) => b.hash(),
        }
    }

    pub fn get_cell_states(&self) -> (r: &[[Option<CellState>; R]; C])
        ensures
            *r == self.cells(),
    {
        match self {
            GameWrapper::InProgress(b) => b.cell_states(),
            GameWrapper::Victory(b) => b.cell_states(),
            GameWrapper::Draw(b) => b.cell_states(),
        }
    }

    /// The piece at column `col`, row `row` (row 0 at the bottom), if any.
    pub fn get_cell(&self, col: usize, row: usize) -> (r: Option<CellState>)
        requires
            col < C,
            row < R,
        ensures
            r == self.cells()[col as int][row as int],
    {
        let cell_states = self.get_cell_states();
        cell_states[col][row]
    }

    /// Plays column `col_idx`; a won or drawn game accepts no move.
    pub fn make_move(&self, col_idx: usize) -> (r: Result<GameWrapper<R, C>, WrapperError>)
        requires
            self.wf(),
        ensures
            !(self is InProgress) ==> r == Err::<GameWrapper<R, C>, WrapperError>(
                WrapperError::GameNotInProgress,
            ),
            self matches GameWrapper::InProgress(b) ==> {
                &&& col_idx >= C ==> r == Err::<GameWrapper<R, C>, WrapperError>(
                    WrapperError::Gameplay(GameplayError::ColumnOutOfBounds),
                )
                &&& col_idx < C && b.heights()[col_idx as int] >= R ==> r == Err::<
                    GameWrapper<R, C>,
                    WrapperError,
                >(WrapperError::Gameplay(GameplayError::ColumnFull))
                &&& col_idx < C && b.heights()[col_idx as int] < R ==> (r matches Ok(g)
                    && b.spec_move(col_idx as int, g.as_turn()))
            },
    {
        match self {
            GameWrapper::InProgress(board) => match board.make_move(col_idx) {
                Ok(result) => Ok(GameWrapper::from(result)),
                Err(e) => Err(WrapperError::Gameplay(e)),
            },
            GameWrapper::Victory(_) | GameWrapper::Draw(_) => Err(WrapperError::GameNotInProgress),
        }
    }

    /// The playable columns in ascending order; none once the game is over.
    pub fn get_valid_moves(&self) -> (r: Vec<usize>)
        ensures
            forall|i: int, j: int| 0 <= i < j < r@.len() ==> r@[i] < r@[j],
            forall|c: usize| #[trigger]
                r@.contains(c) <==> (self is InProgress && c < C && self.heights()[c as int] < R),
    {
        match self {
            GameWrapper::InProgress(b) => b.get_valid_moves(),
            _ => Vec::new(),
        }
    }

    /// The player to move, while the game is in progress.
    pub fn current_player(&self) -> (r: Option<CellState>)
        ensures
            r == (match self {
                GameWrapper::InProgress(b) => Some(b.state().player),
                _ => None,
            }),
    {
        match self {
            GameWrapper::InProgress(b) => Some(b.player()),
            _ => None,
        }
    }

    /// The winner, once the game is won.
    pub fn winner(&self) -> (r: Option<CellState>)
        ensures
            r == (match self {
                GameWrapper::Victory(b) => Some(b.state().winner),
                _ => None,
            }),
    {
        match self {
            GameWrapper::Victory(b) => Some(b.winner()),
            _ => None,
        }
    }

    pub fn is_in_progress(&self) -> (r: bool)
        ensures
            r == self is InProgress,
    {
        matches!(self, GameWrapper::InProgress(_))
    }

    pub fn is_victory(&self) -> (r: bool)
        ensures
            r == self is Victory,
    {
        matches!(self, GameWrapper::Victory(_))
    }

    pub fn is_draw(&self) -> (r: bool)
        ensures
            r == self is Draw,
    {
        matches!(self, GameWrapper::Draw(_))
    }
}

impl<const R: usize, const C: usize> From<TurnResult<R, C>> for GameWrapper<R, C> {
    fn from(turn_result: TurnResult<R, C>) -> (r: Self) {
        match turn_result {
            TurnResult::InProgress(board) => GameWrapper::InProgress(board),
            TurnResult::Victory(board) => GameWrapper::Victory(board),
            TurnResult::Draw(board) => GameWrapper::Draw(board),
        }
    }
}

impl<const R: usize, const C: usize> vstd::std_specs::convert::FromSpecImpl<TurnResult<R, C>> for GameWrapper<R, C> {
    open spec fn obeys_from_spec() -> bool {
        true
    }

    open spec fn from_spec(v: TurnResult<R, C>) -> Self {
        GameWrapper::of_turn(v)
    }
}

} // verus!
