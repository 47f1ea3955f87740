use vstd::prelude::*;
use vstd::arithmetic::power::{lemma_pow_increases, lemma_pow_positive, pow};
use vstd::arithmetic::power2::{
    lemma2_to64, lemma2_to64_rest, lemma_pow2, lemma_pow2_pos, lemma_pow2_strictly_increases,
    lemma_pow2_unfold,
};

use crate::cell::CellState;
use crate::error::GameplayError;
use crate::hashing::{
    board_code, column_code, column_codes, column_wf, compute_board_hash, dims_fit,
    lemma_codes_below_base, lemma_column_code_perfect, lemma_mixed_radix_injective,
    lemma_zero_digits, radix_base,
};
use crate::state::{Draw, GameState, InProgress, Victory};

verus! {

/// The outcome of a legal move: the new board, tagged with its phase.
#[derive(Debug, Clone)]
pub enum TurnResult<const R: usize, const C: usize> {
    InProgress(Board<R, C, InProgress>),
    Victory(Board<R, C, Victory>),
    Draw(Board<R, C, Draw>),
}

/// An immutable board of `R` rows and `C` columns in phase `S`.
///
/// Cells are stored column by column; row 0 is the bottom row.
#[derive(Debug, Clone)]
pub struct Board<const R: usize, const C: usize, S: GameState> {
    cell_states: [[Option<CellState>; R]; C],
    column_heights: [usize; C],
    game_state: S,
    hash: u64,
}

/// Every column of `heights` is filled to the top.
pub open spec fn all_full<const C: usize>(heights: [usize; C], rows: nat) -> bool {
    forall|c: int| 0 <= c < C ==> heights[c] >= rows
}

impl<const R: usize, const C: usize> TurnResult<R, C> {
    /// The cells of the board, whatever its phase.
    pub open spec fn cells(self) -> [[Option<CellState>; R]; C] {
        match self {
            TurnResult::InProgress(b) => b.cells(),
            TurnResult::Victory(b) => b.cells(),
            TurnResult::Draw(b) => b.cells(),
        }
    }

    /// The column heights of the board, whatever its phase.
    pub open spec fn heights(self) -> [usize; C] {
        match self {
            TurnResult::InProgress(b) => b.heights(),
            TurnResult::Victory(b) => b.heights(),
            TurnResult::Draw(b) => b.heights(),
        }
    }

    /// The position key of the board, whatever its phase.
    pub open spec fn key(self) -> u64 {
        match self {
            TurnResult::InProgress(b) => b.key(),
            TurnResult::Victory(b) => b.key(),
            TurnResult::Draw(b) => b.key(),
        }
    }

    pub open spec fn wf(self) -> bool {
        match self {
            TurnResult::InProgress(b) => b.wf(),
            TurnResult::Victory(b) => b.wf(),
            TurnResult::Draw(b) => b.wf(),
        }
    }
}

/// The grid in which the cell `(col, row)` of `before` holds `p` and every
/// other cell is unchanged.
pub open spec fn placed<const R: usize, const C: usize>(
    before: [[Option<CellState>; R]; C],
    after: [[Option<CellState>; R]; C],
    col: int,
    row: int,
    p: CellState,
) -> bool {
    forall|c: int, r: int|
        in_grid(R as nat, C as nat, c, r) ==> #[trigger] after[c][r] == (if c == col && r == row {
            Some(p)
        } else {
            before[c][r]
        })
}

/// Whether `(c, r)` names a cell of a grid of `rows` rows and `cols` columns.
pub open spec fn in_grid(rows: nat, cols: nat, c: int, r: int) -> bool {
    0 <= c < cols && 0 <= r < rows
}

/// A step of at most one cell along each axis, not the null step.
pub open spec fn unit_step(dc: int, dr: int) -> bool {
    -1 <= dc <= 1 && -1 <= dr <= 1 && (dc != 0 || dr != 0)
}

/// How many steps along one axis remain before leaving `[0, n)`.
pub open spec fn axis_room(n: nat, x: int, d: int) -> int {
    if d > 0 {
        n - x
    } else if d < 0 {
        x + 1
    } else {
        0
    }
}

/// The number of consecutive pieces of colour `p` met walking from `(c, r)`
/// by steps of `(dc, dr)`, stopping at the edge, an empty cell or the other
/// colour.
pub open spec fn run_len<const R: usize, const C: usize>(
    cells: [[Option<CellState>; R]; C],
    c: int,
    r: int,
    p: CellState,
    dc: int,
    dr: int,
) -> nat
    decreases axis_room(C as nat, c, dc) + axis_room(R as nat, r, dr),
{
    if in_grid(R as nat, C as nat, c, r) && unit_step(dc, dr) && cells[c][r] == Some(p) {
        1 + run_len(cells, c + dc, r + dr, p, dc, dr)
    } else {
        0
    }
}

/// The length of the line of colour `p` through `(c, r)` along the axis
/// `(dc, dr)`: the cell itself and the runs on both sides of it.
pub open spec fn line_len<const R: usize, const C: usize>(
    cells: [[Option<CellState>; R]; C],
    c: int,
    r: int,
    p: CellState,
    dc: int,
    dr: int,
) -> nat {
    1 + run_len(cells, c + dc, r + dr, p, dc, dr) + run_len(cells, c - dc, r - dr, p, -dc, -dr)
}

/// Colour `p` has four or more in a row through `(c, r)`: horizontally,
/// vertically, or along either diagonal.
pub open spec fn wins_at<const R: usize, const C: usize>(
    cells: [[Option<CellState>; R]; C],
    c: int,
    r: int,
    p: CellState,
) -> bool {
    ||| line_len(cells, c, r, p, 1, 0) >= 4
    ||| line_len(cells, c, r, p, 0, 1) >= 4
    ||| line_len(cells, c, r, p, 1, 1) >= 4
    ||| line_len(cells, c, r, p, -1, 1) >= 4
}

/// The cell `(c, r)` lies on the grid and holds a piece of colour `p`.
pub open spec fn occupied_by<const R: usize, const C: usize>(
    cells: [[Option<CellState>; R]; C],
    c: int,
    r: int,
    p: CellState,
) -> bool {
    in_grid(R as nat, C as nat, c, r) && cells[c][r] == Some(p)
}

/// Four pieces of colour `p` in a row, from `(c, r)` by steps of `(dc, dr)`.
pub open spec fn four_from<const R: usize, const C: usize>(
    cells: [[Option<CellState>; R]; C],
    c: int,
    r: int,
    p: CellState,
    dc: int,
    dr: int,
) -> bool {
    &&& occupied_by(cells, c, r, p)
    &&& occupied_by(cells, c + dc, r + dr, p)
    &&& occupied_by(cells, c + 2 * dc, r + 2 * dr, p)
    &&& occupied_by(cells, c + 3 * dc, r + 3 * dr, p)
}

/// Four pieces of colour `p` in a row from `(c, r)`, along one of the four
/// axes: rightwards, upwards, up-right or up-left.
pub open spec fn four_at<const R: usize, const C: usize>(
    cells: [[Option<CellState>; R]; C],
    c: int,
    r: int,
    p: CellState,
) -> bool {
    ||| four_from(cells, c, r, p, 1, 0)
    ||| four_from(cells, c, r, p, 0, 1)
    ||| four_from(cells, c, r, p, 1, 1)
    ||| four_from(cells, c, r, p, -1, 1)
}

/// Colour `p` has four in a row somewhere on the grid.
pub open spec fn has_four<const R: usize, const C: usize>(
    cells: [[Option<CellState>; R]; C],
    p: CellState,
) -> bool {
    exists|c: int, r: int| #[trigger] four_at(cells, c, r, p)
}

/// Neither colour has four in a row anywhere on the grid.
pub open spec fn no_four<const R: usize, const C: usize>(cells: [[Option<CellState>; R]; C]) -> bool {
    !has_four(cells, CellState::Red) && !has_four(cells, CellState::Yellow)
}

/// What a run of at least one, two or three pieces says of the cells it
/// covers.
proof fn lemma_run_cells<const R: usize, const C: usize>(
    cells: [[Option<CellState>; R]; C],
    c: int,
    r: int,
    p: CellState,
    dc: int,
    dr: int,
)
    requires
        unit_step(dc, dr),
    ensures
        run_len(cells, c, r, p, dc, dr) >= 1 <==> occupied_by(cells, c, r, p),
        run_len(cells, c, r, p, dc, dr) >= 2 <==> (occupied_by(cells, c, r, p) && occupied_by(
            cells,
            c + dc,
            r + dr,
            p,
        )),
        run_len(cells, c, r, p, dc, dr) >= 3 <==> (occupied_by(cells, c, r, p) && occupied_by(
            cells,
            c + dc,
            r + dr,
            p,
        ) && occupied_by(cells, c + 2 * dc, r + 2 * dr, p)),
{
    reveal_with_fuel(run_len, 4);
}

/// A line of four or more through `(c, r)` holds four in a row.
proof fn lemma_line_gives_four<const R: usize, const C: usize>(
    cells: [[Option<CellState>; R]; C],
    c: int,
    r: int,
    p: CellState,
    dc: int,
    dr: int,
) -> (k: int)
    requires
        unit_step(dc, dr),
        occupied_by(cells, c, r, p),
        line_len(cells, c, r, p, dc, dr) >= 4,
    ensures
        0 <= k <= 3,
        four_from(cells, c - k * dc, r - k * dr, p, dc, dr),
{
    lemma_run_cells(cells, c + dc, r + dr, p, dc, dr);
    lemma_run_cells(cells, c - dc, r - dr, p, -dc, -dr);
    let a = run_len(cells, c + dc, r + dr, p, dc, dr);
    if a >= 3 {
        assert(four_from(cells, c - 0 * dc, r - 0 * dr, p, dc, dr));
        0
    } else if a == 2 {
        assert(four_from(cells, c - 1 * dc, r - 1 * dr, p, dc, dr));
        1
    } else if a == 1 {
        assert(four_from(cells, c - 2 * dc, r - 2 * dr, p, dc, dr));
        2
    } else {
        assert(four_from(cells, c - 3 * dc, r - 3 * dr, p, dc, dr));
        3
    }
}

/// A four in a row through `(c, r)` makes the line through it at least
/// four long.
proof fn lemma_four_gives_line<const R: usize, const C: usize>(
    cells: [[Option<CellState>; R]; C],
    c: int,
    r: int,
    p: CellState,
    dc: int,
    dr: int,
    k: int,
)
    requires
        unit_step(dc, dr),
        0 <= k <= 3,
        four_from(cells, c - k * dc, r - k * dr, p, dc, dr),
    ensures
        line_len(cells, c, r, p, dc, dr) >= 4,
{
    lemma_run_cells(cells, c + dc, r + dr, p, dc, dr);
    lemma_run_cells(cells, c - dc, r - dr, p, -dc, -dr);
    if k == 0 {
        assert(run_len(cells, c + dc, r + dr, p, dc, dr) >= 3);
    } else if k == 1 {
        assert(run_len(cells, c + dc, r + dr, p, dc, dr) >= 2);
        assert(run_len(cells, c - dc, r - dr, p, -dc, -dr) >= 1);
    } else if k == 2 {
        assert(run_len(cells, c + dc, r + dr, p, dc, dr) >= 1);
        assert(run_len(cells, c - dc, r - dr, p, -dc, -dr) >= 2);
    } else {
        assert(run_len(cells, c - dc, r - dr, p, -dc, -dr) >= 3);
    }
}

proof fn lemma_run_len_bound<const R: usize, const C: usize>(
    cells: [[Option<CellState>; R]; C],
    c: int,
    r: int,
    p: CellState,
    dc: int,
    dr: int,
)
    requires
        -1 <= c <= C,
        -1 <= r <= R,
    ensures
        run_len(cells, c, r, p, dc, dr) <= R + C,
        in_grid(R as nat, C as nat, c, r) && unit_step(dc, dr) ==> run_len(cells, c, r, p, dc, dr)
            <= axis_room(C as nat, c, dc) + axis_room(R as nat, r, dr),
    decreases axis_room(C as nat, c, dc) + axis_room(R as nat, r, dr),
{
    if in_grid(R as nat, C as nat, c, r) && unit_step(dc, dr) && cells[c][r] == Some(p) {
        lemma_run_len_bound(cells, c + dc, r + dr, p, dc, dr);
    }
}

/// With at least one row, a key that fits in a `u64` leaves room for at
/// most 64 columns.
proof fn lemma_few_columns(rows: nat, cols: nat)
    requires
        dims_fit(rows, cols),
        rows >= 1,
    ensures
        cols < 64,
{
    lemma_pow2_strictly_increases(1, rows + 1);
    lemma_pow2_unfold(1);
    lemma_pow2_pos(0);
    assert(radix_base(rows) >= 2);
    lemma_pow_le_base(2, cols, radix_base(rows));
    if cols >= 64 {
        lemma_pow2(64);
        lemma2_to64_rest();
        lemma_pow_increases(2, 64, cols);
    }
}

proof fn lemma_pow_le_base(a: nat, e: nat, b: nat)
    requires
        1 <= a <= b,
    ensures
        pow(a as int, e) <= pow(b as int, e),
    decreases e,
{
    reveal(pow);
    if e > 0 {
        let k = (e - 1) as nat;
        lemma_pow_le_base(a, k, b);
        lemma_pow_positive(a as int, k);
        let x = pow(a as int, k);
        let y = pow(b as int, k);
        assert(a * x <= b * y) by (nonlinear_arith)
            requires
                1 <= a <= b,
                0 < x <= y,
        ;
    }
}

impl<const R: usize, const C: usize, S: GameState> Board<R, C, S> {
    /// The cells, indexed by column and then by row.
    pub closed spec fn cells(&self) -> [[Option<CellState>; R]; C] {
        self.cell_states
    }

    /// The number of pieces in each column.
    pub closed spec fn heights(&self) -> [usize; C] {
        self.column_heights
    }

    /// The phase tag and its payload.
    pub closed spec fn state(&self) -> S {
        self.game_state
    }

    /// The stored position key.
    pub closed spec fn key(&self) -> u64 {
        self.hash
    }

    /// Well-formedness: the dimensions admit a `u64` key, every column obeys
    /// gravity (exactly its lowest `height` cells are filled), and the stored
    /// key is the key of the cells.
    pub open spec fn wf(&self) -> bool {
        &&& dims_fit(R as nat, C as nat)
        &&& forall|c: int|
            0 <= c < C ==> column_wf(#[trigger] self.cells()[c]@, self.heights()[c] as nat)
        &&& self.key() == board_code(self.cells(), self.heights())
    }

    pub fn cell_states(&self) -> (r: &[[Option<CellState>; R]; C])
        ensures
            *r == self.cells(),
    {
        &self.cell_states
    }

    pub fn column_heights(&self) -> (r: &[usize; C])
        ensures
            *r == self.heights(),
    {
        &self.column_heights
    }

    pub fn get_column_height(&self, col_idx: usize) -> (r: usize)
        requires
            col_idx < C,
        ensures
            r == self.heights()[col_idx as int],
    {
        self.column_heights[col_idx]
    }

    pub fn hash(&self) -> (r: u64)
        ensures
            r == self.key(),
    {
        self.hash
    }

    /// The number of rows and the number of columns.
    pub fn dimensions(&self) -> (r: (usize, usize))
        ensures
            r == (R, C),
    {
        (R, C)
    }
}

impl<const R: usize, const C: usize> Board<R, C, Victory> {
    pub fn winner(&self) -> (r: CellState)
        ensures
            r == self.state().winner,
    {
        self.game_state.winner()
    }
}

impl<const R: usize, const C: usize> Board<R, C, InProgress> {
    /// The columns that can still take a piece, in ascending order.
    pub fn get_valid_moves(&self) -> (r: Vec<usize>)
        ensures
            forall|i: int, j: int| 0 <= i < j < r@.len() ==> r@[i] < r@[j],
            forall|c: usize| #[trigger] r@.contains(c) <==> (c < C && self.heights()[c as int] < R),
    {
        let mut moves: Vec<usize> = Vec::new();
        let mut idx: usize = 0;
        while idx < C
            invariant
                idx <= C,
                forall|i: int, j: int| 0 <= i < j < moves@.len() ==> moves@[i] < moves@[j],
                forall|i: int| 0 <= i < moves@.len() ==> moves@[i] < idx,
                forall|c: usize|
                    #[trigger] moves@.contains(c) <==> (c < idx && self.heights()[c as int] < R),
            decreases C - idx,
        {
            let ghost before = moves@;
            if self.column_heights[idx] < R {
                moves.push(idx);
                assert forall|c: usize| #[trigger] moves@.contains(c) <==> (before.contains(c) || c
                    == idx) by {
                    if c == idx {
                        assert(moves@[before.len() as int] == c);
                    }
                    if moves@.contains(c) && c != idx {
                        let k = choose|k: int| 0 <= k < moves@.len() && moves@[k] == c;
                        assert(before[k] == c);
                    }
                    if before.contains(c) {
                        let k = choose|k: int| 0 <= k < before.len() && before[k] == c;
                        assert(moves@[k] == c);
                    }
                }
            }
            idx += 1;
        }
        moves
    }

    pub fn player(&self) -> (r: CellState)
        ensures
            r == self.state().player,
    {
        self.game_state.player()
    }

    /// `t` is what dropping the mover's piece into column `col` gives: a
    /// well-formed board with the piece on top of that column, tagged as a
    /// victory for the mover if it makes four in a row, else as a draw if the
    /// board is full, else as in progress with the other player to move.
    pub open spec fn spec_move(&self, col: int, t: TurnResult<R, C>) -> bool {
        let row = self.heights()[col] as int;
        let p = self.state().player;
        &&& t.wf()
        &&& placed(self.cells(), t.cells(), col, row, p)
        &&& forall|c: int|
            0 <= c < C ==> #[trigger] t.heights()[c] == (if c == col {
                self.heights()[c] + 1
            } else {
                self.heights()[c] as int
            })
        &&& if wins_at(t.cells(), col, row, p) {
            t matches TurnResult::Victory(b) && b.state().winner == p
        } else if all_full(t.heights(), R as nat) {
            t is Draw
        } else {
            t matches TurnResult::InProgress(b) && b.state().player == p.spec_other()
        }
    }

    /// Drops the mover's piece into column `col_idx`, giving a new board and
    /// leaving this one as it is.
    pub fn make_move(&self, col_idx: usize) -> (r: Result<TurnResult<R, C>, GameplayError>)
        requires
            self.wf(),
        ensures
            col_idx >= C ==> r == Err::<TurnResult<R, C>, GameplayError>(
                GameplayError::ColumnOutOfBounds,
            ),
            col_idx < C && self.heights()[col_idx as int] >= R ==> r == Err::<
                TurnResult<R, C>,
                GameplayError,
            >(GameplayError::ColumnFull),
            col_idx < C && self.heights()[col_idx as int] < R ==> (r matches Ok(t)
                && self.spec_move(col_idx as int, t)),
    {
        if col_idx >= C {
            return Err(GameplayError::ColumnOutOfBounds);
        }
        let current_col_height = self.column_heights[col_idx];
        if current_col_height >= R {
            return Err(GameplayError::ColumnFull);
        }
        proof {
            lemma_few_columns(R as nat, C as nat);
        }

        let current_player = self.game_state.player();

        let mut new_cell_states = self.cell_states;
        let mut column = new_cell_states[col_idx];
        column[current_col_height] = Some(current_player);
        new_cell_states[col_idx] = column;

        let mut new_column_heights = self.column_heights;
        new_column_heights[col_idx] += 1;

        proof {
            let col = col_idx as int;
            let row = current_col_height as int;
            assert forall|c: int| 0 <= c < C implies column_wf(
                #[trigger] new_cell_states[c]@,
                new_column_heights[c] as nat,
            ) by {
                assert(column_wf(self.cell_states[c]@, self.column_heights[c] as nat));
                if c == col {
                    assert(new_cell_states[c]@ == self.cell_states[c]@.update(row, Some(current_player)));
                }
            }
            assert forall|c: int| 0 <= c < C implies #[trigger] new_column_heights[c] <= R by {
                assert(column_wf(new_cell_states[c]@, new_column_heights[c] as nat));
                assert(new_cell_states[c]@.len() == R);
            }
            assert forall|c: int, r: int| in_grid(R as nat, C as nat, c, r) implies #[trigger] new_cell_states[c][r] == (if c == col && r == row {
                Some(current_player)
            } else {
                self.cell_states[c][r]
            }) by {}
        }

        let hash = compute_board_hash(&new_cell_states, &new_column_heights);

        // a four in a row through the new piece wins
        let row_idx = current_col_height;
        if self.check_win(&new_cell_states, row_idx, col_idx, current_player) {
            let victory_state = Victory::new(current_player);
            let victory_board = Board {
                cell_states: new_cell_states,
                column_heights: new_column_heights,
                game_state: victory_state,
                hash,
            };
            return Ok(TurnResult::Victory(victory_board));
        }

        // a full board without one is a draw
        if is_board_full::<R, C>(&new_column_heights) {
            let draw_state = Draw {};
            let draw_board = Board {
                cell_states: new_cell_states,
                column_heights: new_column_heights,
                game_state: draw_state,
                hash,
            };
            return Ok(TurnResult::Draw(draw_board));
        }

        // otherwise the other player moves next
        let next_player = current_player.other();
        let in_progress_state = InProgress::new(next_player);
        let in_progress_board = Board {
            cell_states: new_cell_states,
            column_heights: new_column_heights,
            game_state: in_progress_state,
            hash,
        };
        Ok(TurnResult::InProgress(in_progress_board))
    }

    /// Whether `player` has four in a row through the cell `(col_idx, row_idx)`.
    fn check_win(
        &self,
        cell_states: &[[Option<CellState>; R]; C],
        row_idx: usize,
        col_idx: usize,
        player: CellState,
    ) -> (r: bool)
        requires
            row_idx < R < 64,
            col_idx < C < 64,
        ensures
            r == wins_at(*cell_states, col_idx as int, row_idx as int, player),
    {
        // horizontal
        if self.check_direction(cell_states, row_idx, col_idx, player, 0, 1) {
            return true;
        }
        // vertical
        if self.check_direction(cell_states, row_idx, col_idx, player, 1, 0) {
            return true;
        }
        // diagonal, bottom-left to top-right
        if self.check_direction(cell_states, row_idx, col_idx, player, 1, 1) {
            return true;
        }
        // diagonal, top-left to bottom-right
        if self.check_direction(cell_states, row_idx, col_idx, player, 1, -1) {
            return true;
        }
        false
    }

    /// Whether the line of `player` through `(col_idx, row_idx)` along the
    /// axis `(dc, dr)` holds at least four pieces.
    fn check_direction(
        &self,
        cell_states: &[[Option<CellState>; R]; C],
        row_idx: usize,
        col_idx: usize,
        player: CellState,
        dr: isize,
        dc: isize,
    ) -> (r: bool)
        requires
            row_idx < R < 64,
            col_idx < C < 64,
            unit_step(dc as int, dr as int),
        ensures
            r == (line_len(*cell_states, col_idx as int, row_idx as int, player, dc as int, dr as int)
                >= 4),
    {
        let mut count: usize = 1;
        // positive direction
        count += self.count_consecutive(cell_states, row_idx, col_idx, player, dr, dc);
        // negative direction
        count += self.count_consecutive(cell_states, row_idx, col_idx, player, -dr, -dc);
        count >= 4
    }

    /// The number of consecutive pieces of `player` next to
    /// `(col_idx, row_idx)` in the direction `(dc, dr)`.
    fn count_consecutive(
        &self,
        cell_states: &[[Option<CellState>; R]; C],
        row_idx: usize,
        col_idx: usize,
        player: CellState,
        dr: isize,
        dc: isize,
    ) -> (r: usize)
        requires
            row_idx < R < 64,
            col_idx < C < 64,
            unit_step(dc as int, dr as int),
        ensures
            r == run_len(
                *cell_states,
                col_idx + dc as int,
                row_idx + dr as int,
                player,
                dc as int,
                dr as int,
            ),
            r <= R + C,
    {
        let ghost total = run_len(
            *cell_states,
            col_idx + dc as int,
            row_idx + dr as int,
            player,
            dc as int,
            dr as int,
        );
        let mut count: usize = 0;
        let mut r: isize = row_idx as isize + dr;
        let mut c: isize = col_idx as isize + dc;
        proof {
            lemma_run_len_bound(*cell_states, c as int, r as int, player, dc as int, dr as int);
        }

        while r >= 0 && r < R as isize && c >= 0 && c < C as isize
            invariant
                R < 64,
                C < 64,
                unit_step(dc as int, dr as int),
                -1 <= r <= R,
                -1 <= c <= C,
                count + run_len(*cell_states, c as int, r as int, player, dc as int, dr as int)
                    == total,
                total <= R + C,
            ensures
                count == total,
            decreases axis_room(C as nat, c as int, dc as int) + axis_room(R as nat, r as int, dr as int),
        {
            match cell_states[c as usize][r as usize] {
                Some(cell_state) => {
                    if matches_player(cell_state, player) {
                        count += 1;
                        r += dr;
                        c += dc;
                    } else {
                        break;
                    }
                },
                None => break,
            }
        }
        count
    }
}

impl<const R: usize, const C: usize> Default for Board<R, C, InProgress> {
    /// The empty board with Red to move.
    fn default() -> (r: Self)
        ensures
            dims_fit(R as nat, C as nat) ==> r.wf(),
            forall|c: int| 0 <= c < C ==> #[trigger] r.heights()[c] == 0,
            forall|c: int, row: int|
                in_grid(R as nat, C as nat, c, row) ==> #[trigger] r.cells()[c][row] is None,
            r.state().player == CellState::Red,
            r.key() == 0,
            no_four(r.cells()),
    {
        let empty_column: [Option<CellState>; R] = [None; R];
        let cell_states: [[Option<CellState>; R]; C] = [empty_column; C];
        let column_heights: [usize; C] = [0; C];
        let game_state = InProgress::new(CellState::Red);
        proof {
            lemma2_to64();
            assert(empty_column == vstd::array::spec_array_fill_for_copy_type::<Option<CellState>, R>(None));
            assert forall|c: int| 0 <= c < C implies column_wf(
                #[trigger] cell_states[c]@,
                column_heights[c] as nat,
            ) by {
                assert(cell_states[c] == empty_column);
                assert(forall|r: int| 0 <= r < R ==> #[trigger] empty_column@[r] is None);
                assert(cell_states[c]@.len() == R);
            }
            let digits = column_codes(cell_states, column_heights);
            assert forall|i: int| 0 <= i < digits.len() implies #[trigger] digits[i] == 0 by {
                assert(column_code(cell_states[i]@, 0) == 0);
            }
            lemma_zero_digits(digits, radix_base(R as nat));
            assert forall|c: int, row: int, p: CellState| !#[trigger] four_at(cell_states, c, row, p) by {
                if in_grid(R as nat, C as nat, c, row) {
                    assert(cell_states[c] == empty_column);
                }
            }
        }
        Board { cell_states, column_heights, game_state, hash: 0 }
    }
}

/// Whether every column is filled to the top.
fn is_board_full<const R: usize, const C: usize>(column_heights: &[usize; C]) -> (r: bool)
    ensures
        r == all_full(*column_heights, R as nat),
{
    let mut i: usize = 0;
    while i < C
        invariant
            i <= C,
            forall|c: int| 0 <= c < i ==> column_heights[c] >= R,
        decreases C - i,
    {
        if column_heights[i] < R {
            return false;
        }
        i += 1;
    }
    true
}

fn matches_player(cell_state: CellState, player: CellState) -> (r: bool)
    ensures
        r == (cell_state == player),
{
    match (cell_state, player) {
        (CellState::Red, CellState::Red) => true,
        (CellState::Yellow, CellState::Yellow) => true,
        _ => false,
    }
}

/// Every well-formed board obeys gravity: each column height lies in
/// `[0, R]`, and a cell is occupied exactly when its row is below its
/// column's height.
pub proof fn lemma_gravity<const R: usize, const C: usize, S: GameState>(b: Board<R, C, S>)
    requires
        b.wf(),
    ensures
        forall|c: int| 0 <= c < C ==> #[trigger] b.heights()[c] <= R,
        forall|c: int, r: int|
            in_grid(R as nat, C as nat, c, r) ==> (#[trigger] b.cells()[c][r] is Some <==> r
                < b.heights()[c]),
{
    assert forall|c: int| 0 <= c < C implies #[trigger] b.heights()[c] <= R by {
        assert(column_wf(b.cells()[c]@, b.heights()[c] as nat));
    }
    assert forall|c: int, r: int| in_grid(R as nat, C as nat, c, r) implies (
    #[trigger] b.cells()[c][r] is Some <==> r < b.heights()[c]) by {
        assert(column_wf(b.cells()[c]@, b.heights()[c] as nat));
    }
}

/// Turns alternate: after a move that leaves the game in progress the other
/// player is to move, and after a second such move the first player again.
pub proof fn lemma_turns_alternate<const R: usize, const C: usize>(
    b0: Board<R, C, InProgress>,
    c1: int,
    b1: Board<R, C, InProgress>,
    c2: int,
    b2: Board<R, C, InProgress>,
)
    requires
        b0.spec_move(c1, TurnResult::InProgress(b1)),
        b1.spec_move(c2, TurnResult::InProgress(b2)),
    ensures
        b1.state().player == b0.state().player.spec_other(),
        b2.state().player == b0.state().player,
        b1.state().player != b0.state().player,
{
    assert(!wins_at(b1.cells(), c1, b0.heights()[c1] as int, b0.state().player));
    assert(!wins_at(b2.cells(), c2, b1.heights()[c2] as int, b1.state().player));
}

/// Under gravity a column's contents fix its height.
proof fn lemma_height_of_column(column: Seq<Option<CellState>>, h1: nat, h2: nat)
    requires
        column_wf(column, h1),
        column_wf(column, h2),
    ensures
        h1 == h2,
{
    if h1 < h2 {
        assert(column[h1 as int] is Some);
    }
    if h2 < h1 {
        assert(column[h2 as int] is Some);
    }
}

/// The key depends on the cells alone: two well-formed boards with the same
/// cells, whatever their phases, have the same key.
pub proof fn lemma_key_determined<const R: usize, const C: usize, S: GameState, T: GameState>(
    a: Board<R, C, S>,
    b: Board<R, C, T>,
)
    requires
        a.wf(),
        b.wf(),
        a.cells() == b.cells(),
    ensures
        a.heights() == b.heights(),
        a.key() == b.key(),
{
    assert forall|c: int| 0 <= c < C implies #[trigger] a.heights()[c] == b.heights()[c] by {
        assert(column_wf(a.cells()[c]@, a.heights()[c] as nat));
        assert(column_wf(b.cells()[c]@, b.heights()[c] as nat));
        lemma_height_of_column(a.cells()[c]@, a.heights()[c] as nat, b.heights()[c] as nat);
    }
    assert(a.heights() =~= b.heights());
}

/// The key is perfect: two well-formed boards of the same dimensions,
/// whatever their phases, have the same key exactly when they have the same
/// cells and the same column heights.
pub proof fn lemma_key_injective<const R: usize, const C: usize, S: GameState, T: GameState>(
    a: Board<R, C, S>,
    b: Board<R, C, T>,
)
    requires
        a.wf(),
        b.wf(),
    ensures
        a.key() == b.key() <==> (a.cells() == b.cells() && a.heights() == b.heights()),
{
    if a.key() == b.key() {
        let da = column_codes(a.cells(), a.heights());
        let db = column_codes(b.cells(), b.heights());
        lemma_gravity(a);
        lemma_gravity(b);
        lemma_codes_below_base(a.cells(), a.heights());
        lemma_codes_below_base(b.cells(), b.heights());
        assert forall|i: int| 0 <= i < da.len() implies #[trigger] da[i] < radix_base(R as nat) by {
            assert(column_codes(a.cells(), a.heights())[i] < radix_base(R as nat));
        }
        assert forall|i: int| 0 <= i < db.len() implies #[trigger] db[i] < radix_base(R as nat) by {
            assert(column_codes(b.cells(), b.heights())[i] < radix_base(R as nat));
        }
        lemma_mixed_radix_injective(da, db, radix_base(R as nat));
        assert forall|c: int| 0 <= c < C implies #[trigger] a.cells()[c] == b.cells()[c]
            && a.heights()[c] == b.heights()[c] by {
            assert(da[c] == db[c]);
            lemma_column_code_perfect(
                a.cells()[c]@,
                a.heights()[c] as nat,
                b.cells()[c]@,
                b.heights()[c] as nat,
            );
            assert(a.cells()[c] =~= b.cells()[c]);
        }
        assert(a.cells() =~= b.cells());
        assert forall|c: int| 0 <= c < C implies #[trigger] a.heights()[c] == b.heights()[c] by {
            assert(a.cells()[c] == b.cells()[c]);
        }
        assert(a.heights() =~= b.heights());
    }
}

/// A four in a row along `(dc, dr)` that the grid did not hold before a
/// piece was placed runs through that piece.
proof fn lemma_new_four_through_placed<const R: usize, const C: usize>(
    before: [[Option<CellState>; R]; C],
    after: [[Option<CellState>; R]; C],
    col: int,
    row: int,
    p: CellState,
    q: CellState,
    c: int,
    r: int,
    dc: int,
    dr: int,
)
    requires
        placed(before, after, col, row, p),
        unit_step(dc, dr),
        four_from(after, c, r, q, dc, dr),
        !four_from(before, c, r, q, dc, dr),
    ensures
        q == p,
        line_len(after, col, row, p, dc, dr) >= 4,
{
    let k: int = if c == col && r == row {
        0
    } else if c + dc == col && r + dr == row {
        1
    } else if c + 2 * dc == col && r + 2 * dr == row {
        2
    } else {
        3
    };
    assert(c == col - k * dc && r == row - k * dr);
    assert(after[col][row] == Some(p));
    lemma_four_gives_line(after, col, row, p, dc, dr, k);
}

/// Win detection is complete. From a board with no four in a row, a move
/// ends in victory exactly when the new board holds four in a row of the
/// mover's colour anywhere; a move that does not end in victory leaves no
/// four in a row of either colour.
pub proof fn lemma_victory_iff_four<const R: usize, const C: usize>(
    b: Board<R, C, InProgress>,
    col: int,
    t: TurnResult<R, C>,
)
    requires
        b.wf(),
        0 <= col < C,
        b.heights()[col] < R,
        no_four(b.cells()),
        b.spec_move(col, t),
    ensures
        t is Victory <==> has_four(t.cells(), b.state().player),
        !(t is Victory) ==> no_four(t.cells()),
{
    let row = b.heights()[col] as int;
    let p = b.state().player;
    let before = b.cells();
    let after = t.cells();
    assert(after[col][row] == Some(p));
    if wins_at(after, col, row, p) {
        let (dc, dr) = if line_len(after, col, row, p, 1, 0) >= 4 {
            (1int, 0int)
        } else if line_len(after, col, row, p, 0, 1) >= 4 {
            (0int, 1int)
        } else if line_len(after, col, row, p, 1, 1) >= 4 {
            (1int, 1int)
        } else {
            (-1int, 1int)
        };
        let k = lemma_line_gives_four(after, col, row, p, dc, dr);
        assert(four_at(after, col - k * dc, row - k * dr, p));
    } else {
        assert forall|q: CellState| !has_four(after, q) by {
            if has_four(after, q) {
                let (c, r) = choose|c: int, r: int| #[trigger] four_at(after, c, r, q);
                assert(!four_at(before, c, r, q));
                if four_from(after, c, r, q, 1, 0) {
                    lemma_new_four_through_placed(before, after, col, row, p, q, c, r, 1, 0);
                } else if four_from(after, c, r, q, 0, 1) {
                    lemma_new_four_through_placed(before, after, col, row, p, q, c, r, 0, 1);
                } else if four_from(after, c, r, q, 1, 1) {
                    lemma_new_four_through_placed(before, after, col, row, p, q, c, r, 1, 1);
                } else {
                    lemma_new_four_through_placed(before, after, col, row, p, q, c, r, -1, 1);
                }
            }
        }
    }
}

} // verus!
