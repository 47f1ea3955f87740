use connect_four::{
    Board, CellState, GameWrapper, GameplayError, InProgress, TurnResult, WrapperError,
};

fn play<const R: usize, const C: usize>(moves: &[usize]) -> GameWrapper<R, C> {
    let mut game: GameWrapper<R, C> = GameWrapper::InProgress(Board::default());
    for &col in moves {
        game = game.make_move(col).unwrap();
    }
    game
}

fn in_progress<const R: usize, const C: usize>(game: GameWrapper<R, C>) -> Board<R, C, InProgress> {
    match game {
        GameWrapper::InProgress(b) => b,
        _ => panic!("game is not in progress"),
    }
}

#[test]
fn empty_board_starts_with_red() {
    let board: Board<6, 7, InProgress> = Board::default();
    assert_eq!(board.player(), CellState::Red);
    assert_eq!(board.column_heights(), &[0; 7]);
    assert_eq!(board.hash(), 0);
    assert_eq!(board.dimensions(), (6, 7));
    assert_eq!(board.get_valid_moves(), vec![0, 1, 2, 3, 4, 5, 6]);
    assert!(board.cell_states().iter().all(|col| col.iter().all(|c| c.is_none())));
}

#[test]
fn move_drops_piece_and_leaves_old_board() {
    let board: Board<6, 7, InProgress> = Board::default();
    let next = match board.make_move(3).unwrap() {
        TurnResult::InProgress(b) => b,
        _ => panic!("expected an in-progress board"),
    };
    assert_eq!(next.cell_states()[3][0], Some(CellState::Red));
    assert_eq!(next.get_column_height(3), 1);
    assert_eq!(next.player(), CellState::Yellow);
    // the original board is untouched
    assert_eq!(board.get_column_height(3), 0);
    assert_eq!(board.cell_states()[3][0], None);
    assert_eq!(board.player(), CellState::Red);

    let after = match next.make_move(3).unwrap() {
        TurnResult::InProgress(b) => b,
        _ => panic!("expected an in-progress board"),
    };
    assert_eq!(after.cell_states()[3][1], Some(CellState::Yellow));
    assert_eq!(after.get_column_height(3), 2);
}

#[test]
fn turns_alternate() {
    let mut game: GameWrapper<6, 7> = GameWrapper::InProgress(Board::default());
    let mut expected = CellState::Red;
    for col in [0, 1, 2, 0, 1, 2, 4, 5] {
        assert_eq!(game.current_player(), Some(expected));
        game = game.make_move(col).unwrap();
        expected = expected.other();
    }
    assert_eq!(game.current_player(), Some(CellState::Red));
}

#[test]
fn horizontal_win_for_red() {
    // Red plays 0, 1, 2, 3 while Yellow always answers in column 6
    let before = in_progress(play::<6, 7>(&[0, 6, 1, 6, 2, 6]));
    assert!(before.get_valid_moves().contains(&3));
    match before.make_move(3).unwrap() {
        TurnResult::Victory(b) => assert_eq!(b.winner(), CellState::Red),
        _ => panic!("expected a victory"),
    }
    let game = play::<6, 7>(&[0, 6, 1, 6, 2, 6, 3]);
    assert!(game.is_victory());
    assert!(!game.is_in_progress());
    assert!(!game.is_draw());
    assert_eq!(game.winner(), Some(CellState::Red));
    assert_eq!(game.current_player(), None);
    assert!(game.get_valid_moves().is_empty());
}

#[test]
fn three_in_a_row_does_not_win() {
    let game = play::<6, 7>(&[0, 6, 1, 6, 2]);
    assert!(game.is_in_progress());
    assert_eq!(game.winner(), None);
}

#[test]
fn vertical_win_for_yellow() {
    let game = play::<6, 7>(&[0, 1, 0, 1, 0, 1, 2, 1]);
    assert_eq!(game.winner(), Some(CellState::Yellow));
}

#[test]
fn diagonal_wins() {
    // rising diagonal of red: (0,0) (1,1) (2,2) (3,3)
    let rising = play::<6, 7>(&[0, 1, 1, 2, 2, 3, 2, 3, 3, 6, 3]);
    assert_eq!(rising.winner(), Some(CellState::Red));

    // falling diagonal of red: (3,0) (2,1) (1,2) (0,3)
    let falling = play::<6, 7>(&[3, 2, 2, 1, 1, 0, 1, 0, 0, 6, 6, 6, 0]);
    assert_eq!(falling.winner(), Some(CellState::Red));
}

#[test]
fn win_completed_in_the_middle_of_a_line() {
    // red holds columns 0, 1 and 3 on the bottom row, then fills the gap
    let game = play::<6, 7>(&[0, 6, 1, 6, 3, 5, 2]);
    assert_eq!(game.winner(), Some(CellState::Red));
}

#[test]
fn draw_on_small_board() {
    // a 4x4 fill with no four in a row
    let moves = [0, 2, 1, 3, 2, 0, 3, 1, 0, 2, 1, 3, 2, 0, 3, 1];
    let before = in_progress(play::<4, 4>(&moves[..15]));
    assert_eq!(before.get_valid_moves(), vec![1]);
    match before.make_move(1).unwrap() {
        TurnResult::Draw(b) => assert_eq!(b.column_heights(), &[4; 4]),
        _ => panic!("expected a draw"),
    }
    let game = play::<4, 4>(&moves);
    assert!(game.is_draw());
    assert_eq!(game.winner(), None);
    assert_eq!(game.current_player(), None);
    assert!(game.get_valid_moves().is_empty());
}

#[test]
fn tiny_boards_end_in_draw() {
    let row = play::<1, 4>(&[0, 1, 2, 3]);
    assert!(row.is_draw());
    let column = play::<4, 1>(&[0, 0, 0, 0]);
    assert!(column.is_draw());
}

#[test]
fn win_that_fills_the_board_is_a_victory() {
    // the last cell of a 4x4 board completes yellow's column 3
    let moves = [0, 2, 1, 3, 0, 1, 2, 3, 1, 0, 2, 3, 0, 1, 2, 3];
    let game = play::<4, 4>(&moves);
    assert!(game.is_victory());
    assert!(!game.is_draw());
    assert_eq!(game.winner(), Some(CellState::Yellow));
    assert_eq!(game.column_heights(), &[4; 4]);
}

#[test]
fn column_out_of_bounds() {
    let board: Board<6, 7, InProgress> = Board::default();
    assert!(matches!(board.make_move(7), Err(GameplayError::ColumnOutOfBounds)));
    let game: GameWrapper<6, 7> = GameWrapper::InProgress(Board::default());
    assert!(matches!(
        game.make_move(7),
        Err(WrapperError::Gameplay(GameplayError::ColumnOutOfBounds))
    ));
}

#[test]
fn column_full() {
    let game = play::<6, 7>(&[0, 0, 0, 0, 0, 0]);
    assert_eq!(game.column_heights()[0], 6);
    assert!(!game.get_valid_moves().contains(&0));
    assert!(matches!(
        game.make_move(0),
        Err(WrapperError::Gameplay(GameplayError::ColumnFull))
    ));
    let board = in_progress(game);
    assert!(matches!(board.make_move(0), Err(GameplayError::ColumnFull)));
    assert!(matches!(board.make_move(0), Err(GameplayError::ColumnFull)));
}

#[test]
fn terminal_boards_reject_moves() {
    let won = play::<6, 7>(&[0, 6, 1, 6, 2, 6, 3]);
    for col in [0, 4, 7, 100] {
        assert!(matches!(won.make_move(col), Err(WrapperError::GameNotInProgress)));
    }
    let drawn = play::<4, 4>(&[0, 2, 1, 3, 2, 0, 3, 1, 0, 2, 1, 3, 2, 0, 3, 1]);
    for col in [0, 3, 4] {
        assert!(matches!(drawn.make_move(col), Err(WrapperError::GameNotInProgress)));
    }
}

#[test]
fn hash_exact_values() {
    // one red piece in column 0: column key 2, weight 127^6
    let game = play::<6, 7>(&[0]);
    assert_eq!(game.hash(), 2 * 127u64.pow(6));
    // then a yellow piece in column 6: column key 1, weight 1
    let game = play::<6, 7>(&[0, 6]);
    assert_eq!(game.hash(), 2 * 127u64.pow(6) + 1);
    // red then yellow in column 3: pattern 0b01 plus 2^2 - 1
    let game = play::<6, 7>(&[3, 3]);
    assert_eq!(game.hash(), 4 * 127u64.pow(3));
}

#[test]
fn hash_is_determined_by_content() {
    let a = play::<6, 7>(&[0, 1, 2, 3]);
    let b = play::<6, 7>(&[2, 3, 0, 1]);
    assert_eq!(a.get_cell_states(), b.get_cell_states());
    assert_eq!(a.hash(), b.hash());
    assert_eq!(a.hash(), play::<6, 7>(&[0, 1, 2, 3]).hash());
}

#[test]
fn hash_distinguishes_positions() {
    let a = play::<6, 7>(&[0, 1]);
    let swapped = play::<6, 7>(&[1, 0]);
    assert_ne!(a.hash(), swapped.hash());
    // mirror images get different keys
    let left = play::<6, 7>(&[0]);
    let right = play::<6, 7>(&[6]);
    assert_ne!(left.hash(), right.hash());
    // same pieces stacked in another order
    let stacked = play::<6, 7>(&[0, 0]);
    let other = play::<6, 7>(&[1, 0, 0]);
    assert_ne!(stacked.hash(), other.hash());
}

#[test]
fn cell_lookup() {
    let game = play::<6, 7>(&[3, 3, 4]);
    assert_eq!(game.get_cell(3, 0), Some(CellState::Red));
    assert_eq!(game.get_cell(3, 1), Some(CellState::Yellow));
    assert_eq!(game.get_cell(4, 0), Some(CellState::Red));
    assert_eq!(game.get_cell(3, 2), None);
    assert_eq!(game.get_cell(0, 0), None);
}

#[test]
fn error_messages() {
    assert_eq!(GameplayError::ColumnFull.message(), "column is at max capacity");
    assert_eq!(GameplayError::ColumnOutOfBounds.message(), "column index is out of bounds");
    assert_eq!(WrapperError::GameNotInProgress.message(), "game is not in progress");
    assert_eq!(
        WrapperError::Gameplay(GameplayError::ColumnFull).message(),
        "column is at max capacity"
    );
}
