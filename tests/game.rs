use connect4::{Connect4, Error, Piece, Tile, Winner, COLS, ROWS};

fn play(game: &mut Connect4, moves: &[usize]) {
    for &m in moves {
        assert_eq!(game.drop_piece(m), Ok(()));
    }
}

fn tile(game: &Connect4, col: usize, row: usize) -> Tile {
    game.to_rows()[row][col]
}

#[test]
fn opposite_toggles() {
    assert_eq!(Piece::PieceX.opposite(), Piece::PieceO);
    assert_eq!(Piece::PieceO.opposite(), Piece::PieceX);
    assert_eq!(Piece::default(), Piece::PieceX);
}

#[test]
fn new_game_is_empty() {
    let game = Connect4::new();
    let rows = game.to_rows();
    assert_eq!(rows.len(), ROWS);
    for row in &rows {
        assert_eq!(row.len(), COLS);
        assert!(row.iter().all(|t| t.is_none()));
    }
    assert_eq!(game.current_piece(), Piece::PieceX);
    assert_eq!(game.winner(), None);
    let other = Connect4::default();
    assert_eq!(other.to_rows(), rows);
}

#[test]
fn gravity_lands_on_bottom_and_stacks() {
    let mut game = Connect4::new();
    play(&mut game, &[3]);
    assert_eq!(tile(&game, 3, ROWS - 1), Some(Piece::PieceX));
    assert_eq!(tile(&game, 3, ROWS - 2), None);
    play(&mut game, &[3, 3]);
    assert_eq!(tile(&game, 3, 5), Some(Piece::PieceX));
    assert_eq!(tile(&game, 3, 4), Some(Piece::PieceO));
    assert_eq!(tile(&game, 3, 3), Some(Piece::PieceX));
    assert_eq!(tile(&game, 3, 2), None);
    let occupied = game.to_rows().iter().flatten().filter(|t| t.is_some()).count();
    assert_eq!(occupied, 3);
}

#[test]
fn to_rows_transposes_columns() {
    let mut game = Connect4::new();
    play(&mut game, &[0, 6]);
    let rows = game.to_rows();
    assert_eq!(rows[5][0], Some(Piece::PieceX));
    assert_eq!(rows[5][6], Some(Piece::PieceO));
    assert_eq!(rows[5][1], None);
    assert_eq!(rows[0][0], None);
}

#[test]
fn turns_alternate() {
    let mut game = Connect4::new();
    let moves = [0, 1, 2, 3, 4, 5, 6, 0, 1, 2];
    for (i, &m) in moves.iter().enumerate() {
        let expected = if i % 2 == 0 { Piece::PieceX } else { Piece::PieceO };
        assert_eq!(game.current_piece(), expected);
        assert_eq!(game.drop_piece(m), Ok(()));
    }
    assert_eq!(game.current_piece(), Piece::PieceX);
}

#[test]
fn full_column_is_refused() {
    let mut game = Connect4::new();
    play(&mut game, &[2, 2, 2, 2, 2, 2]);
    let rows = game.to_rows();
    let piece = game.current_piece();
    assert_eq!(game.drop_piece(2), Err(Error::NoSpaceLeftInColumn));
    assert_eq!(game.to_rows(), rows);
    assert_eq!(game.current_piece(), piece);
    assert_eq!(game.winner(), None);
    assert_eq!(game.drop_piece(3), Ok(()));
}

#[test]
fn out_of_range_is_refused() {
    let mut game = Connect4::new();
    play(&mut game, &[1]);
    let rows = game.to_rows();
    assert_eq!(game.drop_piece(7), Err(Error::InvalidMove));
    assert_eq!(game.drop_piece(usize::MAX), Err(Error::InvalidMove));
    assert_eq!(game.to_rows(), rows);
    assert_eq!(game.current_piece(), Piece::PieceO);
}

#[test]
fn horizontal_win() {
    let mut game = Connect4::new();
    play(&mut game, &[0, 6, 1, 6, 2, 6]);
    assert_eq!(game.winner(), None);
    play(&mut game, &[3]);
    assert_eq!(game.winner(), Some(Winner::WinnerX));
    for col in 0..4 {
        assert_eq!(tile(&game, col, 5), Some(Piece::PieceX));
    }
}

#[test]
fn vertical_win_for_o() {
    let mut game = Connect4::new();
    play(&mut game, &[0, 1, 2, 1, 3, 1, 5]);
    assert_eq!(game.winner(), None);
    play(&mut game, &[1]);
    assert_eq!(game.winner(), Some(Winner::WinnerO));
}

#[test]
fn diagonal_win() {
    let mut game = Connect4::new();
    play(&mut game, &[0, 1, 1, 2, 2, 3, 2, 3, 3, 6]);
    assert_eq!(tile(&game, 0, 5), Some(Piece::PieceX));
    assert_eq!(tile(&game, 1, 4), Some(Piece::PieceX));
    assert_eq!(tile(&game, 2, 3), Some(Piece::PieceX));
    assert_eq!(game.winner(), None);
    play(&mut game, &[3]);
    assert_eq!(tile(&game, 3, 2), Some(Piece::PieceX));
    assert_eq!(game.winner(), Some(Winner::WinnerX));
}

#[test]
fn finished_game_refuses_moves() {
    let mut game = Connect4::new();
    play(&mut game, &[0, 6, 1, 6, 2, 6, 3]);
    assert_eq!(game.winner(), Some(Winner::WinnerX));
    let rows = game.to_rows();
    let piece = game.current_piece();
    for col in 0..COLS {
        assert_eq!(game.drop_piece(col), Err(Error::InvalidMove));
    }
    assert_eq!(game.drop_piece(9), Err(Error::InvalidMove));
    assert_eq!(game.to_rows(), rows);
    assert_eq!(game.current_piece(), piece);
    assert_eq!(game.winner(), Some(Winner::WinnerX));
}

#[test]
fn full_board_without_line_is_tie() {
    let moves = [
        0, 0, 0, 0, 0, 0, 1, 1, 1, 1, 1, 1, 4, 2, 2, 2, 2, 2, 2, 3, 3, 3, 3, 3, 3, 4, 4, 4, 4, 4,
        5, 5, 5, 5, 5, 6, 6, 6, 6, 6, 6, 5,
    ];
    let mut game = Connect4::new();
    let (last, rest) = moves.split_last().unwrap();
    play(&mut game, rest);
    assert_eq!(game.winner(), None);
    play(&mut game, &[*last]);
    assert_eq!(game.winner(), Some(Winner::Tie));
    assert!(game.to_rows().iter().flatten().all(|t| t.is_some()));
    assert_eq!(game.drop_piece(0), Err(Error::InvalidMove));
}

#[test]
fn line_on_last_tile_wins_over_tie() {
    let moves = [
        0, 2, 4, 6, 0, 1, 2, 2, 2, 4, 2, 2, 3, 1, 0, 3, 6, 4, 3, 5, 5, 4, 5, 0, 3, 1, 6, 6, 4, 3,
        0, 3, 5, 5, 0, 5, 1, 1, 1, 6, 6, 4,
    ];
    let mut game = Connect4::new();
    let (last, rest) = moves.split_last().unwrap();
    play(&mut game, rest);
    assert_eq!(game.winner(), None);
    play(&mut game, &[*last]);
    assert!(game.to_rows().iter().flatten().all(|t| t.is_some()));
    assert_eq!(game.winner(), Some(Winner::WinnerO));
}

#[test]
fn queries_are_stable() {
    let mut game = Connect4::new();
    play(&mut game, &[3, 4, 3]);
    let rows = game.to_rows();
    let piece = game.current_piece();
    let outcome = game.winner();
    for _ in 0..3 {
        assert_eq!(game.to_rows(), rows);
        assert_eq!(game.current_piece(), piece);
        assert_eq!(game.winner(), outcome);
    }
}

#[test]
fn win_completed_in_the_middle_of_a_capped_row() {
    let mut game = Connect4::new();
    play(&mut game, &[0, 0, 2, 6, 3, 3]);
    assert_eq!(game.winner(), None);
    play(&mut game, &[1]);
    for col in 0..4 {
        assert_eq!(tile(&game, col, 5), Some(Piece::PieceX));
    }
    assert_eq!(tile(&game, 0, 4), Some(Piece::PieceO));
    assert_eq!(tile(&game, 3, 4), Some(Piece::PieceO));
    assert_eq!(game.winner(), Some(Winner::WinnerX));
    assert_eq!(game.drop_piece(4), Err(Error::InvalidMove));
}

#[test]
fn clone_keeps_the_state() {
    let mut game = Connect4::new();
    play(&mut game, &[2, 3]);
    let mut copy = game.clone();
    assert_eq!(copy.to_rows(), game.to_rows());
    assert_eq!(copy.current_piece(), game.current_piece());
    assert_eq!(copy.drop_piece(2), Ok(()));
    assert_eq!(tile(&game, 2, 4), None);
}
