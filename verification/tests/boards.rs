use tetris::board::{
    blank_board, collapse, collides_shape, copy_board, full_rows, lists_row, stamp, stamp_piece,
    BOARD_W,
};
use tetris::piece::{cells_for, Piece};

#[test]
fn blank_boards_are_empty() {
    assert_eq!(blank_board(3), vec![[false; BOARD_W]; 3]);
    assert!(blank_board(0).is_empty());
}

#[test]
fn walls_and_floor_block() {
    let board = blank_board(16);
    let bar = cells_for(Piece::I, 0);
    assert!(!collides_shape(&board, 0, 0, bar));
    assert!(collides_shape(&board, -1, 0, bar));
    assert!(!collides_shape(&board, 6, 0, bar));
    assert!(collides_shape(&board, 7, 0, bar));
    assert!(!collides_shape(&board, 3, 14, bar));
    assert!(collides_shape(&board, 3, 15, bar));
}

#[test]
fn the_space_above_is_free() {
    let board = blank_board(16);
    assert!(!collides_shape(&board, 3, -5, cells_for(Piece::I, 1)));
    assert!(collides_shape(&board, -3, -5, cells_for(Piece::I, 1)));
}

#[test]
fn filled_cells_block() {
    let mut board = blank_board(16);
    board[9][4] = true;
    let square = cells_for(Piece::O, 0);
    assert!(collides_shape(&board, 4, 8, square));
    assert!(collides_shape(&board, 3, 9, square));
    assert!(!collides_shape(&board, 5, 8, square));
    assert!(!collides_shape(&board, 4, 7, square));
}

#[test]
fn stamping_fills_the_covered_cells() {
    let mut board = blank_board(16);
    board[15][0] = true;
    stamp(&mut board, 2, 13, cells_for(Piece::T, 0));
    let mut expected = blank_board(16);
    expected[15][0] = true;
    for (x, y) in [(3, 13), (2, 14), (3, 14), (4, 14)] {
        expected[y][x] = true;
    }
    assert_eq!(board, expected);
}

#[test]
fn a_copy_is_stamped_apart_from_its_board() {
    let board = blank_board(16);
    let mut copy = copy_board(&board);
    assert_eq!(copy, board);
    stamp_piece(&mut copy, Piece::L, 1, 0, 13);
    let mut expected = blank_board(16);
    for (x, y) in [(1, 13), (1, 14), (1, 15), (2, 15)] {
        expected[y][x] = true;
    }
    assert_eq!(copy, expected);
    assert_eq!(board, blank_board(16));
}

#[test]
fn stamping_skips_cells_off_the_top_and_bottom() {
    let mut board = blank_board(3);
    stamp(&mut board, 0, -2, cells_for(Piece::I, 1));
    let mut expected = blank_board(3);
    expected[0][2] = true;
    expected[1][2] = true;
    assert_eq!(board, expected);
}

#[test]
fn full_rows_are_listed_from_the_top() {
    let mut board = blank_board(5);
    board[1] = [true; BOARD_W];
    board[2] = [true; BOARD_W];
    board[2][7] = false;
    board[4] = [true; BOARD_W];
    assert_eq!(full_rows(&board), vec![1, 4]);
    assert!(full_rows(&blank_board(5)).is_empty());
}

#[test]
fn listed_rows_are_found() {
    assert!(lists_row(&vec![3, 5], 5));
    assert!(!lists_row(&vec![3, 5], 4));
    assert!(!lists_row(&vec![], 0));
}

#[test]
fn collapsing_drops_the_rows_above() {
    let mut board = blank_board(5);
    board[0][0] = true;
    board[1] = [true; BOARD_W];
    board[2][2] = true;
    board[3] = [true; BOARD_W];
    board[4][4] = true;
    let mut expected = blank_board(5);
    expected[2][0] = true;
    expected[3][2] = true;
    expected[4][4] = true;
    assert_eq!(collapse(&board, &vec![1, 3]), expected);
    assert_eq!(collapse(&board, &vec![]), board);
}
