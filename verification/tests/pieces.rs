use tetris::piece::{cells_for, Piece, ALL_PIECES};

/// Side of the box that a piece turns in.
fn side(piece: Piece) -> i32 {
    match piece {
        Piece::O => 2,
        Piece::I => 4,
        _ => 3,
    }
}

#[test]
fn spawn_shapes() {
    assert_eq!(cells_for(Piece::O, 0), [(0, 0), (1, 0), (0, 1), (1, 1)]);
    assert_eq!(cells_for(Piece::I, 0), [(0, 1), (1, 1), (2, 1), (3, 1)]);
    assert_eq!(cells_for(Piece::S, 0), [(1, 0), (2, 0), (0, 1), (1, 1)]);
    assert_eq!(cells_for(Piece::Z, 0), [(0, 0), (1, 0), (1, 1), (2, 1)]);
    assert_eq!(cells_for(Piece::T, 0), [(1, 0), (0, 1), (1, 1), (2, 1)]);
    assert_eq!(cells_for(Piece::L, 0), [(2, 0), (0, 1), (1, 1), (2, 1)]);
    assert_eq!(cells_for(Piece::J, 0), [(0, 0), (0, 1), (1, 1), (2, 1)]);
}

#[test]
fn bar_stands_right_of_the_middle_after_one_turn() {
    assert_eq!(cells_for(Piece::I, 1), [(2, 0), (2, 1), (2, 2), (2, 3)]);
    assert_eq!(cells_for(Piece::I, 3), [(1, 0), (1, 1), (1, 2), (1, 3)]);
}

#[test]
fn square_ignores_rotation() {
    for rotation in 0..4u8 {
        assert_eq!(cells_for(Piece::O, rotation), [(0, 0), (1, 0), (0, 1), (1, 1)]);
    }
}

#[test]
fn each_state_is_the_one_before_turned_clockwise() {
    for piece in ALL_PIECES {
        for rotation in 0..4u8 {
            let mut turned: Vec<(i32, i32)> = cells_for(piece, rotation)
                .iter()
                .map(|&(x, y)| (side(piece) - 1 - y, x))
                .collect();
            turned.sort_by_key(|&(x, y)| (y, x));
            assert_eq!(turned, cells_for(piece, (rotation + 1) % 4).to_vec());
        }
    }
}

#[test]
fn states_past_the_third_count_as_the_third() {
    for piece in ALL_PIECES {
        assert_eq!(cells_for(piece, 4), cells_for(piece, 3));
        assert_eq!(cells_for(piece, 255), cells_for(piece, 3));
    }
}
