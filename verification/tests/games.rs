use std::collections::VecDeque;
use tetris::layout::Point;
use tetris::piece::Piece;
use tetris::scene::{DrawCommand, PixelColor};
use tetris::TetrisGame;

/// A screen on which the board has 20 rows of cells of 10 pixels, from (0, 3).
const SCREEN: Point = Point { x: 134, y: 206 };

fn game_of(pieces: &[Piece]) -> TetrisGame {
    TetrisGame::with_queue(SCREEN, VecDeque::from(pieces.to_vec()))
}

/// The drawn cells of the board as (column, row, solid), the falling piece last.
fn cells(game: &TetrisGame) -> Vec<(isize, isize, bool)> {
    let mut found = Vec::new();
    for command in game.draw(SCREEN) {
        if let DrawCommand::Rounded(rect) = command {
            if rect.radius == 2 {
                let solid = rect.border.style.fill == PixelColor::Dark;
                found.push((rect.border.tl.x / 10, (rect.border.tl.y - 3) / 10, solid));
            }
        }
    }
    found
}

/// The drawn cells as (column, row).
fn places(game: &TetrisGame) -> Vec<(isize, isize)> {
    cells(game).iter().map(|&(x, y, _)| (x, y)).collect()
}

fn shift(game: &mut TetrisGame, columns: i32) {
    for _ in 0..columns.abs() {
        if columns < 0 {
            game.move_left();
        } else {
            game.move_right();
        }
    }
}

fn ticks(game: &mut TetrisGame, count: usize) -> Vec<bool> {
    (0..count).map(|_| game.gravity_tick()).collect()
}

/// Two bars and a square that fill the bottom row.
fn game_with_one_full_row() -> TetrisGame {
    let mut game = game_of(&[Piece::I, Piece::I, Piece::O, Piece::T, Piece::S, Piece::Z]);
    shift(&mut game, -4);
    game.hard_drop();
    game.hard_drop();
    shift(&mut game, 4);
    game.hard_drop();
    game
}

#[test]
fn a_new_game_drops_one_piece_on_an_empty_board() {
    for _ in 0..20 {
        let game = TetrisGame::new(SCREEN);
        assert!(!game.is_over());
        assert_eq!(game.score(), 0);
        let shown = cells(&game);
        assert_eq!(shown.len(), 4);
        assert!(shown.iter().all(|&(x, y, solid)| (4..8).contains(&x) && y < 2 && !solid));
    }
}

#[test]
fn the_queue_decides_the_first_piece() {
    let game = game_of(&[Piece::T, Piece::S, Piece::Z]);
    assert_eq!(places(&game), vec![(5, 0), (4, 1), (5, 1), (6, 1)]);
}

#[test]
fn walls_stop_steps_to_the_side() {
    let mut game = game_of(&[Piece::T, Piece::S, Piece::Z]);
    shift(&mut game, -4);
    assert_eq!(places(&game), vec![(1, 0), (0, 1), (1, 1), (2, 1)]);
    game.move_left();
    assert_eq!(places(&game), vec![(1, 0), (0, 1), (1, 1), (2, 1)]);
    shift(&mut game, 20);
    assert_eq!(places(&game), vec![(8, 0), (7, 1), (8, 1), (9, 1)]);
}

#[test]
fn a_step_back_undoes_a_step() {
    let mut game = game_of(&[Piece::L, Piece::S, Piece::Z]);
    let before = places(&game);
    game.move_left();
    assert_ne!(places(&game), before);
    game.move_right();
    assert_eq!(places(&game), before);
}

#[test]
fn turning_in_the_open_stays_in_place() {
    let mut game = game_of(&[Piece::T, Piece::S, Piece::Z]);
    let before = places(&game);
    game.rotate();
    assert_eq!(places(&game), vec![(5, 0), (5, 1), (6, 1), (5, 2)]);
    game.rotate();
    game.rotate();
    game.rotate();
    assert_eq!(places(&game), before);
}

#[test]
fn the_square_does_not_turn() {
    let mut game = game_of(&[Piece::O, Piece::S, Piece::Z]);
    let before = places(&game);
    game.rotate();
    assert_eq!(places(&game), before);
}

#[test]
fn walls_nudge_a_turning_bar() {
    let mut game = game_of(&[Piece::I, Piece::S, Piece::Z]);
    game.rotate();
    shift(&mut game, 20);
    assert_eq!(places(&game), vec![(9, 0), (9, 1), (9, 2), (9, 3)]);
    game.rotate();
    assert_eq!(places(&game), vec![(6, 2), (7, 2), (8, 2), (9, 2)]);

    let mut game = game_of(&[Piece::I, Piece::S, Piece::Z]);
    game.rotate();
    shift(&mut game, -20);
    assert_eq!(places(&game), vec![(0, 0), (0, 1), (0, 2), (0, 3)]);
    game.rotate();
    assert_eq!(places(&game), vec![(0, 2), (1, 2), (2, 2), (3, 2)]);
}

#[test]
fn a_boxed_in_bar_does_not_turn() {
    let mut game = game_of(&[Piece::I; 8]);
    for column in 1..5 {
        game.rotate();
        shift(&mut game, column - 6);
        game.hard_drop();
    }
    game.rotate();
    shift(&mut game, -6);
    ticks(&mut game, 16 * 60);
    let before = places(&game);
    assert_eq!(before[16..], [(0, 16), (0, 17), (0, 18), (0, 19)]);
    game.rotate();
    assert_eq!(places(&game), before);
}

#[test]
fn gravity_steps_every_sixty_ticks() {
    let mut game = game_of(&[Piece::O, Piece::S, Piece::Z]);
    let shown = ticks(&mut game, 120);
    for (i, &shows) in shown.iter().enumerate() {
        assert_eq!(shows, i == 59 || i == 119);
    }
    assert_eq!(places(&game), vec![(4, 2), (5, 2), (4, 3), (5, 3)]);
}

#[test]
fn gravity_locks_a_landed_piece() {
    let mut game = game_of(&[Piece::O, Piece::I, Piece::Z]);
    ticks(&mut game, 18 * 60);
    assert_eq!(places(&game), vec![(4, 18), (5, 18), (4, 19), (5, 19)]);
    assert!(ticks(&mut game, 60)[59]);
    assert_eq!(
        places(&game),
        vec![(4, 18), (5, 18), (4, 19), (5, 19), (4, 1), (5, 1), (6, 1), (7, 1)]
    );
}

#[test]
fn a_silent_tick_keeps_the_picture_and_a_showing_one_changes_it() {
    let mut game = game_with_one_full_row();
    for _ in 0..200 {
        let before = format!("{:?}", game.draw(SCREEN));
        let shows = game.gravity_tick();
        assert_eq!(shows, format!("{:?}", game.draw(SCREEN)) != before);
    }
}

#[test]
fn a_new_piece_starts_a_fresh_countdown() {
    let mut game = game_of(&[Piece::O, Piece::O, Piece::Z]);
    ticks(&mut game, 59);
    game.hard_drop();
    assert!(ticks(&mut game, 59).iter().all(|&shows| !shows));
    assert!(game.gravity_tick());
}

#[test]
fn a_hard_drop_locks_where_the_piece_lands() {
    let mut game = game_of(&[Piece::O, Piece::O, Piece::I, Piece::T]);
    game.hard_drop();
    game.hard_drop();
    let shown = places(&game);
    assert_eq!(shown[..4], [(4, 16), (5, 16), (4, 17), (5, 17)]);
    assert_eq!(shown[4..8], [(4, 18), (5, 18), (4, 19), (5, 19)]);
    assert_eq!(shown[8..], [(4, 1), (5, 1), (6, 1), (7, 1)]);
}

#[test]
fn gravity_does_in_time_what_a_hard_drop_does_at_once() {
    let pieces = [Piece::L, Piece::S, Piece::Z, Piece::T];
    let mut dropped = game_of(&pieces);
    dropped.hard_drop();
    let mut fallen = game_of(&pieces);
    ticks(&mut fallen, 19 * 60 - 1);
    assert_ne!(places(&fallen), places(&dropped));
    fallen.gravity_tick();
    assert_eq!(places(&fallen), places(&dropped));
}

#[test]
fn gravity_ends_like_a_hard_drop_from_any_countdown() {
    let pieces = [Piece::J, Piece::S, Piece::Z, Piece::T];
    for head_start in [1, 30, 59, 60, 61] {
        let mut dropped = game_of(&pieces);
        ticks(&mut dropped, head_start);
        dropped.hard_drop();
        let mut fallen = game_of(&pieces);
        ticks(&mut fallen, head_start);
        ticks(&mut fallen, 19 * 60 - head_start);
        assert_eq!(places(&fallen), places(&dropped));
    }
}

#[test]
fn gains_are_foretold() {
    let mut game = game_of(&[Piece::I, Piece::I, Piece::O, Piece::T, Piece::S, Piece::Z]);
    shift(&mut game, -4);
    assert_eq!((game.drop_gain(), game.tick_gain()), (0, 0));
    game.hard_drop();
    game.hard_drop();
    assert_eq!(game.drop_gain(), 0);
    shift(&mut game, 4);
    assert_eq!((game.drop_gain(), game.tick_gain()), (100, 0));
    ticks(&mut game, 18 * 60 + 58);
    assert_eq!(game.tick_gain(), 0);
    game.gravity_tick();
    assert_eq!(game.tick_gain(), 100);
    assert_eq!(game.score(), 0);
    game.gravity_tick();
    assert_eq!(game.score(), 100);
    assert_eq!((game.drop_gain(), game.tick_gain()), (0, 0));
}

#[test]
fn the_score_and_the_preview_do_not_depend_on_the_board() {
    let hud = |game: &TetrisGame| {
        let commands = game.draw(SCREEN);
        format!("{:?}", &commands[commands.len() - 8..])
    };
    let fresh = game_of(&[Piece::O, Piece::T, Piece::S]);
    let mut played = game_of(&[Piece::I, Piece::J, Piece::T, Piece::Z, Piece::L]);
    played.hard_drop();
    played.rotate();
    played.gravity_tick();
    assert_ne!(places(&played), places(&fresh));
    assert_eq!(hud(&played), hud(&fresh));
}

#[test]
fn one_row_scores_a_hundred_and_flashes() {
    let mut game = game_with_one_full_row();
    assert_eq!(game.score(), 100);
    let solid: Vec<(isize, isize)> =
        cells(&game).iter().filter(|c| c.2).map(|c| (c.0, c.1)).collect();
    assert_eq!(solid, (0..10).map(|x| (x, 19)).collect::<Vec<(isize, isize)>>());
    assert_eq!(cells(&game).len(), 12);
}

#[test]
fn a_flash_blinks_twice_and_then_drops_the_rows() {
    let mut game = game_with_one_full_row();
    for phase in 0..4 {
        let lit = cells(&game).iter().filter(|c| c.2).count();
        assert_eq!(lit, if phase % 2 == 0 { 10 } else { 0 });
        let shown = ticks(&mut game, 8);
        assert!(shown[..7].iter().all(|&shows| !shows));
        assert!(shown[7]);
    }
    assert_eq!(
        places(&game),
        vec![(8, 19), (9, 19), (5, 0), (4, 1), (5, 1), (6, 1)]
    );
    assert_eq!(game.score(), 100);
}

#[test]
fn a_flash_pauses_the_player() {
    let mut game = game_with_one_full_row();
    let before = cells(&game);
    game.move_left();
    game.move_right();
    game.rotate();
    game.hard_drop();
    assert_eq!(cells(&game), before);
    assert_eq!(game.score(), 100);
}

#[test]
fn two_rows_score_three_hundred() {
    let mut game = game_of(&[Piece::O; 8]);
    for column in [0, 2, 4, 6, 8] {
        shift(&mut game, column - 4);
        game.hard_drop();
    }
    assert_eq!(game.score(), 300);
    assert_eq!(cells(&game).iter().filter(|c| c.2).count(), 20);
    ticks(&mut game, 32);
    assert_eq!(places(&game), vec![(4, 0), (5, 0), (4, 1), (5, 1)]);
}

#[test]
fn four_rows_score_eight_hundred() {
    let mut game = game_of(&[Piece::I; 14]);
    for column in 0..10 {
        game.rotate();
        shift(&mut game, column - 6);
        game.hard_drop();
    }
    assert_eq!(game.score(), 800);
    assert_eq!(cells(&game).iter().filter(|c| c.2).count(), 40);
    ticks(&mut game, 32);
    assert_eq!(cells(&game).len(), 4);
}

#[test]
fn scores_by_rows() {
    let scores: Vec<u32> = (0..6).map(TetrisGame::score_for).collect();
    assert_eq!(scores, vec![0, 100, 300, 500, 800, 0]);
}

#[test]
fn a_lock_adds_four_cells() {
    let mut game = game_of(&[Piece::S, Piece::Z, Piece::T, Piece::L, Piece::J]);
    for locked in 1..4 {
        game.hard_drop();
        assert_eq!(cells(&game).len(), 4 * locked + 4);
    }
}

#[test]
fn a_full_board_ends_the_game_for_good() {
    let mut game = game_of(&[Piece::O; 14]);
    for _ in 0..9 {
        game.hard_drop();
        assert!(!game.is_over());
    }
    game.hard_drop();
    assert!(game.is_over());
    let before = cells(&game);
    assert_eq!(before.len(), 40);
    game.move_left();
    game.move_right();
    game.rotate();
    game.hard_drop();
    assert!(ticks(&mut game, 200).iter().all(|&shows| !shows));
    assert_eq!(cells(&game), before);
    assert!(game.is_over());
}

#[test]
fn games_played_at_random_end_and_keep_their_cells_on_the_board() {
    for _ in 0..5 {
        let mut game = TetrisGame::new(SCREEN);
        let mut drops = 0;
        while !game.is_over() && drops < 2000 {
            game.rotate();
            shift(&mut game, drops % 9 - 4);
            game.hard_drop();
            ticks(&mut game, 32);
            assert!(places(&game)
                .iter()
                .all(|&(x, y)| (0..10).contains(&x) && (0..20).contains(&y)));
            drops += 1;
        }
    }
}
