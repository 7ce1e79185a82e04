use std::collections::VecDeque;
use tetris::layout::{layout_for, Point};
use tetris::piece::Piece;
use tetris::scene::{
    board_frame, cell_rect, decimal_text, DrawCommand, DrawStyle, GlyphStyle, PixelColor,
    Rectangle, RoundedRectangle,
};
use tetris::TetrisGame;

const SCREEN: Point = Point { x: 134, y: 206 };

fn rounded(
    left: isize,
    top: isize,
    right: isize,
    bottom: isize,
    fill: PixelColor,
    radius: isize,
) -> RoundedRectangle {
    RoundedRectangle {
        border: Rectangle {
            tl: Point { x: left, y: top },
            br: Point { x: right, y: bottom },
            style: DrawStyle { border: PixelColor::Dark, fill, width: 1 },
        },
        radius,
    }
}

fn rect_of(command: &DrawCommand) -> RoundedRectangle {
    match command {
        DrawCommand::Rounded(rect) => *rect,
        other => panic!("not a rectangle: {:?}", other),
    }
}

fn picture() -> Vec<DrawCommand> {
    TetrisGame::with_queue(SCREEN, VecDeque::from(vec![Piece::O, Piece::T, Piece::I, Piece::S]))
        .draw(SCREEN)
}

#[test]
fn a_picture_starts_clear_and_ends_flushed() {
    let commands = picture();
    assert_eq!(commands.len(), 14);
    assert!(matches!(commands[0], DrawCommand::Clear));
    assert!(matches!(commands[13], DrawCommand::Flush));
}

#[test]
fn the_outline_stays_on_the_screen() {
    let light = PixelColor::Light;
    assert_eq!(rect_of(&picture()[1]), rounded(0, 0, 99, 205, light, 1));
    let layout = layout_for(Point { x: 128, y: 128 });
    assert_eq!(
        board_frame(&layout, Point { x: 128, y: 128 }),
        rounded(9, 5, 84, 122, light, 1)
    );
}

#[test]
fn cells_are_squares_of_the_layout() {
    let layout = layout_for(Point { x: 128, y: 128 });
    assert_eq!(cell_rect(&layout, 0, 0, false), rounded(12, 8, 18, 14, PixelColor::Light, 2));
    assert_eq!(cell_rect(&layout, 9, 15, true), rounded(75, 113, 81, 119, PixelColor::Dark, 2));
}

#[test]
fn the_falling_piece_is_outlined() {
    let commands = picture();
    let light = PixelColor::Light;
    assert_eq!(rect_of(&commands[2]), rounded(40, 3, 49, 12, light, 2));
    assert_eq!(rect_of(&commands[3]), rounded(50, 3, 59, 12, light, 2));
    assert_eq!(rect_of(&commands[4]), rounded(40, 13, 49, 22, light, 2));
    assert_eq!(rect_of(&commands[5]), rounded(50, 13, 59, 22, light, 2));
}

#[test]
fn texts_stand_beside_the_board() {
    let commands = picture();
    let expected = [("Score", 0, 12), ("0", 12, 24), ("Next", 40, 52)];
    for (command, (text, top, bottom)) in commands[6..9].iter().zip(expected) {
        match command {
            DrawCommand::Text(block) => {
                assert_eq!(block.text, text);
                assert_eq!(block.tl, Point { x: 100, y: top });
                assert_eq!(block.br, Point { x: 134, y: bottom });
                assert_eq!(block.style, GlyphStyle::Small);
                assert!(!block.draw_border && !block.clear_area);
            }
            other => panic!("not a text: {:?}", other),
        }
    }
}

#[test]
fn texts_begin_at_the_right_edge_of_a_narrower_board() {
    let screen = Point { x: 128, y: 128 };
    let game = TetrisGame::new(screen);
    let starts: Vec<isize> = game
        .draw(screen)
        .iter()
        .filter_map(|command| match command {
            DrawCommand::Text(block) => Some(block.tl.x),
            _ => None,
        })
        .collect();
    assert_eq!(starts, vec![82, 82, 82]);
}

#[test]
fn the_preview_shows_the_next_piece() {
    let commands = picture();
    let light = PixelColor::Light;
    assert_eq!(rect_of(&commands[9]), rounded(112, 54, 116, 58, light, 1));
    assert_eq!(rect_of(&commands[10]), rounded(107, 59, 111, 63, light, 1));
    assert_eq!(rect_of(&commands[11]), rounded(112, 59, 116, 63, light, 1));
    assert_eq!(rect_of(&commands[12]), rounded(117, 59, 121, 63, light, 1));
}

#[test]
fn the_previewed_piece_comes_next() {
    let mut game =
        TetrisGame::with_queue(SCREEN, VecDeque::from(vec![Piece::O, Piece::T, Piece::I, Piece::S]));
    game.hard_drop();
    let commands = game.draw(SCREEN);
    // Four locked cells, then the falling T, and a bar in the preview.
    assert_eq!(rect_of(&commands[6]).border.tl, Point { x: 50, y: 3 });
    let preview: Vec<Point> =
        commands[13..17].iter().map(|command| rect_of(command).border.tl).collect();
    let bar: Vec<Point> = (0..4).map(|i| Point { x: 107 + 5 * i, y: 59 }).collect();
    assert_eq!(preview, bar);
}

#[test]
fn numbers_are_written_in_decimal() {
    assert_eq!(decimal_text(0), "0");
    assert_eq!(decimal_text(7), "7");
    assert_eq!(decimal_text(10), "10");
    assert_eq!(decimal_text(800), "800");
    assert_eq!(decimal_text(u32::MAX), "4294967295");
}
