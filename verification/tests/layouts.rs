use tetris::layout::{layout_for, Layout, Point};

fn layout(x: isize, y: isize) -> Layout {
    layout_for(Point { x, y })
}

#[test]
fn width_sizes_the_cells_of_a_tall_screen() {
    // 100 pixels of width for 10 columns, 200 of height for 20 rows.
    assert_eq!(
        layout(134, 206),
        Layout { cell_px: 10, board_h: 20, origin_x: 0, origin_y: 3 }
    );
}

#[test]
fn rows_stop_at_the_most() {
    assert_eq!(
        layout(139, 600),
        Layout { cell_px: 10, board_h: 24, origin_x: 2, origin_y: 180 }
    );
}

#[test]
fn height_sizes_the_cells_of_a_wide_screen() {
    assert_eq!(
        layout(128, 128),
        Layout { cell_px: 7, board_h: 16, origin_x: 12, origin_y: 8 }
    );
}

#[test]
fn tiny_screens_get_one_pixel_cells() {
    assert_eq!(layout(0, 0), Layout { cell_px: 1, board_h: 16, origin_x: 0, origin_y: -8 });
    assert_eq!(layout(-500, 1), Layout { cell_px: 1, board_h: 16, origin_x: 0, origin_y: -7 });
    assert_eq!(layout(10, 16), Layout { cell_px: 1, board_h: 16, origin_x: 0, origin_y: 0 });
}

#[test]
fn the_lowest_sizes_do_not_overflow() {
    let found = layout(isize::MIN + 34, isize::MIN + 16);
    assert_eq!((found.cell_px, found.board_h, found.origin_x), (1, 16, 0));
    assert_eq!(found.origin_y, isize::MIN / 2);
}

#[test]
fn boards_fit_their_screens() {
    for x in 44..200 {
        for y in 22..200 {
            let found = layout(x, y);
            let height = found.board_h as isize * found.cell_px;
            assert!(found.origin_x >= 0);
            assert!(found.origin_x + 10 * found.cell_px <= x - 34);
            assert!(found.origin_y >= 3);
            assert!(found.origin_y + height + 3 <= y);
            assert!((16..=24).contains(&found.board_h));
        }
    }
}
