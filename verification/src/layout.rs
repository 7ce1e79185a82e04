//! Where the board goes on a screen, and how large its cells are.
use crate::board::BOARD_W;
use vstd::prelude::*;

verus! {

/// Fewest rows that a board has.
pub const MIN_BOARD_H: usize = 16;

/// Most rows that a board has.
pub const MAX_BOARD_H: usize = 24;

/// Width of the column at the right edge of the screen that is set aside for the score and
/// the preview of the next piece.
pub const HUD_WIDTH: isize = 34;

/// Height that is set aside above the board, and again below it, for the outline.
pub const FRAME_PAD: isize = 3;

/// A point of the screen, or the size of one; `y` counts downwards.
#[derive(Clone, Copy, Debug, PartialEq, Eq, Structural)]
pub struct Point {
    pub x: isize,
    pub y: isize,
}

/// Where the board is drawn.
#[derive(Clone, Copy, Debug, PartialEq, Eq, Structural)]
pub struct Layout {
    /// Side of a cell, in pixels.
    pub cell_px: isize,
    /// Number of rows.
    pub board_h: usize,
    /// Left edge of the board.
    pub origin_x: isize,
    /// Top edge of the board.
    pub origin_y: isize,
}

/// The larger of two integers.
pub open spec fn larger(a: int, b: int) -> int {
    if a >= b {
        a
    } else {
        b
    }
}

/// The smaller of two integers.
pub open spec fn smaller(a: int, b: int) -> int {
    if a <= b {
        a
    } else {
        b
    }
}

/// Half of an integer, rounded towards zero.
pub open spec fn half(n: int) -> int {
    if n >= 0 {
        n / 2
    } else {
        -((-n) / 2)
    }
}

/// Width left for the board beside the set-aside column, but never less than one pixel for
/// each column.
pub open spec fn usable_width(screen: Point) -> int {
    larger(screen.x - HUD_WIDTH, BOARD_W as int)
}

/// Height left for the board between the paddings, but never less than one pixel for each
/// row of the lowest board.
pub open spec fn usable_height(screen: Point) -> int {
    larger(screen.y - 2 * FRAME_PAD, MIN_BOARD_H as int)
}

/// Side of the largest cells of which a whole row fits the usable width.
pub open spec fn cell_by_width(screen: Point) -> int {
    usable_width(screen) / (BOARD_W as int)
}

/// Rows of the largest cells that fit the usable height.
pub open spec fn rows_by_width(screen: Point) -> int {
    usable_height(screen) / cell_by_width(screen)
}

/// Whether cells that fill the width leave room for the lowest board.
pub open spec fn width_decides(screen: Point) -> bool {
    rows_by_width(screen) >= MIN_BOARD_H
}

/// Side of a cell: by the width where that leaves room for the lowest board, else by the
/// height, and then too no larger than the width allows.
pub open spec fn cell_size(screen: Point) -> int {
    if width_decides(screen) {
        cell_by_width(screen)
    } else {
        smaller(usable_height(screen) / (MIN_BOARD_H as int), cell_by_width(screen))
    }
}

/// Number of rows: as many as fit, between the lowest and the highest board.
pub open spec fn board_rows(screen: Point) -> int {
    if width_decides(screen) {
        smaller(rows_by_width(screen), MAX_BOARD_H as int)
    } else {
        MIN_BOARD_H as int
    }
}

impl Layout {
    /// Whether this is the layout for `screen`: the board is centred in the width beside the
    /// set-aside column, and in the whole height.
    pub open spec fn fits(self, screen: Point) -> bool {
        &&& self.cell_px == cell_size(screen)
        &&& self.board_h == board_rows(screen)
        &&& self.origin_x == half(usable_width(screen) - BOARD_W * cell_size(screen))
        &&& self.origin_y == half(screen.y - board_rows(screen) * cell_size(screen))
    }

    /// Whether this is the layout for some screen.
    pub open spec fn fits_some_screen(self) -> bool {
        exists|screen: Point| #[trigger] self.fits(screen) && screen_in_range(screen)
    }
}

/// The screens whose layout can be computed without leaving the range of `isize`.
pub open spec fn screen_in_range(screen: Point) -> bool {
    &&& screen.x >= isize::MIN + HUD_WIDTH
    &&& screen.y >= isize::MIN + MIN_BOARD_H
}

/// What the sizes of a layout keep to: the board fits the usable width and height.
pub proof fn lemma_sizes(screen: Point)
    ensures
        1 <= cell_size(screen) <= cell_by_width(screen),
        MIN_BOARD_H <= board_rows(screen) <= MAX_BOARD_H,
        BOARD_W * cell_size(screen) <= usable_width(screen),
        board_rows(screen) * cell_size(screen) <= usable_height(screen),
{
    let w: int = usable_width(screen);
    let h: int = usable_height(screen);
    let by_width: int = cell_by_width(screen);
    let rows: int = rows_by_width(screen);
    assert(by_width >= 1 && BOARD_W * by_width <= w);
    assert(rows * by_width <= h && rows >= 0) by (nonlinear_arith)
        requires
            by_width >= 1,
            h >= 0,
            rows == h / by_width,
    ;
    assert(smaller(rows, 24) * by_width <= rows * by_width) by (nonlinear_arith)
        requires
            by_width >= 1,
    ;
    let cell: int = cell_size(screen);
    assert(MIN_BOARD_H * cell == 16 * cell);
    if !width_decides(screen) {
        assert(board_rows(screen) * cell == 16 * cell);
    }
}

/// The layout for a screen of the given size.
pub fn layout_for(screen: Point) -> (layout: Layout)
    requires
        screen_in_range(screen),
    ensures
        layout.fits(screen),
{
    proof {
        lemma_sizes(screen);
    }
    let usable_w: isize = (screen.x - HUD_WIDTH).max(BOARD_W as isize);
    let usable_h: isize = (screen.y - 2 * FRAME_PAD).max(MIN_BOARD_H as isize);
    let cell_px_by_width: isize = (usable_w / BOARD_W as isize).max(1);
    let rows_that_fit: usize = (usable_h / cell_px_by_width).max(0) as usize;
    let (cell_px, board_h): (isize, usize) = if rows_that_fit >= MIN_BOARD_H {
        (cell_px_by_width, rows_that_fit.min(MAX_BOARD_H))
    } else {
        let cell_px_by_height: isize = (usable_h / MIN_BOARD_H as isize).max(1);
        (cell_px_by_height.min(cell_px_by_width), MIN_BOARD_H)
    };
    proof {
        assert(usable_w == usable_width(screen));
        assert(usable_h == usable_height(screen));
        assert(cell_px == cell_size(screen));
        assert(board_h == board_rows(screen));
        assert(cell_px * board_h == board_rows(screen) * cell_size(screen)) by (nonlinear_arith)
            requires
                cell_px == cell_size(screen),
                board_h == board_rows(screen),
        ;
    }
    let board_w_px: isize = cell_px * BOARD_W as isize;
    let board_h_px: isize = cell_px * board_h as isize;
    let origin_x: isize = (usable_w - board_w_px) / 2;
    let origin_y: isize = (screen.y - board_h_px) / 2;
    Layout { cell_px, board_h, origin_x, origin_y }
}

} // verus!
