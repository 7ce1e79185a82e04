//! What holds of the picture: it fits the screen, and it changes when a tick says so.
use crate::bag::is_bag;
use crate::board::{lemma_full_rows, row_full, BOARD_W};
use crate::counts::{
    filled_cells, grid_count, law_clear_removes_ten, law_four_cells, law_lock_adds_four,
    lemma_shape_cells_upto, row_count,
};
use crate::game_steps::{is_game, law_layout_stays};
use crate::layout::{
    board_rows, cell_by_width, cell_size, lemma_sizes, rows_by_width, usable_height,
    usable_width, width_decides, Layout, Point, FRAME_PAD, HUD_WIDTH, MAX_BOARD_H, MIN_BOARD_H,
};
use crate::model::{tick_leads, GameView, CLEAR_ANIM_FRAMES};
use crate::piece::{in_shape, lemma_shape_in_box, shape_cells, Piece};
use crate::scene::{
    cell_box, hud_left, hud_text, lemma_layout_in_range, outline_box, preview, preview_box,
    CommandView, PixelColor,
};
use crate::validity::law_tick_keeps_valid;
use vstd::prelude::*;

verus! {

/// On a screen that has a pixel for each column and for each row of the lowest board, every
/// cell of the board is on the screen.
pub proof fn law_board_on_screen(layout: Layout, screen: Point, col: int, row: int, filled: bool)
    requires
        layout.fits(screen),
        screen.x >= BOARD_W,
        screen.y >= MIN_BOARD_H,
        0 <= col < BOARD_W,
        0 <= row < layout.board_h,
    ensures
        0 <= cell_box(layout, col, row, filled).left,
        cell_box(layout, col, row, filled).right < screen.x,
        0 <= cell_box(layout, col, row, filled).top,
        cell_box(layout, col, row, filled).bottom < screen.y,
{
    lemma_sizes(screen);
    lemma_cell_offset(layout.cell_px as int, col, BOARD_W as int);
    lemma_cell_offset(layout.cell_px as int, row, layout.board_h as int);
}

/// The cell at place `k` of `n` lies between the first and the last pixel of them all.
proof fn lemma_cell_offset(side: int, k: int, n: int)
    requires
        side >= 1,
        0 <= k < n,
    ensures
        0 <= k * side,
        k * side + side <= n * side,
{
    assert(0 <= k * side && k * side + side <= n * side) by (nonlinear_arith)
        requires
            side >= 1,
            0 <= k < n,
    ;
}

/// On a screen wide enough for the set-aside column and a board, the board stays clear of
/// the column.
pub proof fn law_board_clear_of_hud(layout: Layout, screen: Point, col: int, row: int, filled: bool)
    requires
        layout.fits(screen),
        screen.x >= HUD_WIDTH + BOARD_W,
        0 <= col < BOARD_W,
    ensures
        cell_box(layout, col, row, filled).right < hud_left(screen),
        layout.origin_x + BOARD_W * layout.cell_px <= hud_left(screen),
{
    lemma_sizes(screen);
    lemma_cell_offset(layout.cell_px as int, col, BOARD_W as int);
}

/// On a screen high enough for the paddings and the lowest board, the outline has all of its
/// room above and below the board.
pub proof fn law_outline_has_room(layout: Layout, screen: Point)
    requires
        layout.fits(screen),
        screen.y >= 2 * FRAME_PAD + MIN_BOARD_H,
    ensures
        outline_box(layout, screen).top == layout.origin_y - FRAME_PAD,
        outline_box(layout, screen).bottom == layout.origin_y + layout.board_h * layout.cell_px - 1
            + FRAME_PAD,
        0 <= outline_box(layout, screen).top,
        outline_box(layout, screen).bottom < screen.y,
{
    lemma_sizes(screen);
}

/// The outline encloses the whole board and stays left of the set-aside column.
pub proof fn law_outline_encloses_board(
    layout: Layout,
    screen: Point,
    col: int,
    row: int,
    filled: bool,
)
    requires
        layout.fits(screen),
        screen.x >= HUD_WIDTH + BOARD_W,
        screen.y >= MIN_BOARD_H,
        0 <= col < BOARD_W,
        0 <= row < layout.board_h,
    ensures
        outline_box(layout, screen).left <= cell_box(layout, col, row, filled).left,
        cell_box(layout, col, row, filled).right <= outline_box(layout, screen).right,
        outline_box(layout, screen).top <= cell_box(layout, col, row, filled).top,
        cell_box(layout, col, row, filled).bottom <= outline_box(layout, screen).bottom,
        outline_box(layout, screen).right < hud_left(screen),
{
    lemma_sizes(screen);
    lemma_cell_offset(layout.cell_px as int, col, BOARD_W as int);
    lemma_cell_offset(layout.cell_px as int, row, layout.board_h as int);
}

/// No larger cells would do: a row of them would be wider than the usable width, or the
/// lowest board of them higher than the usable height.
pub proof fn law_cells_as_large_as_fit(screen: Point)
    ensures
        BOARD_W * (cell_size(screen) + 1) > usable_width(screen) || MIN_BOARD_H * (cell_size(screen)
            + 1) > usable_height(screen),
{
}

/// Where the width decides the size of the cells, no more rows would do: the board is of the
/// most rows that there may be, or one row more would be higher than the usable height.
pub proof fn law_board_as_high_as_fits(screen: Point)
    requires
        width_decides(screen),
    ensures
        board_rows(screen) == MAX_BOARD_H || (board_rows(screen) + 1) * cell_size(screen)
            > usable_height(screen),
{
    lemma_sizes(screen);
    let h: int = usable_height(screen);
    let side: int = cell_by_width(screen);
    let rows: int = rows_by_width(screen);
    assert((rows + 1) * side > h) by (nonlinear_arith)
        requires
            side >= 1,
            rows == h / side,
    ;
}

/// On a screen wide enough for the set-aside column and a board, texts begin where the board
/// ends, which leaves them at least the set-aside column.
pub proof fn law_text_beside_board(
    layout: Layout,
    screen: Point,
    top: int,
    bottom: int,
    text: Seq<char>,
)
    requires
        layout.fits(screen),
        screen.x >= HUD_WIDTH + BOARD_W,
    ensures
        hud_text(layout, screen, top, bottom, text)->Text_0.left == layout.origin_x + BOARD_W
            * layout.cell_px,
        hud_text(layout, screen, top, bottom, text)->Text_0.left <= hud_left(screen),
{
    lemma_sizes(screen);
}

/// In every state of a game, drawn on a screen for which it was laid out and that is wide
/// enough for the set-aside column and a board, the three texts run from where the board ends
/// to the right edge of the screen, and so have at least the set-aside column.
pub proof fn law_texts_in_game(states: Seq<GameView>, n: int, screen: Point, i: int)
    requires
        is_game(states),
        0 <= n < states.len(),
        states[0].layout.fits(screen),
        screen.x >= HUD_WIDTH + BOARD_W,
        0 <= i < 3,
    ensures
        states[n].hud_steps(screen)[i] is Text,
        states[n].hud_steps(screen)[i]->Text_0.left == states[n].layout.origin_x + BOARD_W
            * states[n].layout.cell_px,
        states[n].hud_steps(screen)[i]->Text_0.left <= hud_left(screen),
        states[n].hud_steps(screen)[i]->Text_0.right == screen.x,
{
    law_layout_stays(states, n);
    lemma_sizes(screen);
}

/// The score and the preview depend on the score, the next piece, where the board ends and
/// the screen alone: whatever else differs, two games that agree on these show the same.
pub proof fn law_hud_depends_on(a: GameView, b: GameView, screen: Point)
    requires
        a.score == b.score,
        a.next_piece == b.next_piece,
        a.layout.origin_x == b.layout.origin_x,
        a.layout.cell_px == b.layout.cell_px,
    ensures
        a.hud_steps(screen) == b.hud_steps(screen),
{
}

/// The preview stays within the set-aside column.
pub proof fn law_preview_in_column(screen: Point, piece: Piece, x: int, y: int)
    requires
        in_shape(piece, 0, x, y),
    ensures
        hud_left(screen) <= preview_box(screen, (x, y)).left,
        preview_box(screen, (x, y)).right < screen.x,
{
    lemma_shape_in_box(piece, 0);
}

/// Whether two states show the same board: the same cells, flashing alike.
pub open spec fn boards_alike(a: GameView, b: GameView) -> bool {
    &&& a.grid == b.grid
    &&& a.layout == b.layout
    &&& a.flash_on() == b.flash_on()
    &&& forall|y: int| #[trigger] a.row_flashes(y) == b.row_flashes(y)
}

proof fn lemma_rows_alike(a: GameView, b: GameView, y: int, n: nat)
    requires
        boards_alike(a, b),
    ensures
        a.row_steps(y, n) == b.row_steps(y, n),
    decreases n,
{
    if n > 0 {
        lemma_rows_alike(a, b, y, (n - 1) as nat);
        assert(a.row_flashes(y) == b.row_flashes(y));
    }
}

proof fn lemma_grids_alike(a: GameView, b: GameView, n: nat)
    requires
        boards_alike(a, b),
    ensures
        a.grid_steps(n) == b.grid_steps(n),
    decreases n,
{
    if n > 0 {
        lemma_grids_alike(a, b, (n - 1) as nat);
        lemma_rows_alike(a, b, n - 1, BOARD_W as nat);
    }
}

/// A tick that says nothing shows leaves the picture as it was.
pub proof fn law_silent_tick_keeps_picture(before: GameView, after: GameView, screen: Point)
    requires
        tick_leads(before, after),
        !before.tick_shows(),
    ensures
        after.picture(screen) == before.picture(screen),
{
    assert(boards_alike(before, after));
    lemma_grids_alike(before, after, before.grid.len());
    assert(before.falling_steps() =~= after.falling_steps());
}

/// The row steps of a state that is not in an on phase are outlines.
proof fn lemma_row_light(game: GameView, y: int, n: nat, i: int)
    requires
        !game.flash_on(),
        0 <= i < game.row_steps(y, n).len(),
    ensures
        game.row_steps(y, n)[i] is Rounded,
        game.row_steps(y, n)[i]->Rounded_0.fill == PixelColor::Light,
    decreases n,
{
    if n > 0 {
        if i < game.row_steps(y, (n - 1) as nat).len() {
            lemma_row_light(game, y, (n - 1) as nat, i);
        }
    }
}

proof fn lemma_grid_light(game: GameView, n: nat, i: int)
    requires
        !game.flash_on(),
        0 <= i < game.grid_steps(n).len(),
    ensures
        game.grid_steps(n)[i] is Rounded,
        game.grid_steps(n)[i]->Rounded_0.fill == PixelColor::Light,
    decreases n,
{
    if n > 0 {
        let above = game.grid_steps((n - 1) as nat);
        if i < above.len() {
            lemma_grid_light(game, (n - 1) as nat, i);
        } else {
            lemma_row_light(game, n - 1, BOARD_W as nat, i - above.len());
        }
    }
}

/// Whether a step draws something solid.
pub open spec fn is_solid(step: CommandView) -> bool {
    step is Rounded && step->Rounded_0.fill == PixelColor::Dark
}

/// Outside the on phases of a flash nothing is solid.
pub proof fn law_solid_only_in_on_phase(game: GameView, screen: Point, i: int)
    requires
        !game.flash_on(),
        0 <= i < game.picture(screen).len(),
    ensures
        !is_solid(game.picture(screen)[i]),
{
    let head = seq![CommandView::Clear, CommandView::Rounded(outline_box(game.layout, screen))];
    let cells = game.grid_steps(game.grid.len());
    let falling = game.falling_steps();
    let hud = game.hud_steps(screen);
    let picture = game.picture(screen);
    if i < 2 {
        assert(picture[i] == head[i]);
    } else if i < 2 + cells.len() {
        assert(picture[i] == cells[i - 2]);
        lemma_grid_light(game, game.grid.len(), i - 2);
    } else if i < 2 + cells.len() + falling.len() {
        assert(picture[i] == falling[i - 2 - cells.len()]);
    } else if i < 2 + cells.len() + falling.len() + hud.len() {
        let k: int = i - 2 - cells.len() - falling.len();
        assert(picture[i] == hud[k]);
        if k >= 3 {
            assert(hud[k] == preview(screen, game.next_piece)[k - 3]);
        }
    } else {
        assert(picture[i] == CommandView::Flush);
    }
}

/// In an on phase a flashing row ends with a solid cell.
proof fn lemma_flash_solid(game: GameView, y: int, n: nat) -> (i: int)
    requires
        game.flash_on(),
        game.row_flashes(y),
        0 <= y < n,
    ensures
        0 <= i < game.grid_steps(n).len(),
        is_solid(game.grid_steps(n)[i]),
    decreases n,
{
    if y == n - 1 {
        let above = game.grid_steps((n - 1) as nat);
        let row = game.row_steps(y, BOARD_W as nat);
        let last = game.row_steps(y, (BOARD_W - 1) as nat);
        assert(row == last.push(CommandView::Rounded(cell_box(game.layout, 9, y, true))));
        let i: int = (above.len() + last.len()) as int;
        assert(game.grid_steps(n)[i] == row[last.len() as int]);
        i
    } else {
        let i: int = lemma_flash_solid(game, y, (n - 1) as nat);
        assert(game.grid_steps(n)[i] == game.grid_steps((n - 1) as nat)[i]);
        i
    }
}

/// In an on phase something is solid.
pub proof fn law_on_phase_is_solid(game: GameView, screen: Point) -> (i: int)
    requires
        game.valid(),
        game.flash_on(),
    ensures
        0 <= i < game.picture(screen).len(),
        is_solid(game.picture(screen)[i]),
{
    let rows = game.clearing->0.rows;
    lemma_full_rows(game.grid, game.grid.len());
    let y: int = rows[0];
    assert(rows.contains(y));
    let k: int = lemma_flash_solid(game, y, game.grid.len());
    assert(game.picture(screen)[2 + k] == game.grid_steps(game.grid.len())[k]);
    2 + k
}

/// A row is drawn with one step for each of its filled cells.
proof fn lemma_row_steps_len(game: GameView, y: int, n: nat)
    requires
        n <= BOARD_W,
        game.row_flashes(y) ==> row_full(game.grid[y]),
    ensures
        game.row_steps(y, n).len() == row_count(game.grid[y], n),
    decreases n,
{
    if n > 0 {
        lemma_row_steps_len(game, y, (n - 1) as nat);
        if game.row_flashes(y) {
            assert(game.grid[y][n - 1]);
        }
    }
}

proof fn lemma_grid_steps_len(game: GameView, n: nat)
    requires
        n <= game.grid.len(),
        forall|y: int| #[trigger] game.row_flashes(y) ==> row_full(game.grid[y]),
    ensures
        game.grid_steps(n).len() == grid_count(game.grid, n),
    decreases n,
{
    if n > 0 {
        lemma_grid_steps_len(game, (n - 1) as nat);
        assert(game.row_flashes(n - 1) ==> row_full(game.grid[n - 1]));
        lemma_row_steps_len(game, n - 1, BOARD_W as nat);
    }
}

/// How many steps a picture takes: one for each filled cell, four for a falling piece, and
/// ten for the rest.
pub proof fn law_picture_length(game: GameView, screen: Point)
    requires
        game.valid(),
    ensures
        game.picture(screen).len() == filled_cells(game.grid) + (if game.in_play() {
            4int
        } else {
            0
        }) + 10,
        game.grid_steps(game.grid.len()).len() == filled_cells(game.grid),
{
    lemma_full_rows(game.grid, game.grid.len());
    assert forall|y: int| #[trigger] game.row_flashes(y) implies row_full(game.grid[y]) by {
        assert(game.full_rows().contains(y));
    }
    lemma_grid_steps_len(game, game.grid.len());
    law_four_cells(game.piece, game.rotation);
    law_four_cells(game.next_piece, 0);
}

/// Different pieces have different previews.
proof fn lemma_previews_differ(screen: Point, a: Piece, b: Piece)
    requires
        a != b,
    ensures
        preview(screen, a) != preview(screen, b),
{
    if preview(screen, a) == preview(screen, b) {
        law_four_cells(a, 0);
        law_four_cells(b, 0);
        let ca = shape_cells(a, 0);
        let cb = shape_cells(b, 0);
        assert forall|i: int| 0 <= i < 4 implies #[trigger] ca[i] == cb[i] by {
            assert(preview(screen, a)[i] == CommandView::Rounded(preview_box(screen, ca[i])));
            assert(preview(screen, b)[i] == CommandView::Rounded(preview_box(screen, cb[i])));
        }
        assert(ca =~= cb);
        lemma_shape_cells_upto(a, 0, 16);
        lemma_shape_cells_upto(b, 0, 16);
        assert forall|x: int, y: int| #[trigger] in_shape(a, 0, x, y) == in_shape(b, 0, x, y) by {
            lemma_shape_in_box(a, 0);
            lemma_shape_in_box(b, 0);
            if in_shape(a, 0, x, y) {
                assert(cb.contains((x, y)));
                let i: int = cb.index_of((x, y));
                assert(in_shape(b, 0, cb[i].0, cb[i].1));
            }
            if in_shape(b, 0, x, y) {
                assert(ca.contains((x, y)));
                let i: int = ca.index_of((x, y));
                assert(in_shape(a, 0, ca[i].0, ca[i].1));
            }
        }
        assert(in_shape(a, 0, 0, 0) == in_shape(b, 0, 0, 0));
        assert(in_shape(a, 0, 1, 0) == in_shape(b, 0, 1, 0));
        assert(in_shape(a, 0, 2, 0) == in_shape(b, 0, 2, 0));
        assert(in_shape(a, 0, 3, 1) == in_shape(b, 0, 3, 1));
        assert(in_shape(a, 0, 0, 1) == in_shape(b, 0, 0, 1));
        assert(in_shape(a, 0, 2, 1) == in_shape(b, 0, 2, 1));
    }
}

/// A tick that says something shows changes the picture, unless it locks the last piece of a
/// game that this ends and the preview shows the same piece before and after.
pub proof fn law_showing_tick_changes_picture(before: GameView, after: GameView, screen: Point)
    requires
        before.valid(),
        before.score + before.tick_gain() <= u32::MAX,
        tick_leads(before, after),
        before.tick_shows(),
        !after.game_over || before.clearing is Some || after.next_piece != before.next_piece,
    ensures
        after.picture(screen) != before.picture(screen),
{
    let (first, second): (Seq<Piece>, Seq<Piece>) = choose|first: Seq<Piece>, second: Seq<Piece>|
        #[trigger] is_bag(first) && #[trigger] is_bag(second) && after == before.ticked(
            first,
            second,
        );
    law_tick_keeps_valid(before, first, second);
    law_picture_length(before, screen);
    law_picture_length(after, screen);
    match before.clearing {
        Some(anim) => {
            if anim.frame + 1 < CLEAR_ANIM_FRAMES {
                if before.flash_on() {
                    let i: int = law_on_phase_is_solid(before, screen);
                    if after.picture(screen) == before.picture(screen) {
                        law_solid_only_in_on_phase(after, screen, i);
                    }
                } else {
                    let i: int = law_on_phase_is_solid(after, screen);
                    if after.picture(screen) == before.picture(screen) {
                        law_solid_only_in_on_phase(before, screen, i);
                    }
                }
            } else {
                law_clear_removes_ten(before.grid);
            }
        },
        None => {
            let due = GameView { gravity_accum: 0, ..before };
            if due.landed() {
                law_lock_adds_four(before.grid, before.piece, before.rotation, before.px, before.py);
                if due.stamped().full_rows().len() == 0 {
                    if after.game_over && after.picture(screen) == before.picture(screen) {
                        lemma_previews_differ(screen, before.next_piece, after.next_piece);
                        lemma_same_pictures_same_previews(before, after, screen);
                    }
                } else {
                    let i: int = law_on_phase_is_solid(after, screen);
                    if after.picture(screen) == before.picture(screen) {
                        law_solid_only_in_on_phase(before, screen, i);
                    }
                }
            } else {
                assert(after == due.lowered(1));
                assert(boards_alike(before, after));
                lemma_grids_alike(before, after, before.grid.len());
                law_four_cells(before.piece, before.rotation);
                let k: int = (2 + before.grid_steps(before.grid.len()).len()) as int;
                let cell = shape_cells(before.piece, before.rotation)[0];
                assert(before.picture(screen)[k] == before.falling_steps()[0]);
                assert(after.picture(screen)[k] == after.falling_steps()[0]);
                assert(before.falling_steps()[0] == before.falling_step(cell));
                assert(after.falling_steps()[0] == after.falling_step(cell));
                lemma_layout_in_range(before.layout);
                let side: int = before.layout.cell_px as int;
                let row: int = before.py + cell.1;
                assert((row + 1) * side == row * side + side) by (nonlinear_arith);
            }
        },
    }
}

/// Equal pictures show equal previews.
proof fn lemma_same_pictures_same_previews(a: GameView, b: GameView, screen: Point)
    requires
        a.picture(screen) == b.picture(screen),
    ensures
        preview(screen, a.next_piece) == preview(screen, b.next_piece),
{
    law_four_cells(a.next_piece, 0);
    law_four_cells(b.next_piece, 0);
    let pa = preview(screen, a.next_piece);
    let pb = preview(screen, b.next_piece);
    let n: int = a.picture(screen).len() as int;
    assert forall|i: int| 0 <= i < 4 implies #[trigger] pa[i] == pb[i] by {
        assert(a.picture(screen)[n - 5 + i] == a.hud_steps(screen)[3 + i]);
        assert(b.picture(screen)[n - 5 + i] == b.hud_steps(screen)[3 + i]);
        assert(a.hud_steps(screen)[3 + i] == pa[i]);
        assert(b.hud_steps(screen)[3 + i] == pb[i]);
    }
    assert(pa =~= pb);
}

} // verus!
