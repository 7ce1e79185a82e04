//! The picture of a game, spelled out in plain pixels.
use crate::counts::law_four_cells;
use crate::layout::{Layout, Point};
use crate::model::GameView;
use crate::piece::{in_shape, in_spawn_shape, lemma_shape_in_box, shape_cells, Piece};
use crate::rules::{law_hits, law_shape_cells};
use crate::scene::{
    cell_box, decimal, hud_in_range, hud_text, preview, preview_box, steps, BoxView, CommandView,
    DrawCommand, GlyphStyle, PixelColor, RoundedRectangle, TextBlock, TextView,
};
use vstd::prelude::*;

verus! {

/// What is known of a box is what it holds.
pub proof fn law_boxes_are_plain(rect: RoundedRectangle)
    ensures
        rect@.left == rect.border.tl.x,
        rect@.top == rect.border.tl.y,
        rect@.right == rect.border.br.x,
        rect@.bottom == rect.border.br.y,
        rect@.border == rect.border.style.border,
        rect@.fill == rect.border.style.fill,
        rect@.width == rect.border.style.width,
        rect@.radius == rect.radius,
{
}

/// What is known of a text is what it holds.
pub proof fn law_texts_are_plain(text: TextBlock)
    ensures
        text@.left == text.tl.x,
        text@.top == text.tl.y,
        text@.right == text.br.x,
        text@.bottom == text.br.y,
        text@.style == text.style,
        text@.draw_border == text.draw_border,
        text@.clear_area == text.clear_area,
        text@.text == text.text@,
{
}

/// The steps of a list of commands are these commands, one by one.
pub proof fn law_steps_are_plain(commands: Seq<DrawCommand>, i: int)
    requires
        0 <= i < commands.len(),
    ensures
        steps(commands).len() == commands.len(),
        commands[i] is Clear ==> steps(commands)[i] == CommandView::Clear,
        commands[i] is Flush ==> steps(commands)[i] == CommandView::Flush,
        commands[i] is Rounded ==> steps(commands)[i] == CommandView::Rounded(
            commands[i]->Rounded_0@,
        ),
        commands[i] is Text ==> steps(commands)[i] == CommandView::Text(commands[i]->Text_0@),
{
}

/// A number in decimal is that of its tenth part and its last digit behind it; a number below
/// ten is its digit.
pub proof fn law_decimal(n: nat)
    ensures
        decimal(n).len() >= 1,
        decimal(n).last() as int == 48 + n % 10,
        n < 10 ==> decimal(n).len() == 1,
        n >= 10 ==> decimal(n).drop_last() == decimal(n / 10),
{
    if n >= 10 {
        assert(decimal(n).drop_last() =~= decimal(n / 10));
    }
}

/// A cell of the board is drawn as a square of the side of a cell with a dark border one
/// pixel wide and rounded corners; solid cells are dark inside, the others light.
pub proof fn law_cell_box(layout: Layout, col: int, row: int, filled: bool)
    ensures
        cell_box(layout, col, row, filled) == (BoxView {
            left: layout.origin_x + col * layout.cell_px,
            top: layout.origin_y + row * layout.cell_px,
            right: layout.origin_x + col * layout.cell_px + layout.cell_px - 1,
            bottom: layout.origin_y + row * layout.cell_px + layout.cell_px - 1,
            border: PixelColor::Dark,
            fill: if filled {
                PixelColor::Dark
            } else {
                PixelColor::Light
            },
            width: 1,
            radius: 2,
        }),
{
}

/// A cell of the preview is drawn as a square of five pixels.
pub proof fn law_preview_box(screen: Point, x: int, y: int)
    ensures
        preview_box(screen, (x, y)) == (BoxView {
            left: screen.x - 34 + 7 + 5 * x,
            top: 54 + 5 * y,
            right: screen.x - 34 + 7 + 5 * x + 4,
            bottom: 54 + 5 * y + 4,
            border: PixelColor::Dark,
            fill: PixelColor::Light,
            width: 1,
            radius: 1,
        }),
{
}

/// A text beside the board is set small, without a border and without clearing its area,
/// which reaches from the board, or from the set-aside column where that starts further left,
/// to the right edge of the screen.
pub proof fn law_hud_text(layout: Layout, screen: Point, top: int, bottom: int, text: Seq<char>)
    ensures
        hud_text(layout, screen, top, bottom, text) == CommandView::Text(
            TextView {
                left: if layout.origin_x + 10 * layout.cell_px < screen.x - 34 {
                    layout.origin_x + 10 * layout.cell_px
                } else {
                    screen.x - 34
                },
                top,
                right: screen.x as int,
                bottom,
                style: GlyphStyle::Small,
                draw_border: false,
                clear_area: false,
                text,
            },
        ),
{
}

/// All screens but those at the very end of the range of sizes can be drawn on.
pub proof fn law_drawable_screens(screen: Point)
    requires
        screen.x > isize::MIN + 34,
        screen.y > isize::MIN,
    ensures
        hud_in_range(screen),
{
}

/// The preview has a box at a place of its grid exactly if the piece has a cell there as it
/// spawns. The grid starts seven pixels right of the set-aside column and 54 below the top,
/// and its places are five pixels apart.
pub proof fn law_preview_shows_piece(screen: Point, piece: Piece, x: int, y: int)
    ensures
        in_spawn_shape(piece, x, y) <==> preview(screen, piece).contains(
            CommandView::Rounded(
                BoxView {
                    left: screen.x - 34 + 7 + 5 * x,
                    top: 54 + 5 * y,
                    right: screen.x - 34 + 7 + 5 * x + 4,
                    bottom: 54 + 5 * y + 4,
                    border: PixelColor::Dark,
                    fill: PixelColor::Light,
                    width: 1,
                    radius: 1,
                },
            ),
        ),
{
    law_shape_cells(piece, 0);
    let cells = shape_cells(piece, 0);
    let boxes = preview(screen, piece);
    let shown = CommandView::Rounded(preview_box(screen, (x, y)));
    assert(in_shape(piece, 0, x, y) <==> in_spawn_shape(piece, x, y));
    if in_spawn_shape(piece, x, y) {
        let i: int = cells.index_of((x, y));
        assert(boxes[i] == shown);
    }
    if boxes.contains(shown) {
        let i: int = boxes.index_of(shown);
        assert(boxes[i] == CommandView::Rounded(preview_box(screen, cells[i])));
        assert(cells[i] == (x, y));
    }
}

/// The preview has four boxes, and each of them is at a place of its grid.
pub proof fn law_preview_shows_no_more(screen: Point, piece: Piece, i: int)
    requires
        0 <= i < 4,
    ensures
        preview(screen, piece).len() == 4,
        exists|x: int, y: int|
            #[trigger] in_spawn_shape(piece, x, y) && preview(screen, piece)[i]
                == CommandView::Rounded(
                BoxView {
                    left: screen.x - 34 + 7 + 5 * x,
                    top: 54 + 5 * y,
                    right: screen.x - 34 + 7 + 5 * x + 4,
                    bottom: 54 + 5 * y + 4,
                    border: PixelColor::Dark,
                    fill: PixelColor::Light,
                    width: 1,
                    radius: 1,
                },
            ),
{
    law_four_cells(piece, 0);
    law_shape_cells(piece, 0);
    let cells = shape_cells(piece, 0);
    assert(cells.contains(cells[i]));
    assert(in_shape(piece, 0, cells[i].0, cells[i].1));
    assert(in_spawn_shape(piece, cells[i].0, cells[i].1));
}

/// The picture begins by clearing the screen and with the outline of the board, three pixels
/// outside it where there is room, and ends with what is beside the board and by showing it
/// all: a caption and the score in rows 0 to 12 and 12 to 24, a caption in rows 40 to 52, and
/// the preview of the next piece.
pub proof fn law_picture_frame(game: GameView, screen: Point)
    requires
        game.rotation < 4,
    ensures
        ({
            let all = game.picture(screen);
            let n = all.len();
            let origin_x = game.layout.origin_x;
            let origin_y = game.layout.origin_y;
            let right = origin_x + 10 * game.layout.cell_px;
            let bottom = origin_y + game.layout.board_h * game.layout.cell_px;
            let text_left = if right < screen.x - 34 {
                right
            } else {
                screen.x - 34
            };
            let area = TextView {
                left: text_left,
                top: 0,
                right: screen.x as int,
                bottom: 12,
                style: GlyphStyle::Small,
                draw_border: false,
                clear_area: false,
                text: "Score"@,
            };
            &&& n >= 10
            &&& all[0] == CommandView::Clear
            &&& all[1] == CommandView::Rounded(
                BoxView {
                    left: if origin_x > 3 {
                        origin_x - 3
                    } else {
                        0
                    },
                    top: if origin_y > 3 {
                        origin_y - 3
                    } else {
                        0
                    },
                    right: if right + 2 < screen.x - 35 {
                        right + 2
                    } else {
                        screen.x - 35
                    },
                    bottom: if bottom + 2 < screen.y - 1 {
                        bottom + 2
                    } else {
                        screen.y - 1
                    },
                    border: PixelColor::Dark,
                    fill: PixelColor::Light,
                    width: 1,
                    radius: 1,
                },
            )
            &&& all[n - 8] == CommandView::Text(area)
            &&& all[n - 7] == CommandView::Text(
                TextView { top: 12, bottom: 24, text: decimal(game.score as nat), ..area },
            )
            &&& all[n - 6] == CommandView::Text(
                TextView { top: 40, bottom: 52, text: "Next"@, ..area },
            )
            &&& all.subrange(n - 5, n - 1) == preview(screen, game.next_piece)
            &&& all[n - 1] == CommandView::Flush
        }),
{
    law_four_cells(game.next_piece, 0);
    let all = game.picture(screen);
    assert(preview(screen, game.next_piece).len() == 4);
    assert(all.subrange(all.len() - 5, all.len() - 1) =~= preview(screen, game.next_piece));
}

/// Boxes of cells at different places, or of different insides, are different.
proof fn lemma_cell_boxes_differ(
    layout: Layout,
    c1: int,
    r1: int,
    f1: bool,
    c2: int,
    r2: int,
    f2: bool,
)
    requires
        layout.cell_px >= 1,
        cell_box(layout, c1, r1, f1) == cell_box(layout, c2, r2, f2),
    ensures
        c1 == c2,
        r1 == r2,
        f1 == f2,
{
    let side: int = layout.cell_px as int;
    assert(c1 == c2) by (nonlinear_arith)
        requires
            side >= 1,
            c1 * side == c2 * side,
    ;
    assert(r1 == r2) by (nonlinear_arith)
        requires
            side >= 1,
            r1 * side == r2 * side,
    ;
}

/// Whether a cell of the board, apart from the falling piece, is drawn with the given inside.
spec fn cell_drawn(game: GameView, col: int, row: int, filled: bool) -> bool {
    if game.row_flashes(row) {
        filled == game.flash_on()
    } else {
        game.grid[row][col] && !filled
    }
}

/// The cell that a step of drawing the board draws.
spec fn draws_cell(game: GameView, step: CommandView, col: int, row: int, filled: bool) -> bool {
    step == CommandView::Rounded(cell_box(game.layout, col, row, filled))
}

/// Whether a step draws one of the first `cols` cells of the rows from `low` to below `high`.
spec fn draws_within(game: GameView, step: CommandView, cols: int, low: int, high: int) -> bool {
    exists|c: int, r: int, f: bool|
        0 <= c < cols && low <= r < high && cell_drawn(game, c, r, f) && #[trigger] draws_cell(
            game,
            step,
            c,
            r,
            f,
        )
}

/// Whether a step draws a cell of the falling piece.
spec fn draws_falling(game: GameView, step: CommandView) -> bool {
    exists|dx: int, dy: int|
        #[trigger] in_shape(game.piece, game.rotation, dx, dy) && step == CommandView::Rounded(
            cell_box(game.layout, game.px + dx, game.py + dy, false),
        )
}

/// What the steps of a row draw.
proof fn lemma_row_steps(game: GameView, y: int, n: nat)
    ensures
        forall|i: int|
            0 <= i < game.row_steps(y, n).len() ==> draws_within(
                game,
                #[trigger] game.row_steps(y, n)[i],
                n as int,
                y,
                y + 1,
            ),
        forall|c: int, f: bool|
            0 <= c < n && #[trigger] cell_drawn(game, c, y, f) ==> game.row_steps(y, n).contains(
                CommandView::Rounded(cell_box(game.layout, c, y, f)),
            ),
    decreases n,
{
    if n > 0 {
        let m = (n - 1) as nat;
        lemma_row_steps(game, y, m);
        let before = game.row_steps(y, m);
        let after = game.row_steps(y, n);
        assert forall|i: int| 0 <= i < after.len() implies draws_within(
            game,
            #[trigger] after[i],
            n as int,
            y,
            y + 1,
        ) by {
            if i < before.len() {
                assert(after[i] == before[i]);
                let (c, r, f): (int, int, bool) = choose|c: int, r: int, f: bool|
                    0 <= c < m && y <= r < y + 1 && cell_drawn(game, c, r, f)
                        && #[trigger] draws_cell(game, before[i], c, r, f);
                assert(draws_cell(game, after[i], c, r, f));
            } else {
                let f = game.row_flashes(y) && game.flash_on();
                assert(cell_drawn(game, n - 1, y, f));
                assert(draws_cell(game, after[i], n - 1, y, f));
            }
        }
        assert forall|c: int, f: bool| 0 <= c < n && #[trigger] cell_drawn(
            game,
            c,
            y,
            f,
        ) implies after.contains(CommandView::Rounded(cell_box(game.layout, c, y, f))) by {
            let step = CommandView::Rounded(cell_box(game.layout, c, y, f));
            if c < m {
                let i: int = before.index_of(step);
                assert(after[i] == step);
            } else {
                assert(after[before.len() as int] == step);
            }
        }
    }
}

/// What the steps of the board draw.
proof fn lemma_grid_steps(game: GameView, n: nat)
    ensures
        forall|i: int|
            0 <= i < game.grid_steps(n).len() ==> draws_within(
                game,
                #[trigger] game.grid_steps(n)[i],
                10,
                0,
                n as int,
            ),
        forall|c: int, r: int, f: bool|
            0 <= c < 10 && 0 <= r < n && #[trigger] cell_drawn(game, c, r, f) ==> game.grid_steps(
                n,
            ).contains(CommandView::Rounded(cell_box(game.layout, c, r, f))),
    decreases n,
{
    if n > 0 {
        let m = (n - 1) as nat;
        lemma_grid_steps(game, m);
        lemma_row_steps(game, n - 1, 10);
        let before = game.grid_steps(m);
        let row = game.row_steps(n - 1, 10);
        let after = game.grid_steps(n);
        assert(after == before + row);
        assert forall|i: int| 0 <= i < after.len() implies draws_within(
            game,
            #[trigger] after[i],
            10,
            0,
            n as int,
        ) by {
            let (part, k): (Seq<CommandView>, int) = if i < before.len() {
                (before, i)
            } else {
                (row, i - before.len())
            };
            assert(after[i] == part[k]);
            let (c, r, f): (int, int, bool) = choose|c: int, r: int, f: bool|
                0 <= c < 10 && 0 <= r < n && cell_drawn(game, c, r, f) && #[trigger] draws_cell(
                    game,
                    part[k],
                    c,
                    r,
                    f,
                );
            assert(draws_cell(game, after[i], c, r, f));
        }
        assert forall|c: int, r: int, f: bool|
            0 <= c < 10 && 0 <= r < n && #[trigger] cell_drawn(
                game,
                c,
                r,
                f,
            ) implies after.contains(CommandView::Rounded(cell_box(game.layout, c, r, f))) by {
            let step = CommandView::Rounded(cell_box(game.layout, c, r, f));
            if r < m {
                let i: int = before.index_of(step);
                assert(after[i] == step);
            } else {
                let i: int = row.index_of(step);
                assert(after[before.len() + i] == step);
            }
        }
    }
}

/// What the steps of the falling piece draw.
proof fn lemma_falling_steps(game: GameView)
    requires
        game.rotation < 4,
    ensures
        game.in_play() ==> game.falling_steps().len() == 4,
        !game.in_play() ==> game.falling_steps().len() == 0,
        forall|i: int|
            0 <= i < game.falling_steps().len() ==> draws_falling(
                game,
                #[trigger] game.falling_steps()[i],
            ),
        forall|dx: int, dy: int|
            game.in_play() && #[trigger] in_shape(game.piece, game.rotation, dx, dy)
                ==> game.falling_steps().contains(
                CommandView::Rounded(cell_box(game.layout, game.px + dx, game.py + dy, false)),
            ),
{
    if game.in_play() {
        law_four_cells(game.piece, game.rotation);
        law_shape_cells(game.piece, game.rotation);
        let cells = shape_cells(game.piece, game.rotation);
        let all = game.falling_steps();
        assert forall|i: int| 0 <= i < all.len() implies draws_falling(
            game,
            #[trigger] all[i],
        ) by {
            assert(cells.contains(cells[i]));
            assert(all[i] == game.falling_step(cells[i]));
            assert(in_shape(game.piece, game.rotation, cells[i].0, cells[i].1));
        }
        assert forall|dx: int, dy: int| #[trigger]
            in_shape(game.piece, game.rotation, dx, dy) implies all.contains(
            CommandView::Rounded(cell_box(game.layout, game.px + dx, game.py + dy, false)),
        ) by {
            let i: int = cells.index_of((dx, dy));
            assert(cells[i] == (dx, dy));
            assert(all[i] == game.falling_step((dx, dy)));
        }
    }
}

/// Which boxes of the picture have corners like those of a cell.
proof fn lemma_picture_holds(game: GameView, screen: Point, shown: BoxView)
    requires
        game.rotation < 4,
        shown.radius == 2,
    ensures
        game.picture(screen).contains(CommandView::Rounded(shown)) <==> game.grid_steps(
            game.grid.len(),
        ).contains(CommandView::Rounded(shown)) || game.falling_steps().contains(
            CommandView::Rounded(shown),
        ),
{
    let step = CommandView::Rounded(shown);
    let grid = game.grid_steps(game.grid.len());
    let falling = game.falling_steps();
    let all = game.picture(screen);
    let hud = game.hud_steps(screen);
    let next = preview(screen, game.next_piece);
    law_four_cells(game.next_piece, 0);
    if all.contains(step) {
        let i: int = all.index_of(step);
        if i < 2 {
        } else if i < 2 + grid.len() {
            assert(grid[i - 2] == step);
        } else if i < 2 + grid.len() + falling.len() {
            assert(falling[i - 2 - grid.len()] == step);
        } else if i < all.len() - 1 {
            let k: int = i - 2 - grid.len() - falling.len();
            assert(hud[k] == step);
            if k >= 3 {
                assert(next[k - 3] == step);
            }
        }
    }
    if grid.contains(step) {
        let i: int = grid.index_of(step);
        assert(all[2 + i] == step);
    }
    if falling.contains(step) {
        let i: int = falling.index_of(step);
        assert(all[2 + grid.len() + i] == step);
    }
}

/// A cell of the board is drawn solid exactly if its row flashes and the flash is in the
/// first or the third of its four phases, which count from zero.
pub proof fn law_solid_cells(game: GameView, screen: Point, col: int, row: int)
    requires
        game.layout.cell_px >= 1,
        game.rotation < 4,
        0 <= col < 10,
        0 <= row < game.grid.len(),
    ensures
        game.picture(screen).contains(
            CommandView::Rounded(
                BoxView {
                    left: game.layout.origin_x + col * game.layout.cell_px,
                    top: game.layout.origin_y + row * game.layout.cell_px,
                    right: game.layout.origin_x + col * game.layout.cell_px + game.layout.cell_px
                        - 1,
                    bottom: game.layout.origin_y + row * game.layout.cell_px + game.layout.cell_px
                        - 1,
                    border: PixelColor::Dark,
                    fill: PixelColor::Dark,
                    width: 1,
                    radius: 2,
                },
            ),
        ) <==> game.clearing is Some && game.clearing->0.rows.contains(row)
            && game.clearing->0.frame % 2 == 0,
{
    lemma_cell_shown(game, screen, col, row, true);
}

/// A cell of the board is drawn as an outline exactly if its row flashes and the flash is in
/// another phase, or its row does not flash and the cell is filled, or the falling piece
/// covers it.
pub proof fn law_outlined_cells(game: GameView, screen: Point, col: int, row: int)
    requires
        game.layout.cell_px >= 1,
        game.rotation < 4,
        0 <= col < 10,
        0 <= row < game.grid.len(),
    ensures
        game.picture(screen).contains(
            CommandView::Rounded(
                BoxView {
                    left: game.layout.origin_x + col * game.layout.cell_px,
                    top: game.layout.origin_y + row * game.layout.cell_px,
                    right: game.layout.origin_x + col * game.layout.cell_px + game.layout.cell_px
                        - 1,
                    bottom: game.layout.origin_y + row * game.layout.cell_px + game.layout.cell_px
                        - 1,
                    border: PixelColor::Dark,
                    fill: PixelColor::Light,
                    width: 1,
                    radius: 2,
                },
            ),
        ) <==> {
            ||| game.clearing is Some && game.clearing->0.rows.contains(row)
                && game.clearing->0.frame % 2 != 0
            ||| game.clearing is Some && !game.clearing->0.rows.contains(row)
                && game.grid[row][col]
            ||| game.clearing is None && game.grid[row][col]
            ||| game.clearing is None && !game.game_over && in_shape(
                game.piece,
                game.rotation,
                col - game.px,
                row - game.py,
            )
        },
{
    lemma_cell_shown(game, screen, col, row, false);
}

/// Whether a cell is drawn with the given inside.
proof fn lemma_cell_shown(game: GameView, screen: Point, col: int, row: int, filled: bool)
    requires
        game.layout.cell_px >= 1,
        game.rotation < 4,
        0 <= col < 10,
        0 <= row < game.grid.len(),
    ensures
        game.picture(screen).contains(
            CommandView::Rounded(cell_box(game.layout, col, row, filled)),
        ) <==> cell_drawn(game, col, row, filled) || (!filled && game.in_play() && in_shape(
            game.piece,
            game.rotation,
            col - game.px,
            row - game.py,
        )),
{
    let shown = cell_box(game.layout, col, row, filled);
    let step = CommandView::Rounded(shown);
    let grid = game.grid_steps(game.grid.len());
    let falling = game.falling_steps();
    lemma_picture_holds(game, screen, shown);
    lemma_grid_steps(game, game.grid.len());
    lemma_falling_steps(game);
    if grid.contains(step) {
        let i: int = grid.index_of(step);
        let (c, r, f): (int, int, bool) = choose|c: int, r: int, f: bool|
            0 <= c < 10 && 0 <= r < game.grid.len() && cell_drawn(game, c, r, f)
                && #[trigger] draws_cell(game, grid[i], c, r, f);
        lemma_cell_boxes_differ(game.layout, col, row, filled, c, r, f);
    }
    if falling.contains(step) {
        let i: int = falling.index_of(step);
        let (dx, dy): (int, int) = choose|dx: int, dy: int|
            #[trigger] in_shape(game.piece, game.rotation, dx, dy) && falling[i]
                == CommandView::Rounded(
                cell_box(game.layout, game.px + dx, game.py + dy, false),
            );
        lemma_cell_boxes_differ(
            game.layout,
            col,
            row,
            filled,
            game.px + dx,
            game.py + dy,
            false,
        );
    }
    if !filled && game.in_play() && in_shape(
        game.piece,
        game.rotation,
        col - game.px,
        row - game.py,
    ) {
        assert(falling.contains(step));
    }
}

/// Between the outline and what is beside the board nothing is drawn but cells of the board.
pub proof fn law_only_cells_between(game: GameView, screen: Point, i: int) -> (cell: (int, int))
    requires
        game.valid(),
        2 <= i < game.picture(screen).len() - 8,
    ensures
        0 <= cell.0 < 10,
        0 <= cell.1 < game.grid.len(),
        game.picture(screen)[i] is Rounded,
        game.picture(screen)[i]->Rounded_0.left == game.layout.origin_x + cell.0
            * game.layout.cell_px,
        game.picture(screen)[i]->Rounded_0.top == game.layout.origin_y + cell.1
            * game.layout.cell_px,
        game.picture(screen)[i]->Rounded_0.right == game.picture(screen)[i]->Rounded_0.left
            + game.layout.cell_px - 1,
        game.picture(screen)[i]->Rounded_0.bottom == game.picture(screen)[i]->Rounded_0.top
            + game.layout.cell_px - 1,
        game.picture(screen)[i]->Rounded_0.border == PixelColor::Dark,
        game.picture(screen)[i]->Rounded_0.width == 1,
        game.picture(screen)[i]->Rounded_0.radius == 2,
{
    let grid = game.grid_steps(game.grid.len());
    let falling = game.falling_steps();
    let all = game.picture(screen);
    law_four_cells(game.next_piece, 0);
    lemma_grid_steps(game, game.grid.len());
    lemma_falling_steps(game);
    if i < 2 + grid.len() {
        assert(all[i] == grid[i - 2]);
        let (c, r, f): (int, int, bool) = choose|c: int, r: int, f: bool|
            0 <= c < 10 && 0 <= r < game.grid.len() && cell_drawn(game, c, r, f)
                && #[trigger] draws_cell(game, grid[i - 2], c, r, f);
        (c, r)
    } else {
        let k: int = i - 2 - grid.len();
        assert(all[i] == falling[k]);
        let (dx, dy): (int, int) = choose|dx: int, dy: int|
            #[trigger] in_shape(game.piece, game.rotation, dx, dy) && falling[k]
                == CommandView::Rounded(
                cell_box(game.layout, game.px + dx, game.py + dy, false),
            );
        law_hits(game, game.rotation, game.px, game.py);
        lemma_shape_in_box(game.piece, game.rotation);
        assert(in_shape(game.piece, game.rotation, dx, dy));
        (game.px + dx, game.py + dy)
    }
}

/// The steps of a row come from the left.
proof fn lemma_row_ordered(game: GameView, y: int, n: nat)
    requires
        game.layout.cell_px >= 1,
    ensures
        forall|i: int, j: int|
            0 <= i < j < game.row_steps(y, n).len() ==> comes_before(
                #[trigger] game.row_steps(y, n)[i],
                #[trigger] game.row_steps(y, n)[j],
            ),
    decreases n,
{
    if n > 0 {
        let m = (n - 1) as nat;
        lemma_row_ordered(game, y, m);
        lemma_row_steps(game, y, m);
        let before = game.row_steps(y, m);
        let after = game.row_steps(y, n);
        assert forall|i: int, j: int| 0 <= i < j < after.len() implies comes_before(
            #[trigger] after[i],
            #[trigger] after[j],
        ) by {
            assert(after[i] == before[i]);
            if j < before.len() {
                assert(after[j] == before[j]);
            } else {
                let (c, r, f): (int, int, bool) = choose|c: int, r: int, f: bool|
                    0 <= c < m && y <= r < y + 1 && cell_drawn(game, c, r, f)
                        && #[trigger] draws_cell(game, before[i], c, r, f);
                lemma_places_ordered(game.layout.cell_px as int, c, n - 1);
            }
        }
    }
}

/// Whether one box is above another, or left of it at the same height.
spec fn comes_before(a: CommandView, b: CommandView) -> bool {
    &&& a is Rounded
    &&& b is Rounded
    &&& a->Rounded_0.top < b->Rounded_0.top || (a->Rounded_0.top == b->Rounded_0.top
        && a->Rounded_0.left < b->Rounded_0.left)
}

/// Places further on are further on by pixels too.
proof fn lemma_places_ordered(side: int, a: int, b: int)
    requires
        side >= 1,
        a < b,
    ensures
        a * side < b * side,
{
    assert(a * side < b * side) by (nonlinear_arith)
        requires
            side >= 1,
            a < b,
    ;
}

/// The steps of the board come in reading order.
proof fn lemma_grid_ordered(game: GameView, n: nat)
    requires
        game.layout.cell_px >= 1,
    ensures
        forall|i: int, j: int|
            0 <= i < j < game.grid_steps(n).len() ==> comes_before(
                #[trigger] game.grid_steps(n)[i],
                #[trigger] game.grid_steps(n)[j],
            ),
    decreases n,
{
    if n > 0 {
        let m = (n - 1) as nat;
        lemma_grid_ordered(game, m);
        lemma_grid_steps(game, m);
        lemma_row_steps(game, n - 1, 10);
        lemma_row_ordered(game, n - 1, 10);
        let before = game.grid_steps(m);
        let row = game.row_steps(n - 1, 10);
        let after = game.grid_steps(n);
        assert(after == before + row);
        assert forall|i: int, j: int| 0 <= i < j < after.len() implies comes_before(
            #[trigger] after[i],
            #[trigger] after[j],
        ) by {
            if j < before.len() {
                assert(after[i] == before[i] && after[j] == before[j]);
            } else if i >= before.len() {
                assert(after[i] == row[i - before.len()] && after[j] == row[j - before.len()]);
            } else {
                let k: int = j - before.len();
                assert(after[i] == before[i] && after[j] == row[k]);
                let (c, r, f): (int, int, bool) = choose|c: int, r: int, f: bool|
                    0 <= c < 10 && 0 <= r < m && cell_drawn(game, c, r, f)
                        && #[trigger] draws_cell(game, before[i], c, r, f);
                let (c2, r2, f2): (int, int, bool) = choose|c: int, r: int, f: bool|
                    0 <= c < 10 && n - 1 <= r < n && cell_drawn(game, c, r, f)
                        && #[trigger] draws_cell(game, row[k], c, r, f);
                lemma_places_ordered(game.layout.cell_px as int, r, r2);
            }
        }
    }
}

/// The cells of the board are drawn in reading order, and so are those of the falling piece,
/// whose four boxes are the last ones before what is beside the board.
pub proof fn law_drawing_order(game: GameView, screen: Point, i: int, j: int)
    requires
        game.layout.cell_px >= 1,
        game.rotation < 4,
        2 <= i < j < game.picture(screen).len() - 8,
        game.game_over || game.clearing is Some || j < game.picture(screen).len() - 12 || i
            >= game.picture(screen).len() - 12,
    ensures
        game.picture(screen)[i] is Rounded,
        game.picture(screen)[j] is Rounded,
        game.picture(screen)[i]->Rounded_0.top < game.picture(screen)[j]->Rounded_0.top || (
        game.picture(screen)[i]->Rounded_0.top == game.picture(screen)[j]->Rounded_0.top
            && game.picture(screen)[i]->Rounded_0.left < game.picture(screen)[j]->Rounded_0.left),
{
    let grid = game.grid_steps(game.grid.len());
    let falling = game.falling_steps();
    let all = game.picture(screen);
    let first: int = 2int + grid.len();
    law_four_cells(game.next_piece, 0);
    lemma_grid_ordered(game, game.grid.len());
    lemma_falling_steps(game);
    if j < first {
        assert(all[i] == grid[i - 2] && all[j] == grid[j - 2]);
    } else {
        law_shape_cells(game.piece, game.rotation);
        let cells = shape_cells(game.piece, game.rotation);
        let a = cells[i - first];
        let b = cells[j - first];
        assert(all[i] == falling[i - first] && all[j] == falling[j - first]);
        assert(all[i] == game.falling_step(a) && all[j] == game.falling_step(b));
        if a.1 < b.1 {
            lemma_places_ordered(game.layout.cell_px as int, game.py + a.1, game.py + b.1);
        } else {
            lemma_places_ordered(game.layout.cell_px as int, game.px + a.0, game.px + b.0);
        }
    }
}

/// While a piece falls, the last four boxes before what is beside the board are its cells.
pub proof fn law_falling_piece_last(game: GameView, screen: Point, i: int) -> (cell: (int, int))
    requires
        !game.game_over,
        game.clearing is None,
        game.rotation < 4,
        game.picture(screen).len() - 12 <= i < game.picture(screen).len() - 8,
    ensures
        in_shape(game.piece, game.rotation, cell.0 - game.px, cell.1 - game.py),
        game.picture(screen)[i] is Rounded,
        game.picture(screen)[i]->Rounded_0.left == game.layout.origin_x + cell.0
            * game.layout.cell_px,
        game.picture(screen)[i]->Rounded_0.top == game.layout.origin_y + cell.1
            * game.layout.cell_px,
        game.picture(screen)[i]->Rounded_0.fill == PixelColor::Light,
{
    let first: int = 2int + game.grid_steps(game.grid.len()).len();
    let falling = game.falling_steps();
    law_four_cells(game.next_piece, 0);
    lemma_falling_steps(game);
    assert(game.picture(screen)[i] == falling[i - first]);
    let (dx, dy): (int, int) = choose|dx: int, dy: int|
        #[trigger] in_shape(game.piece, game.rotation, dx, dy) && falling[i - first]
            == CommandView::Rounded(cell_box(game.layout, game.px + dx, game.py + dy, false));
    (game.px + dx, game.py + dy)
}

} // verus!
