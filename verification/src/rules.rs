//! The rules of the game, spelled out in plain cells, rows, columns and numbers.
use crate::bag::{is_bag, shuffled, topped_up};
use crate::board::{
    blank_grid, blocked, cells_collide, cells_cover, collapsed, collides, covers, full_rows_of,
    grid_of, lemma_full_rows, lemma_survivors, row_numbers, stamped, survivors, Grid, BOARD_W,
};
use crate::counts::lemma_shape_cells_upto;
use crate::layout::{
    board_rows, cell_by_width, cell_size, lemma_sizes, rows_by_width, screen_in_range,
    usable_height, Layout, Point,
};
use crate::model::{
    blank_game, drop_leads, finish_leads, lock_leads, points, spawn_leads, tick_leads, ClearView,
    GameView,
};
use crate::piece::{
    in_shape, in_spawn_shape, lemma_shape_in_box, lists_shape, shape_cells, shape_cells_upto,
    turns_of, Piece, ALL_PIECES,
};
use crate::validity::law_landing;
use vstd::prelude::*;

verus! {

/// The four cells of each piece as it spawns, by column and row of its bounding box.
pub proof fn law_spawn_shapes(x: int, y: int)
    ensures
        in_spawn_shape(Piece::O, x, y) <==> (x == 0 && y == 0) || (x == 1 && y == 0) || (x == 0 && y
            == 1) || (x == 1 && y == 1),
        in_spawn_shape(Piece::I, x, y) <==> (x == 0 && y == 1) || (x == 1 && y == 1) || (x == 2 && y
            == 1) || (x == 3 && y == 1),
        in_spawn_shape(Piece::S, x, y) <==> (x == 1 && y == 0) || (x == 2 && y == 0) || (x == 0 && y
            == 1) || (x == 1 && y == 1),
        in_spawn_shape(Piece::Z, x, y) <==> (x == 0 && y == 0) || (x == 1 && y == 0) || (x == 1 && y
            == 1) || (x == 2 && y == 1),
        in_spawn_shape(Piece::T, x, y) <==> (x == 1 && y == 0) || (x == 0 && y == 1) || (x == 1 && y
            == 1) || (x == 2 && y == 1),
        in_spawn_shape(Piece::L, x, y) <==> (x == 2 && y == 0) || (x == 0 && y == 1) || (x == 1 && y
            == 1) || (x == 2 && y == 1),
        in_spawn_shape(Piece::J, x, y) <==> (x == 0 && y == 0) || (x == 0 && y == 1) || (x == 1 && y
            == 1) || (x == 2 && y == 1),
{
}

/// Each further turn is a quarter clockwise in a box of side two for the square, four for the
/// bar and three for the others: the cell in column `x` and row `y` goes to column
/// `side - 1 - y` and row `x`.
pub proof fn law_quarter_turn(piece: Piece, turns: nat, x: int, y: int)
    ensures
        in_shape(piece, 0, x, y) == in_spawn_shape(piece, x, y),
        in_shape(
            piece,
            turns + 1,
            (if piece == Piece::O {
                1int
            } else if piece == Piece::I {
                3
            } else {
                2
            }) - y,
            x,
        ) == in_shape(piece, turns, x, y),
{
    reveal_with_fuel(in_shape, 2);
}

/// Rotation states stand for as many quarter turns as their number, those past the third for
/// three.
pub proof fn law_rotation_states(rotation: u8)
    ensures
        rotation <= 3 ==> turns_of(rotation) == rotation,
        rotation > 3 ==> turns_of(rotation) == 3,
{
}

/// A listing of a shape names its four cells, no other and none twice, row by row and each
/// row from the left.
pub proof fn law_listing(cells: Seq<(i32, i32)>, piece: Piece, turns: nat)
    requires
        lists_shape(cells, piece, turns),
    ensures
        cells.len() == 4,
        forall|x: int, y: int| #[trigger]
            in_shape(piece, turns, x, y) <==> exists|i: int|
                0 <= i < 4 && (#[trigger] cells[i]).0 == x && cells[i].1 == y,
        forall|i: int, j: int|
            0 <= i < j < 4 ==> (#[trigger] cells[i]).1 < (#[trigger] cells[j]).1 || (cells[i].1
                == cells[j].1 && cells[i].0 < cells[j].0),
{
}

/// The cells of a shape in reading order: they are its cells, no other, row by row and each
/// row from the left.
pub proof fn law_shape_cells(piece: Piece, turns: nat)
    requires
        turns < 4,
    ensures
        forall|x: int, y: int| #[trigger]
            in_shape(piece, turns, x, y) <==> shape_cells(piece, turns).contains((x, y)),
        forall|i: int, j: int|
            0 <= i < j < shape_cells(piece, turns).len() ==> (#[trigger] shape_cells(
                piece,
                turns,
            )[i]).1 < (#[trigger] shape_cells(piece, turns)[j]).1 || (shape_cells(piece, turns)[i].1
                == shape_cells(piece, turns)[j].1 && shape_cells(piece, turns)[i].0 < shape_cells(
                piece,
                turns,
            )[j].0),
{
    lemma_shape_cells_upto(piece, turns, 16);
    lemma_shape_in_box(piece, turns);
    let cells = shape_cells(piece, turns);
    assert forall|x: int, y: int| #[trigger] in_shape(piece, turns, x, y) <==> cells.contains(
        (x, y),
    ) by {
        if cells.contains((x, y)) {
            let i: int = cells.index_of((x, y));
            assert(in_shape(piece, turns, cells[i].0, cells[i].1));
        }
    }
    lemma_shape_cells_ordered(piece, turns, 16);
}

/// The cells of a shape come in reading order.
proof fn lemma_shape_cells_ordered(piece: Piece, turns: nat, n: nat)
    requires
        turns < 4,
        n <= 16,
    ensures
        forall|i: int, j: int|
            0 <= i < j < shape_cells_upto(piece, turns, n).len() ==> {
                let a = #[trigger] shape_cells_upto(piece, turns, n)[i];
                let b = #[trigger] shape_cells_upto(piece, turns, n)[j];
                a.1 < b.1 || (a.1 == b.1 && a.0 < b.0)
            },
    decreases n,
{
    if n > 0 {
        lemma_shape_cells_ordered(piece, turns, (n - 1) as nat);
        lemma_shape_cells_upto(piece, turns, (n - 1) as nat);
        lemma_shape_in_box(piece, turns);
        let before = shape_cells_upto(piece, turns, (n - 1) as nat);
        let after = shape_cells_upto(piece, turns, n);
        assert forall|i: int, j: int| 0 <= i < j < after.len() implies {
            let a = #[trigger] after[i];
            let b = #[trigger] after[j];
            a.1 < b.1 || (a.1 == b.1 && a.0 < b.0)
        } by {
            assert(after[i] == before[i]);
            assert(in_shape(piece, turns, before[i].0, before[i].1));
            if j < before.len() {
                assert(after[j] == before[j]);
            }
        }
    }
}

/// The cells of stored rows are theirs, row by row and column by column.
pub proof fn law_grid_of(board: Seq<[bool; BOARD_W]>, x: int, y: int)
    requires
        0 <= y < board.len(),
        0 <= x < 10,
    ensures
        grid_of(board).len() == board.len(),
        grid_of(board)[y].len() == 10,
        grid_of(board)[y][x] == board[y]@[x],
{
}

/// Row numbers are the numbers of the rows.
pub proof fn law_row_numbers(rows: Seq<usize>, i: int)
    requires
        0 <= i < rows.len(),
    ensures
        row_numbers(rows).len() == rows.len(),
        row_numbers(rows)[i] == rows[i],
{
}

/// A piece is stopped only by what it would cover: a cell of it would be left or right of the
/// ten columns, below the last row, or on a filled cell. Above the top row nothing is in the
/// way.
pub proof fn law_hits(game: GameView, turns: nat, px: int, py: int)
    ensures
        game.hits(turns, px, py) <==> exists|dx: int, dy: int|
            {
                &&& #[trigger] in_shape(game.piece, turns, dx, dy)
                &&& px + dx < 0 || px + dx >= 10 || py + dy >= game.grid.len() || (py + dy >= 0
                    && game.grid[py + dy][px + dx])
            },
{
    law_collides(game.grid, game.piece, turns, px, py);
}

/// The same of a piece and a board on their own.
pub proof fn law_collides(grid: Grid, piece: Piece, turns: nat, px: int, py: int)
    ensures
        collides(grid, piece, turns, px, py) <==> exists|dx: int, dy: int|
            {
                &&& #[trigger] in_shape(piece, turns, dx, dy)
                &&& px + dx < 0 || px + dx >= 10 || py + dy >= grid.len() || (py + dy >= 0
                    && grid[py + dy][px + dx])
            },
{
    if collides(grid, piece, turns, px, py) {
        let (x, y): (int, int) = choose|x: int, y: int| #[trigger]
            covers(piece, turns, px, py, x, y) && blocked(grid, x, y);
        assert(in_shape(piece, turns, x - px, y - py));
    }
    if exists|dx: int, dy: int|
        {
            &&& #[trigger] in_shape(piece, turns, dx, dy)
            &&& px + dx < 0 || px + dx >= 10 || py + dy >= grid.len() || (py + dy >= 0
                && grid[py + dy][px + dx])
        } {
        let (dx, dy): (int, int) = choose|dx: int, dy: int|
            {
                &&& #[trigger] in_shape(piece, turns, dx, dy)
                &&& px + dx < 0 || px + dx >= 10 || py + dy >= grid.len() || (py + dy >= 0
                    && grid[py + dy][px + dx])
            };
        assert(covers(piece, turns, px, py, px + dx, py + dy));
    }
}

/// Offsets collide, and cover a cell, by the same rule.
pub proof fn law_offsets(grid: Grid, px: int, py: int, cells: Seq<(i32, i32)>, x: int, y: int)
    ensures
        cells_collide(grid, px, py, cells) <==> exists|i: int|
            0 <= i < cells.len() && {
                let cx = px + (#[trigger] cells[i]).0;
                let cy = py + cells[i].1;
                cx < 0 || cx >= 10 || cy >= grid.len() || (cy >= 0 && grid[cy][cx])
            },
        cells_cover(px, py, cells, x, y) <==> exists|i: int|
            0 <= i < cells.len() && px + (#[trigger] cells[i]).0 == x && py + cells[i].1 == y,
{
    if cells_collide(grid, px, py, cells) {
        let i: int = choose|i: int|
            0 <= i < cells.len() && blocked(
                grid,
                px + (#[trigger] cells[i]).0,
                py + cells[i].1,
            );
        assert(0 <= i < cells.len());
    }
    if exists|i: int|
        0 <= i < cells.len() && {
            let cx = px + (#[trigger] cells[i]).0;
            let cy = py + cells[i].1;
            cx < 0 || cx >= 10 || cy >= grid.len() || (cy >= 0 && grid[cy][cx])
        } {
        let i: int = choose|i: int|
            0 <= i < cells.len() && {
                let cx = px + (#[trigger] cells[i]).0;
                let cy = py + cells[i].1;
                cx < 0 || cx >= 10 || cy >= grid.len() || (cy >= 0 && grid[cy][cx])
            };
        assert(blocked(grid, px + cells[i].0, py + cells[i].1));
    }
}

/// A step to the side moves a falling piece by its columns and nothing else, unless it would
/// collide there; otherwise nothing changes.
pub proof fn law_shift(game: GameView, dx: int)
    ensures
        !game.game_over && game.clearing is None && !game.hits(
            game.rotation,
            game.px + dx,
            game.py,
        ) ==> game.shifted(dx) == (GameView { px: game.px + dx, ..game }),
        game.game_over || game.clearing is Some || game.hits(
            game.rotation,
            game.px + dx,
            game.py,
        ) ==> game.shifted(dx) == game,
{
}

/// A rotation turns the piece one state further and nudges it no more than needed: the turned
/// piece fits where it ends up, it collides at every smaller nudge, and a nudge to the right
/// is taken only if the same nudge to the left collides. Nothing else changes.
pub proof fn law_rotate_nudges_least(game: GameView, j: int)
    requires
        game.rotated() != game,
    ensures
        !game.game_over,
        game.clearing is None,
        game.piece != Piece::O,
        game.rotated() == (GameView {
            px: game.rotated().px,
            rotation: (game.rotation + 1) % 4,
            ..game
        }),
        -2 <= game.rotated().px - game.px <= 2,
        !game.hits((game.rotation + 1) % 4, game.rotated().px, game.py),
        ({
            let kick = game.rotated().px - game.px;
            let size = if kick < 0 {
                -kick
            } else {
                kick
            };
            &&& -size < j < size ==> game.hits((game.rotation + 1) % 4, game.px + j, game.py)
            &&& kick > 0 ==> game.hits((game.rotation + 1) % 4, game.px - kick, game.py)
        }),
{
}

/// A rotation does something whenever it can: a falling piece other than the square turns if
/// it fits after a nudge of at most two columns.
pub proof fn law_rotate_when_it_fits(game: GameView, kick: int)
    requires
        !game.game_over,
        game.clearing is None,
        game.piece != Piece::O,
        -2 <= kick <= 2,
        !game.hits((game.rotation + 1) % 4, game.px + kick, game.py),
    ensures
        game.rotated().rotation == (game.rotation + 1) % 4,
        game.rotated() != game,
{
}

/// A hard drop takes the piece down through free rows to the first row below which it
/// collides, and locks it there.
pub proof fn law_drop_outcome(game: GameView, first: Seq<Piece>, second: Seq<Piece>) -> (row: int)
    requires
        !game.game_over,
        game.clearing is None,
        game.rotation < 4,
        !game.hits(game.rotation, game.px, game.py),
    ensures
        game.py <= row,
        forall|y: int| game.py <= y <= row ==> !#[trigger] game.hits(game.rotation, game.px, y),
        game.hits(game.rotation, game.px, row + 1),
        game.dropped(first, second) == (GameView { py: row, ..game }).locked(first, second),
{
    law_landing(game, game.py);
    game.landing(game.py)
}

/// Otherwise a hard drop does nothing.
pub proof fn law_no_drop(game: GameView, first: Seq<Piece>, second: Seq<Piece>)
    requires
        game.game_over || game.clearing is Some,
    ensures
        game.dropped(first, second) == game,
{
}

/// A piece that fits in a row but not in the next rests on something: one of its cells is in
/// the bottom row or right above a filled cell.
pub proof fn law_landed_piece_rests(game: GameView, turns: nat, px: int, py: int)
    requires
        py >= 0,
        turns < 4,
        !game.hits(turns, px, py),
        game.hits(turns, px, py + 1),
    ensures
        exists|dx: int, dy: int|
            {
                &&& #[trigger] in_shape(game.piece, turns, dx, dy)
                &&& py + dy + 1 == game.grid.len() || game.grid[py + dy + 1][px + dx]
            },
{
    law_hits(game, turns, px, py);
    law_hits(game, turns, px, py + 1);
    lemma_shape_in_box(game.piece, turns);
    let (dx, dy): (int, int) = choose|dx: int, dy: int|
        {
            &&& #[trigger] in_shape(game.piece, turns, dx, dy)
            &&& px + dx < 0 || px + dx >= 10 || py + 1 + dy >= game.grid.len() || (py + 1 + dy >= 0
                && game.grid[py + 1 + dy][px + dx])
        };
    assert(in_shape(game.piece, turns, dx, dy));
    assert(!(px + dx < 0 || px + dx >= 10 || py + dy >= game.grid.len()));
}

/// After a hard drop, a cell that was empty and is filled now is in the bottom row or right
/// above a cell that was filled before.
pub proof fn law_drop_rests(game: GameView, first: Seq<Piece>, second: Seq<Piece>)
    requires
        !game.game_over,
        game.clearing is None,
        game.rotation < 4,
        game.py >= 0,
        !game.hits(game.rotation, game.px, game.py),
    ensures
        exists|x: int, y: int|
            {
                &&& 0 <= x < 10
                &&& 0 <= y < game.grid.len()
                &&& #[trigger] game.dropped(first, second).grid[y][x]
                &&& !game.grid[y][x]
                &&& y + 1 == game.grid.len() || game.grid[y + 1][x]
            },
{
    let row: int = law_drop_outcome(game, first, second);
    law_landed_piece_rests(game, game.rotation, game.px, row);
    let (dx, dy): (int, int) = choose|dx: int, dy: int|
        {
            &&& #[trigger] in_shape(game.piece, game.rotation, dx, dy)
            &&& row + dy + 1 == game.grid.len() || game.grid[row + dy + 1][game.px + dx]
        };
    law_hits(game, game.rotation, game.px, row);
    lemma_shape_in_box(game.piece, game.rotation);
    assert(in_shape(game.piece, game.rotation, dx, dy));
    law_lock_fills(
        GameView { py: row, ..game },
        first,
        second,
        game.px + dx,
        row + dy,
    );
    assert(game.dropped(first, second).grid[row + dy][game.px + dx]);
}

/// Points for rows cleared at once.
pub proof fn law_points(rows: int)
    ensures
        points(1) == 100,
        points(2) == 300,
        points(3) == 500,
        points(4) == 800,
        rows < 1 || rows > 4 ==> points(rows) == 0,
{
}

/// The full rows are those with all ten cells filled, from the top.
pub proof fn law_full_rows(game: GameView)
    ensures
        forall|y: int| #[trigger]
            game.full_rows().contains(y) <==> 0 <= y < game.grid.len() && (forall|x: int|
                0 <= x < 10 ==> #[trigger] game.grid[y][x]),
        forall|i: int, j: int|
            0 <= i < j < game.full_rows().len() ==> #[trigger] game.full_rows()[i]
                < #[trigger] game.full_rows()[j],
{
    lemma_full_rows(game.grid, game.grid.len());
}

/// The same of a board on its own.
pub proof fn law_full_rows_of(grid: Grid)
    ensures
        forall|y: int| #[trigger]
            full_rows_of(grid, grid.len()).contains(y) <==> 0 <= y < grid.len() && (forall|x: int|
                0 <= x < 10 ==> #[trigger] grid[y][x]),
        forall|i: int, j: int|
            0 <= i < j < full_rows_of(grid, grid.len()).len() ==> #[trigger] full_rows_of(
                grid,
                grid.len(),
            )[i] < #[trigger] full_rows_of(grid, grid.len())[j],
{
    lemma_full_rows(grid, grid.len());
}

/// Locking fills the cells that the piece covers and no other.
pub proof fn law_lock_fills(game: GameView, first: Seq<Piece>, second: Seq<Piece>, x: int, y: int)
    requires
        0 <= y < game.grid.len(),
        0 <= x < 10,
    ensures
        game.locked(first, second).grid.len() == game.grid.len(),
        game.locked(first, second).grid[y].len() == 10,
        game.locked(first, second).grid[y][x] == (game.grid[y][x] || in_shape(
            game.piece,
            game.rotation,
            x - game.px,
            y - game.py,
        )),
{
}

/// The same of a board on its own.
pub proof fn law_stamp_fills(
    grid: Grid,
    piece: Piece,
    turns: nat,
    px: int,
    py: int,
    x: int,
    y: int,
)
    requires
        0 <= y < grid.len(),
        0 <= x < 10,
    ensures
        stamped(grid, piece, turns, px, py).len() == grid.len(),
        stamped(grid, piece, turns, px, py)[y].len() == 10,
        stamped(grid, piece, turns, px, py)[y][x] == (grid[y][x] || in_shape(
            piece,
            turns,
            x - px,
            y - py,
        )),
{
}

/// If locking leaves no full row, the next piece comes in at once.
pub proof fn law_lock_without_rows(game: GameView, first: Seq<Piece>, second: Seq<Piece>)
    requires
        forall|y: int|
            0 <= y < game.grid.len() ==> exists|x: int|
                0 <= x < 10 && !(#[trigger] game.locked(first, second).grid[y])[x],
    ensures
        game.locked(first, second) == (GameView {
            grid: game.locked(first, second).grid,
            ..game
        }).spawned(first, second),
{
    let filled = game.stamped();
    law_full_rows(filled);
    let rows = filled.full_rows();
    assert(game.locked(first, second).grid == filled.grid);
    if rows.len() > 0 {
        let y: int = rows[0];
        assert(rows.contains(y));
        assert(filled.grid[y] == game.locked(first, second).grid[y]);
        let x: int = choose|x: int| 0 <= x < 10 && !filled.grid[y][x];
        assert(filled.grid[y][x]);
    }
    assert(filled == (GameView { grid: filled.grid, ..game }));
}

/// If locking leaves a full row, all full rows and no others begin to flash, from the first
/// tick of the first phase, and one to four of them score 100, 300, 500 or 800. Nothing else
/// changes.
pub proof fn law_lock_with_rows(game: GameView, first: Seq<Piece>, second: Seq<Piece>, full: int)
    requires
        0 <= full < game.grid.len(),
        forall|x: int| 0 <= x < 10 ==> #[trigger] game.locked(first, second).grid[full][x],
    ensures
        game.locked(first, second).clearing is Some,
        game.locked(first, second).clearing->0.frame == 0,
        game.locked(first, second).clearing->0.tick == 0,
        game.locked(first, second) == (GameView {
            grid: game.locked(first, second).grid,
            score: game.locked(first, second).score,
            clearing: game.locked(first, second).clearing,
            ..game
        }),
        ({
            let after = game.locked(first, second);
            let rows = after.clearing->0.rows;
            &&& forall|y: int| #[trigger]
                rows.contains(y) <==> 0 <= y < game.grid.len() && (forall|x: int|
                    0 <= x < 10 ==> #[trigger] after.grid[y][x])
            &&& forall|i: int, j: int|
                0 <= i < j < rows.len() ==> #[trigger] rows[i] < #[trigger] rows[j]
            &&& after.score == game.score + if rows.len() == 1 {
                100int
            } else if rows.len() == 2 {
                300
            } else if rows.len() == 3 {
                500
            } else if rows.len() == 4 {
                800
            } else {
                0
            }
        }),
{
    let filled = game.stamped();
    law_full_rows(filled);
    let rows = filled.full_rows();
    assert(game.locked(first, second).grid == filled.grid);
    assert forall|x: int| 0 <= x < 10 implies #[trigger] filled.grid[full][x] by {
        assert(game.locked(first, second).grid[full][x]);
    }
    assert(rows.contains(full));
}

/// A queue of fewer than two pieces gets a bag at its back; a longer one stays as it is.
pub proof fn law_top_up(queue: Seq<Piece>, bag: Seq<Piece>)
    ensures
        queue.len() == 0 ==> topped_up(queue, bag) == bag,
        queue.len() == 1 ==> topped_up(queue, bag) == seq![queue[0]] + bag,
        queue.len() >= 2 ==> topped_up(queue, bag) == queue,
{
    if queue.len() == 0 {
        assert(queue + bag =~= bag);
    }
    if queue.len() == 1 {
        assert(queue + bag =~= seq![queue[0]] + bag);
    }
}

/// A spawn takes the head of the queue, topped up before and after; the piece comes in
/// unturned at column 4 of the top row, the preview shows the head of what is left, the
/// countdown starts anew, and the game is over if the piece collides. Board, score, flash and
/// layout stay.
pub proof fn law_spawn_outcome(game: GameView, first: Seq<Piece>, second: Seq<Piece>)
    ensures
        game.spawned(first, second) == (GameView {
            piece: topped_up(game.queue, first)[0],
            queue: topped_up(topped_up(game.queue, first).skip(1), second),
            next_piece: topped_up(topped_up(game.queue, first).skip(1), second)[0],
            rotation: 0,
            px: 4,
            py: 0,
            gravity_accum: 0,
            game_over: game.spawned(first, second).game_over,
            ..game
        }),
        game.spawned(first, second).game_over <==> game.game_over || game.spawned(
            first,
            second,
        ).hits(0, 4, 0),
{
    let after = game.spawned(first, second);
    assert(after.grid == game.grid);
}

/// Rows of a list that are listed from `low` on, below row `n`, and the rows that survive
/// there, make up all of these rows.
proof fn lemma_listed_and_kept(grid: Grid, rows: Seq<int>, listed: Seq<int>, low: nat, n: nat)
    requires
        low <= n,
        forall|i: int, j: int|
            0 <= i < j < listed.len() ==> #[trigger] listed[i] < #[trigger] listed[j],
        forall|r: int| #[trigger] listed.contains(r) <==> low <= r < n && rows.contains(r),
    ensures
        survivors(grid, rows, n).len() - survivors(grid, rows, low).len() + listed.len() == n - low,
    decreases n - low,
{
    if low == n {
        if listed.len() > 0 {
            assert(listed.contains(listed[0]));
        }
    } else {
        let m = (n - 1) as nat;
        if rows.contains(n - 1) {
            assert(listed.contains(n - 1));
            let at: int = listed.index_of(n - 1);
            if at < listed.len() - 1 {
                assert(listed.contains(listed[listed.len() - 1]));
                assert(listed[at] < listed[listed.len() - 1]);
            }
            let fewer = listed.drop_last();
            assert forall|r: int| #[trigger] fewer.contains(r) <==> low <= r < m && rows.contains(
                r,
            ) by {
                if fewer.contains(r) {
                    let k: int = fewer.index_of(r);
                    assert(listed[k] == r);
                    assert(listed.contains(r));
                    assert(listed[k] < listed[listed.len() - 1]);
                }
                if low <= r < m && rows.contains(r) {
                    assert(listed.contains(r));
                    let k: int = listed.index_of(r);
                    assert(fewer[k] == r);
                }
            }
            lemma_listed_and_kept(grid, rows, fewer, low, m);
        } else {
            assert forall|r: int| #[trigger] listed.contains(r) <==> low <= r < m && rows.contains(
                r,
            ) by {}
            lemma_listed_and_kept(grid, rows, listed, low, m);
        }
    }
}

/// A row that survives stands behind those that survive above it.
proof fn lemma_survivor_place(grid: Grid, rows: Seq<int>, y: nat, n: nat)
    requires
        y < n,
        !rows.contains(y as int),
    ensures
        survivors(grid, rows, y).len() < survivors(grid, rows, n).len(),
        survivors(grid, rows, n)[survivors(grid, rows, y).len() as int] == grid[y as int],
    decreases n,
{
    if n > y + 1 {
        lemma_survivor_place(grid, rows, y, (n - 1) as nat);
    }
}

/// Removing rows lets every other row sink by the number of removed rows below it, with its
/// cells. `below` names those rows from the top.
pub proof fn law_rows_sink(grid: Grid, rows: Seq<int>, below: Seq<int>, y: int)
    requires
        0 <= y < grid.len(),
        !rows.contains(y),
        forall|i: int, j: int|
            0 <= i < j < below.len() ==> #[trigger] below[i] < #[trigger] below[j],
        forall|r: int| #[trigger] below.contains(r) <==> y < r < grid.len() && rows.contains(r),
    ensures
        collapsed(grid, rows).len() == grid.len(),
        y + below.len() < grid.len(),
        collapsed(grid, rows)[y + below.len()] == grid[y],
{
    let n = grid.len();
    let top = (y + 1) as nat;
    assert forall|r: int| #[trigger] below.contains(r) <==> top <= r < n && rows.contains(r) by {}
    lemma_listed_and_kept(grid, rows, below, top, n);
    lemma_survivors(grid, rows, n);
    lemma_survivor_place(grid, rows, y as nat, n);
    let kept = survivors(grid, rows, n);
    let place: int = survivors(grid, rows, y as nat).len() as int;
    assert(survivors(grid, rows, top).len() == place + 1);
    assert(collapsed(grid, rows)[n - kept.len() + place] == kept[place]);
}

/// Removing rows leaves as many blank rows on top. `gone` names the removed rows from the top.
pub proof fn law_blank_rows_on_top(grid: Grid, rows: Seq<int>, gone: Seq<int>, x: int, y: int)
    requires
        forall|i: int, j: int| 0 <= i < j < gone.len() ==> #[trigger] gone[i] < #[trigger] gone[j],
        forall|r: int| #[trigger] gone.contains(r) <==> 0 <= r < grid.len() && rows.contains(r),
        0 <= y < gone.len(),
        0 <= x < 10,
    ensures
        collapsed(grid, rows).len() == grid.len(),
        y < grid.len(),
        collapsed(grid, rows)[y].len() == 10,
        !collapsed(grid, rows)[y][x],
{
    lemma_listed_and_kept(grid, rows, gone, 0, grid.len());
    lemma_survivors(grid, rows, grid.len());
    assert(survivors(grid, rows, 0).len() == 0);
}

/// The end of a flash removes the rows that flashed and brings in the next piece; without a
/// flash only the piece comes in.
pub proof fn law_finish_outcome(game: GameView, first: Seq<Piece>, second: Seq<Piece>)
    ensures
        game.clearing is Some ==> game.finished(first, second) == (GameView {
            grid: collapsed(game.grid, game.clearing->0.rows),
            clearing: None,
            ..game
        }).spawned(first, second),
        game.clearing is None ==> game.finished(first, second) == game.spawned(first, second),
{
}

/// When a flash has ended, every row that was not full stands lower by the number of full
/// rows that were below it, with the same cells. `below` names those rows from the top.
pub proof fn law_other_rows_sink(
    game: GameView,
    first: Seq<Piece>,
    second: Seq<Piece>,
    below: Seq<int>,
    y: int,
)
    requires
        game.valid(),
        game.clearing is Some,
        0 <= y < game.grid.len(),
        exists|x: int| 0 <= x < 10 && !(#[trigger] game.grid[y][x]),
        forall|i: int, j: int|
            0 <= i < j < below.len() ==> #[trigger] below[i] < #[trigger] below[j],
        forall|r: int| #[trigger]
            below.contains(r) <==> y < r < game.grid.len() && (forall|x: int|
                0 <= x < 10 ==> #[trigger] game.grid[r][x]),
    ensures
        game.finished(first, second).grid.len() == game.grid.len(),
        y + below.len() < game.grid.len(),
        game.finished(first, second).grid[y + below.len()] == game.grid[y],
{
    law_full_rows(game);
    let rows = game.clearing->0.rows;
    assert forall|r: int| #[trigger]
        below.contains(r) <==> y < r < game.grid.len() && rows.contains(r) by {
        assert(rows.contains(r) <==> game.full_rows().contains(r));
    }
    law_rows_sink(game.grid, rows, below, y);
}

/// A tick while a piece falls: the first 59 ticks of a countdown only count, and the 60th
/// lowers the piece by a row or, where it would collide there, locks it.
pub proof fn law_gravity_tick(game: GameView, first: Seq<Piece>, second: Seq<Piece>)
    requires
        !game.game_over,
        game.clearing is None,
    ensures
        game.gravity_accum < 59 ==> game.ticked(first, second) == (GameView {
            gravity_accum: game.gravity_accum + 1,
            ..game
        }) && !game.tick_shows(),
        game.gravity_accum >= 59 ==> game.tick_shows(),
        game.gravity_accum >= 59 && !game.hits(game.rotation, game.px, game.py + 1)
            ==> game.ticked(first, second) == (GameView {
            gravity_accum: 0,
            py: game.py + 1,
            ..game
        }),
        game.gravity_accum >= 59 && game.hits(game.rotation, game.px, game.py + 1)
            ==> game.ticked(first, second) == (GameView { gravity_accum: 0, ..game }).locked(
            first,
            second,
        ),
{
    let due = GameView { gravity_accum: 0, ..game };
    assert(due.hits(due.rotation, due.px, due.py + 1) == game.hits(
        game.rotation,
        game.px,
        game.py + 1,
    ));
}

/// A tick while rows flash: a phase lasts eight ticks, and after four phases the flash ends.
pub proof fn law_flash_tick(game: GameView, first: Seq<Piece>, second: Seq<Piece>)
    requires
        !game.game_over,
        game.clearing is Some,
    ensures
        game.clearing->0.tick < 7 ==> game.ticked(first, second) == (GameView {
            clearing: Some(
                ClearView { tick: game.clearing->0.tick + 1, ..game.clearing->0 },
            ),
            ..game
        }) && !game.tick_shows(),
        game.clearing->0.tick >= 7 ==> game.tick_shows(),
        game.clearing->0.tick >= 7 && game.clearing->0.frame < 3 ==> game.ticked(first, second) == (
        GameView {
            clearing: Some(
                ClearView {
                    tick: 0,
                    frame: game.clearing->0.frame + 1,
                    rows: game.clearing->0.rows,
                },
            ),
            ..game
        }),
        game.clearing->0.tick >= 7 && game.clearing->0.frame >= 3 ==> game.ticked(first, second)
            == game.finished(first, second),
{
}

/// A tick after the end of the game does nothing.
pub proof fn law_no_tick(game: GameView, first: Seq<Piece>, second: Seq<Piece>)
    requires
        game.game_over,
    ensures
        game.ticked(first, second) == game,
        !game.tick_shows(),
{
}

/// A game starts on an empty board of the rows of its layout, with nothing scored, no flash
/// and no countdown run.
pub proof fn law_blank_game(layout: Layout, queue: Seq<Piece>, x: int, y: int)
    requires
        0 <= y < layout.board_h,
        0 <= x < 10,
    ensures
        blank_game(layout, queue).grid.len() == layout.board_h,
        blank_game(layout, queue).grid[y].len() == 10,
        !blank_game(layout, queue).grid[y][x],
        blank_game(layout, queue).queue == queue,
        blank_game(layout, queue).score == 0,
        blank_game(layout, queue).clearing is None,
        !blank_game(layout, queue).game_over,
        blank_game(layout, queue).layout == layout,
{
}

/// A blank board has no filled cell.
pub proof fn law_blank_grid(height: nat, x: int, y: int)
    requires
        0 <= y < height,
        0 <= x < 10,
    ensures
        blank_grid(height).len() == height,
        blank_grid(height)[y].len() == 10,
        !blank_grid(height)[y][x],
{
}

/// A bag is seven pieces of which each of the seven is one, and all such sevens are bags.
pub proof fn law_bag(s: Seq<Piece>)
    ensures
        is_bag(s) <==> s.len() == 7 && (forall|i: int, j: int|
            0 <= i < j < 7 ==> #[trigger] s[i] != #[trigger] s[j]),
        ALL_PIECES@ == seq![
            Piece::O,
            Piece::I,
            Piece::S,
            Piece::Z,
            Piece::T,
            Piece::L,
            Piece::J,
        ],
{
    assert(ALL_PIECES@ =~= seq![
        Piece::O,
        Piece::I,
        Piece::S,
        Piece::Z,
        Piece::T,
        Piece::L,
        Piece::J,
    ]);
}

/// A shuffle puts into the last place the piece that the first draw picks among all places up
/// to it, and the piece that stood there into the place that was picked; then it goes on with
/// the places before it and the other draws.
pub proof fn law_shuffle(s: Seq<Piece>, last: nat, draws: Seq<u32>)
    requires
        last < s.len(),
        draws.len() == last,
    ensures
        last == 0 ==> shuffled(s, last, draws) == s,
        last > 0 ==> ({
            let picked = draws[0] as int % (last as int + 1);
            shuffled(s, last, draws) == shuffled(
                s.update(last as int, s[picked]).update(picked, s[last as int]),
                (last - 1) as nat,
                draws.skip(1),
            )
        }),
{
    if last > 0 {
        assert((draws[0] as nat % (last + 1)) as int == draws[0] as int % (last as int + 1));
    }
}

/// What an operation that may bring in a piece leads to is what the operation gives with some
/// two bags.
pub proof fn law_outcomes(before: GameView, after: GameView)
    ensures
        spawn_leads(before, after) ==> exists|first: Seq<Piece>, second: Seq<Piece>| #[trigger]
            is_bag(first) && #[trigger] is_bag(second) && after == before.spawned(first, second),
        lock_leads(before, after) ==> exists|first: Seq<Piece>, second: Seq<Piece>| #[trigger]
            is_bag(first) && #[trigger] is_bag(second) && after == before.locked(first, second),
        finish_leads(before, after) ==> exists|first: Seq<Piece>, second: Seq<Piece>| #[trigger]
            is_bag(first) && #[trigger] is_bag(second) && after == before.finished(first, second),
        drop_leads(before, after) ==> exists|first: Seq<Piece>, second: Seq<Piece>| #[trigger]
            is_bag(first) && #[trigger] is_bag(second) && after == before.dropped(first, second),
        tick_leads(before, after) ==> exists|first: Seq<Piece>, second: Seq<Piece>| #[trigger]
            is_bag(first) && #[trigger] is_bag(second) && after == before.ticked(first, second),
{
}

/// The size of a layout, where ten columns of the largest cells that fit the width leave room
/// for sixteen rows: those cells, and as many rows as fit, up to 24. Of the width 34 pixels
/// are set aside and of the height three above and three below, but ten of the width and
/// sixteen of the height are always used.
pub proof fn law_layout_by_width(layout: Layout, screen: Point, side: int)
    requires
        layout.fits(screen),
        10 * side <= (if screen.x - 34 > 10 {
            screen.x - 34
        } else {
            10
        }) < 10 * (side + 1),
        16 * side <= (if screen.y - 6 > 16 {
            screen.y - 6
        } else {
            16
        }),
    ensures
        layout.cell_px == side,
        16 <= layout.board_h <= 24,
        layout.board_h * side <= (if screen.y - 6 > 16 {
            screen.y - 6
        } else {
            16
        }),
        layout.board_h == 24 || (layout.board_h + 1) * side > (if screen.y - 6 > 16 {
            screen.y - 6
        } else {
            16
        }),
{
    lemma_sizes(screen);
    let h: int = if screen.y - 6 > 16 {
        screen.y - 6
    } else {
        16
    };
    assert(usable_height(screen) == h);
    assert(cell_by_width(screen) == side);
    let rows: int = h / side;
    assert(rows >= 16 && rows * side <= h && (rows + 1) * side > h) by (nonlinear_arith)
        requires
            side >= 1,
            16 * side <= h,
            rows == h / side,
    ;
    assert(rows_by_width(screen) == rows);
}

/// The size of a layout where they leave no such room: sixteen rows of the largest cells with
/// which they fit the height, but no larger ones than fit the width.
pub proof fn law_layout_by_height(layout: Layout, screen: Point, side: int)
    requires
        layout.fits(screen),
        10 * side <= (if screen.x - 34 > 10 {
            screen.x - 34
        } else {
            10
        }) < 10 * (side + 1),
        16 * side > (if screen.y - 6 > 16 {
            screen.y - 6
        } else {
            16
        }),
    ensures
        layout.board_h == 16,
        1 <= layout.cell_px <= side,
        16 * layout.cell_px <= (if screen.y - 6 > 16 {
            screen.y - 6
        } else {
            16
        }) < 16 * (layout.cell_px + 1),
{
    lemma_sizes(screen);
    let h: int = if screen.y - 6 > 16 {
        screen.y - 6
    } else {
        16
    };
    assert(usable_height(screen) == h);
    assert(cell_by_width(screen) == side);
    let rows: int = h / side;
    assert(rows < 16) by (nonlinear_arith)
        requires
            side >= 1,
            16 * side > h,
            rows == h / side,
    ;
    assert(rows_by_width(screen) == rows);
}

/// The board is centred: in the width that is used, and in the whole height, to within a
/// pixel that goes to the right and to the bottom; where the board is higher than the screen,
/// as much of it is above the screen as below, to within a pixel that goes to the bottom.
pub proof fn law_layout_centred(layout: Layout, screen: Point)
    requires
        layout.fits(screen),
    ensures
        ({
            let width = if screen.x - 34 > 10 {
                screen.x - 34
            } else {
                10
            };
            let right = width - layout.origin_x - 10 * layout.cell_px;
            let bottom = screen.y - layout.origin_y - layout.board_h * layout.cell_px;
            &&& right == layout.origin_x || right == layout.origin_x + 1
            &&& layout.origin_x >= 0
            &&& screen.y >= layout.board_h * layout.cell_px ==> (bottom == layout.origin_y || bottom
                == layout.origin_y + 1)
            &&& screen.y < layout.board_h * layout.cell_px ==> (bottom == layout.origin_y || bottom
                == layout.origin_y - 1)
        }),
{
    lemma_sizes(screen);
    assert(layout.board_h * layout.cell_px == board_rows(screen)
        * cell_size(screen));
}

/// All screens but those at the very end of the range of sizes have a layout.
pub proof fn law_screens(screen: Point)
    requires
        screen.x >= isize::MIN + 34,
        screen.y >= isize::MIN + 16,
    ensures
        screen_in_range(screen),
{
}

} // verus!
