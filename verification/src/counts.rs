//! How many cells are filled: locking a piece adds four, clearing a row removes ten.
use crate::board::{
    blank_grid, blank_row, blocked, collapsed, collides, covers, full_rows_of, is_grid,
    lemma_full_rows, lemma_survivors, row_full, stamped, survivors, Grid, BOARD_W,
};
use crate::piece::{in_shape, lemma_shape_in_box, shape_cells, shape_cells_upto, Piece};
use vstd::prelude::*;

verus! {

/// Filled cells among the first `n` of a row.
pub open spec fn row_count(row: Seq<bool>, n: nat) -> int
    decreases n,
{
    if n == 0 {
        0
    } else {
        row_count(row, (n - 1) as nat) + if row[n - 1] {
            1int
        } else {
            0
        }
    }
}

/// Filled cells in the first `n` rows of a board.
pub open spec fn grid_count(grid: Grid, n: nat) -> int
    decreases n,
{
    if n == 0 {
        0
    } else {
        grid_count(grid, (n - 1) as nat) + row_count(grid[n - 1], BOARD_W as nat)
    }
}

/// Filled cells of a board.
pub open spec fn filled_cells(grid: Grid) -> int {
    grid_count(grid, grid.len())
}

/// What the cells of a piece in reading order are.
pub proof fn lemma_shape_cells_upto(piece: Piece, turns: nat, n: nat)
    requires
        turns < 4,
        n <= 16,
    ensures
        forall|i: int|
            0 <= i < shape_cells_upto(piece, turns, n).len() ==> {
                let cell = #[trigger] shape_cells_upto(piece, turns, n)[i];
                in_shape(piece, turns, cell.0, cell.1) && cell.1 * 4 + cell.0 < n
            },
        forall|i: int, j: int|
            0 <= i < j < shape_cells_upto(piece, turns, n).len() ==> #[trigger] shape_cells_upto(
                piece,
                turns,
                n,
            )[i] != #[trigger] shape_cells_upto(piece, turns, n)[j],
        forall|x: int, y: int| #[trigger]
            in_shape(piece, turns, x, y) && y * 4 + x < n ==> shape_cells_upto(
                piece,
                turns,
                n,
            ).contains((x, y)),
    decreases n,
{
    lemma_shape_in_box(piece, turns);
    if n > 0 {
        let before = shape_cells_upto(piece, turns, (n - 1) as nat);
        let after = shape_cells_upto(piece, turns, n);
        lemma_shape_cells_upto(piece, turns, (n - 1) as nat);
        let cell = ((n - 1) % 4, (n - 1) / 4);
        assert forall|x: int, y: int| #[trigger]
            in_shape(piece, turns, x, y) && y * 4 + x < n implies after.contains((x, y)) by {
            if y * 4 + x < n - 1 {
                let i: int = before.index_of((x, y));
                assert(after[i] == (x, y));
            } else {
                assert((x, y) == cell);
                assert(after[before.len() as int] == cell);
            }
        }
    }
}

/// Every piece has four cells, in every rotation.
pub proof fn law_four_cells(piece: Piece, turns: nat)
    requires
        turns < 4,
    ensures
        shape_cells(piece, turns).len() == 4,
{
    reveal_with_fuel(in_shape, 4);
    reveal_with_fuel(shape_cells_upto, 17);
}

/// Filling an empty cell of a row.
proof fn lemma_row_put(row: Seq<bool>, x: int, n: nat)
    requires
        0 <= x < row.len(),
        n <= row.len(),
        !row[x],
    ensures
        row_count(row.update(x, true), n) == row_count(row, n) + if x < n {
            1int
        } else {
            0
        },
    decreases n,
{
    if n > 0 {
        lemma_row_put(row, x, (n - 1) as nat);
    }
}

/// The board with column `x` of row `y` filled.
pub open spec fn put(grid: Grid, x: int, y: int) -> Grid {
    grid.update(y, grid[y].update(x, true))
}

/// Filling an empty cell of a board.
proof fn lemma_put(grid: Grid, x: int, y: int, n: nat)
    requires
        is_grid(grid),
        0 <= y < grid.len(),
        0 <= x < BOARD_W,
        !grid[y][x],
        n <= grid.len(),
    ensures
        grid_count(put(grid, x, y), n) == grid_count(grid, n) + if y < n {
            1int
        } else {
            0
        },
    decreases n,
{
    if n > 0 {
        lemma_put(grid, x, y, (n - 1) as nat);
        if y == n - 1 {
            lemma_row_put(grid[y], x, BOARD_W as nat);
        }
    }
}

/// The board with the first `k` of the cells at the offsets `cells` from `px`, `py` filled.
pub open spec fn put_all(grid: Grid, px: int, py: int, cells: Seq<(int, int)>, k: nat) -> Grid
    decreases k,
{
    if k == 0 {
        grid
    } else {
        put(
            put_all(grid, px, py, cells, (k - 1) as nat),
            px + cells[k - 1].0,
            py + cells[k - 1].1,
        )
    }
}

/// Filling distinct empty cells one by one.
proof fn lemma_put_all(grid: Grid, px: int, py: int, cells: Seq<(int, int)>, k: nat)
    requires
        is_grid(grid),
        k <= cells.len(),
        forall|i: int, j: int| 0 <= i < j < cells.len() ==> #[trigger] cells[i] != #[trigger] cells[j],
        forall|i: int|
            0 <= i < cells.len() ==> 0 <= px + (#[trigger] cells[i]).0 < BOARD_W && 0 <= py
                + cells[i].1 < grid.len() && !grid[py + cells[i].1][px + cells[i].0],
    ensures
        is_grid(put_all(grid, px, py, cells, k)),
        put_all(grid, px, py, cells, k).len() == grid.len(),
        forall|x: int, y: int|
            0 <= y < grid.len() && 0 <= x < BOARD_W ==> (#[trigger] put_all(
                grid,
                px,
                py,
                cells,
                k,
            )[y][x]) == (grid[y][x] || cells.take(k as int).contains((x - px, y - py))),
        filled_cells(put_all(grid, px, py, cells, k)) == filled_cells(grid) + k,
    decreases k,
{
    if k > 0 {
        let m = (k - 1) as nat;
        let before = put_all(grid, px, py, cells, m);
        let after = put_all(grid, px, py, cells, k);
        lemma_put_all(grid, px, py, cells, m);
        let cell = cells[k - 1];
        let x0: int = px + cell.0;
        let y0: int = py + cell.1;
        assert(!before[y0][x0]) by {
            if cells.take(m as int).contains((x0 - px, y0 - py)) {
                let i: int = cells.take(m as int).index_of((x0 - px, y0 - py));
                assert(cells[i] == cell);
            }
        }
        lemma_put(before, x0, y0, grid.len());
        assert forall|x: int, y: int| 0 <= y < grid.len() && 0 <= x < BOARD_W implies (
        #[trigger] after[y][x]) == (grid[y][x] || cells.take(k as int).contains((x - px, y - py))) by {
            assert(before[y][x] == (grid[y][x] || cells.take(m as int).contains(
                (x - px, y - py),
            )));
            assert(cells.take(k as int) =~= cells.take(m as int).push(cell));
            if cells.take(m as int).contains((x - px, y - py)) {
                let i: int = cells.take(m as int).index_of((x - px, y - py));
                assert(cells.take(k as int)[i] == (x - px, y - py));
            }
            if cells.take(k as int).contains((x - px, y - py)) {
                let i: int = cells.take(k as int).index_of((x - px, y - py));
                if i < m {
                    assert(cells.take(m as int)[i] == (x - px, y - py));
                }
            }
            if x == x0 && y == y0 {
                assert(cells.take(k as int)[m as int] == cell);
            }
        }
    } else {
        assert(cells.take(0) =~= Seq::<(int, int)>::empty());
    }
}

/// Writing a piece that collides with nothing into a board fills exactly four more cells.
pub proof fn law_lock_adds_four(grid: Grid, piece: Piece, turns: nat, px: int, py: int)
    requires
        is_grid(grid),
        turns < 4,
        py >= 0,
        !collides(grid, piece, turns, px, py),
    ensures
        filled_cells(stamped(grid, piece, turns, px, py)) == filled_cells(grid) + 4,
{
    let cells = shape_cells(piece, turns);
    law_four_cells(piece, turns);
    lemma_shape_cells_upto(piece, turns, 16);
    lemma_shape_in_box(piece, turns);
    assert forall|i: int| 0 <= i < cells.len() implies 0 <= px + (#[trigger] cells[i]).0 < BOARD_W
        && 0 <= py + cells[i].1 < grid.len() && !grid[py + cells[i].1][px + cells[i].0] by {
        assert(in_shape(piece, turns, cells[i].0, cells[i].1));
        assert(covers(piece, turns, px, py, px + cells[i].0, py + cells[i].1));
        assert(!blocked(grid, px + cells[i].0, py + cells[i].1));
    }
    lemma_put_all(grid, px, py, cells, 4);
    let after = stamped(grid, piece, turns, px, py);
    let filled = put_all(grid, px, py, cells, 4);
    assert(cells.take(4) =~= cells);
    assert forall|y: int| 0 <= y < grid.len() implies #[trigger] after[y] == filled[y] by {
        assert forall|x: int| 0 <= x < BOARD_W implies after[y][x] == filled[y][x] by {
            if covers(piece, turns, px, py, x, y) {
                assert(in_shape(piece, turns, x - px, y - py));
                assert(cells.contains((x - px, y - py)));
            }
            if cells.contains((x - px, y - py)) {
                let i: int = cells.index_of((x - px, y - py));
                assert(in_shape(piece, turns, cells[i].0, cells[i].1));
            }
        }
        assert(after[y] =~= filled[y]);
    }
    assert(after =~= filled);
}

/// A full row has ten filled cells.
pub proof fn lemma_full_row_count(row: Seq<bool>, n: nat)
    requires
        row_full(row),
        n <= BOARD_W,
    ensures
        row_count(row, n) == n,
    decreases n,
{
    if n > 0 {
        lemma_full_row_count(row, (n - 1) as nat);
        assert(row[n - 1]);
    }
}

/// A blank row has none.
proof fn lemma_blank_row_count(n: nat)
    requires
        n <= BOARD_W,
    ensures
        row_count(blank_row(), n) == 0,
    decreases n,
{
    if n > 0 {
        lemma_blank_row_count((n - 1) as nat);
    }
}

/// The count of a board is that of its first rows and that of the rest.
proof fn lemma_count_join(a: Grid, b: Grid, n: nat)
    requires
        n <= b.len(),
    ensures
        grid_count(a + b, (a.len() + n) as nat) == grid_count(a, a.len()) + grid_count(b, n),
    decreases n,
{
    if n > 0 {
        lemma_count_join(a, b, (n - 1) as nat);
        assert((a + b)[a.len() + n - 1] == b[n - 1]);
    } else {
        lemma_count_prefix(a, b, a.len());
    }
}

/// Rows further down do not count among the first.
proof fn lemma_count_prefix(a: Grid, b: Grid, n: nat)
    requires
        n <= a.len(),
    ensures
        grid_count(a + b, n) == grid_count(a, n),
    decreases n,
{
    if n > 0 {
        lemma_count_prefix(a, b, (n - 1) as nat);
        assert((a + b)[n - 1] == a[n - 1]);
    }
}

/// Blank rows have no filled cell.
proof fn lemma_blank_count(height: nat, n: nat)
    requires
        n <= height,
    ensures
        grid_count(blank_grid(height), n) == 0,
    decreases n,
{
    if n > 0 {
        lemma_blank_count(height, (n - 1) as nat);
        lemma_blank_row_count(BOARD_W as nat);
        assert(blank_grid(height)[n - 1] == blank_row());
    }
}

/// The first `n` rows have the cells of the surviving ones and ten for each full one.
proof fn lemma_survivors_count(grid: Grid, rows: Seq<int>, n: nat)
    requires
        forall|y: int| 0 <= y < n ==> (#[trigger] rows.contains(y) <==> row_full(grid[y])),
    ensures
        filled_cells(survivors(grid, rows, n)) + 10 * full_rows_of(grid, n).len() == grid_count(
            grid,
            n,
        ),
    decreases n,
{
    if n > 0 {
        let before = survivors(grid, rows, (n - 1) as nat);
        lemma_survivors_count(grid, rows, (n - 1) as nat);
        assert(rows.contains(n - 1) <==> row_full(grid[n - 1]));
        if rows.contains(n - 1) {
            lemma_full_row_count(grid[n - 1], BOARD_W as nat);
        } else {
            assert(before.push(grid[n - 1]) =~= before + seq![grid[n - 1]]);
            lemma_count_join(before, seq![grid[n - 1]], 1);
            reveal_with_fuel(grid_count, 2);
        }
    }
}

/// Removing the full rows removes exactly ten filled cells for each.
pub proof fn law_clear_removes_ten(grid: Grid)
    ensures
        filled_cells(collapsed(grid, full_rows_of(grid, grid.len()))) == filled_cells(grid) - 10
            * full_rows_of(grid, grid.len()).len(),
{
    let rows = full_rows_of(grid, grid.len());
    let kept = survivors(grid, rows, grid.len());
    lemma_full_rows(grid, grid.len());
    lemma_survivors(grid, rows, grid.len());
    lemma_survivors_count(grid, rows, grid.len());
    let top = blank_grid((grid.len() - kept.len()) as nat);
    lemma_blank_count(top.len(), top.len());
    lemma_count_join(top, kept, kept.len());
}

} // verus!
