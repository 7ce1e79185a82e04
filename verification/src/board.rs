//! The board: what blocks a piece, how a piece is written into the board, and how
//! full rows are found and removed.
use crate::piece::{cells_for, in_shape, lemma_shape_in_box, lists_shape, Piece};
use vstd::prelude::*;

verus! {

/// Number of columns.
pub const BOARD_W: usize = 10;

/// A board as rows of cells, top row first, leftmost cell first; `true` is filled.
pub type Grid = Seq<Seq<bool>>;

/// The cells that stored rows hold.
pub open spec fn grid_of(board: Seq<[bool; BOARD_W]>) -> Grid {
    Seq::new(board.len(), |y: int| board[y]@)
}

/// Whether every row has the width of the board.
pub open spec fn is_grid(grid: Grid) -> bool {
    forall|y: int| 0 <= y < grid.len() ==> (#[trigger] grid[y]).len() == BOARD_W
}

/// A row with nothing in it.
pub open spec fn blank_row() -> Seq<bool> {
    Seq::new(BOARD_W as nat, |x: int| false)
}

/// A board of `height` blank rows.
pub open spec fn blank_grid(height: nat) -> Grid {
    Seq::new(height, |y: int| blank_row())
}

/// Whether column `x` of row `y` cannot be entered: it is beside or below the board, or
/// filled. The space above the board is free.
pub open spec fn blocked(grid: Grid, x: int, y: int) -> bool {
    x < 0 || x >= BOARD_W || y >= grid.len() || (y >= 0 && grid[y][x])
}

/// Whether a piece whose bounding box has its top left corner at column `px` and row `py`
/// covers column `x` of row `y`.
pub open spec fn covers(piece: Piece, turns: nat, px: int, py: int, x: int, y: int) -> bool {
    in_shape(piece, turns, x - px, y - py)
}

/// Whether a piece at `px`, `py` would cover a blocked cell.
pub open spec fn collides(grid: Grid, piece: Piece, turns: nat, px: int, py: int) -> bool {
    exists|x: int, y: int| #[trigger]
        covers(piece, turns, px, py, x, y) && blocked(grid, x, y)
}

/// Whether one of the offsets `cells` from `px`, `py` is blocked.
pub open spec fn cells_collide(grid: Grid, px: int, py: int, cells: Seq<(i32, i32)>) -> bool {
    exists|i: int|
        0 <= i < cells.len() && blocked(grid, px + (#[trigger] cells[i]).0, py + cells[i].1)
}

/// Whether one of the offsets `cells` from `px`, `py` is column `x` of row `y`.
pub open spec fn cells_cover(px: int, py: int, cells: Seq<(i32, i32)>, x: int, y: int) -> bool {
    exists|i: int|
        0 <= i < cells.len() && px + (#[trigger] cells[i]).0 == x && py + cells[i].1 == y
}

/// The board with the cells that a piece at `px`, `py` covers filled.
pub open spec fn stamped(grid: Grid, piece: Piece, turns: nat, px: int, py: int) -> Grid {
    Seq::new(
        grid.len(),
        |y: int|
            Seq::new(BOARD_W as nat, |x: int| grid[y][x] || covers(piece, turns, px, py, x, y)),
    )
}

/// Whether every cell of a row is filled.
pub open spec fn row_full(row: Seq<bool>) -> bool {
    forall|x: int| 0 <= x < BOARD_W ==> #[trigger] row[x]
}

/// The full rows among the first `n`, from the top.
pub open spec fn full_rows_of(grid: Grid, n: nat) -> Seq<int>
    decreases n,
{
    if n == 0 {
        Seq::empty()
    } else if row_full(grid[n - 1]) {
        full_rows_of(grid, (n - 1) as nat).push(n - 1)
    } else {
        full_rows_of(grid, (n - 1) as nat)
    }
}

/// The rows among the first `n` that are not in `rows`, from the top.
pub open spec fn survivors(grid: Grid, rows: Seq<int>, n: nat) -> Grid
    decreases n,
{
    if n == 0 {
        Seq::empty()
    } else if rows.contains(n - 1) {
        survivors(grid, rows, (n - 1) as nat)
    } else {
        survivors(grid, rows, (n - 1) as nat).push(grid[n - 1])
    }
}

/// The board without the rows `rows`: the others keep their order and sink to the bottom,
/// and blank rows fill the space on top.
pub open spec fn collapsed(grid: Grid, rows: Seq<int>) -> Grid {
    let kept = survivors(grid, rows, grid.len());
    blank_grid((grid.len() - kept.len()) as nat) + kept
}

/// Row numbers as integers.
pub open spec fn row_numbers(rows: Seq<usize>) -> Seq<int> {
    Seq::new(rows.len(), |i: int| rows[i] as int)
}

/// A listing of the shape collides where the shape does, and covers what it covers.
pub proof fn lemma_cells_of_shape(
    grid: Grid,
    piece: Piece,
    turns: nat,
    px: int,
    py: int,
    cells: Seq<(i32, i32)>,
)
    requires
        lists_shape(cells, piece, turns),
    ensures
        cells_collide(grid, px, py, cells) == collides(grid, piece, turns, px, py),
        forall|x: int, y: int|
            cells_cover(px, py, cells, x, y) == #[trigger] covers(piece, turns, px, py, x, y),
{
    assert forall|x: int, y: int|
        cells_cover(px, py, cells, x, y) == #[trigger] covers(piece, turns, px, py, x, y) by {
        if covers(piece, turns, px, py, x, y) {
            assert(in_shape(piece, turns, x - px, y - py));
        }
    }
    if cells_collide(grid, px, py, cells) {
        let i: int = choose|i: int|
            0 <= i < cells.len() && blocked(grid, px + (#[trigger] cells[i]).0, py + cells[i].1);
        assert(covers(piece, turns, px, py, px + cells[i].0, py + cells[i].1));
    }
    if collides(grid, piece, turns, px, py) {
        let (x, y): (int, int) = choose|x: int, y: int| #[trigger]
            covers(piece, turns, px, py, x, y) && blocked(grid, x, y);
        assert(cells_cover(px, py, cells, x, y));
    }
}

/// A piece that does not collide is at most three columns left of the board, and has its
/// bounding box start above the bottom.
pub proof fn lemma_free_position(grid: Grid, piece: Piece, turns: nat, px: int, py: int)
    requires
        turns < 4,
        !collides(grid, piece, turns, px, py),
    ensures
        -3 <= px < BOARD_W,
        py < grid.len(),
{
    lemma_shape_in_box(piece, turns);
    let (x, y): (int, int) = choose|x: int, y: int| in_shape(piece, turns, x, y);
    assert(covers(piece, turns, px, py, px + x, py + y));
}

/// The list of full rows holds the full rows and nothing else, each once and from the top.
pub proof fn lemma_full_rows(grid: Grid, n: nat)
    ensures
        forall|y: int| #[trigger]
            full_rows_of(grid, n).contains(y) <==> 0 <= y < n && row_full(grid[y]),
        forall|i: int, j: int|
            0 <= i < j < full_rows_of(grid, n).len() ==> #[trigger] full_rows_of(grid, n)[i]
                < #[trigger] full_rows_of(grid, n)[j],
    decreases n,
{
    if n > 0 {
        let before = full_rows_of(grid, (n - 1) as nat);
        let rows = full_rows_of(grid, n);
        lemma_full_rows(grid, (n - 1) as nat);
        assert forall|i: int| 0 <= i < before.len() implies #[trigger] before[i] < n - 1 by {
            assert(before.contains(before[i]));
        }
        if row_full(grid[n - 1]) {
            assert(rows == before.push(n - 1));
            assert forall|y: int| #[trigger] rows.contains(y) <==> 0 <= y < n && row_full(
                grid[y],
            ) by {
                if before.contains(y) {
                    let i: int = before.index_of(y);
                    assert(rows[i] == y);
                }
                if rows.contains(y) {
                    let i: int = rows.index_of(y);
                    if i < before.len() {
                        assert(before[i] == y);
                    }
                }
                assert(rows[before.len() as int] == n - 1);
            }
        }
    }
}

/// A list of rows in which each is below the one before, all from `low` up to but not
/// including `high`, is no longer than that range.
pub proof fn lemma_rows_in_range(rows: Seq<int>, low: int, high: int)
    requires
        low <= high,
        forall|i: int, j: int| 0 <= i < j < rows.len() ==> #[trigger] rows[i] < #[trigger] rows[j],
        forall|i: int| 0 <= i < rows.len() ==> low <= #[trigger] rows[i] < high,
    ensures
        rows.len() <= high - low,
    decreases rows.len(),
{
    if rows.len() > 0 {
        let last: int = rows.len() - 1;
        assert forall|i: int| 0 <= i < rows.drop_last().len() implies low <= #[trigger]
        rows.drop_last()[i] < rows[last] by {
            assert(rows[i] < rows[last]);
        }
        assert(low <= rows[last] < high);
        lemma_rows_in_range(rows.drop_last(), low, rows[last]);
    }
}

/// A piece written into a board without full rows fills at most four, and only rows that
/// its bounding box spans.
pub proof fn lemma_stamped_rows(grid: Grid, piece: Piece, turns: nat, px: int, py: int)
    requires
        turns < 4,
        full_rows_of(grid, grid.len()).len() == 0,
    ensures
        is_grid(stamped(grid, piece, turns, px, py)),
        full_rows_of(stamped(grid, piece, turns, px, py), grid.len()).len() <= 4,
        forall|y: int| #[trigger]
            full_rows_of(stamped(grid, piece, turns, px, py), grid.len()).contains(y) ==> py <= y
                < py + 4,
{
    let after = stamped(grid, piece, turns, px, py);
    let rows = full_rows_of(after, grid.len());
    lemma_full_rows(grid, grid.len());
    lemma_full_rows(after, grid.len());
    lemma_shape_in_box(piece, turns);
    assert forall|y: int| #[trigger] rows.contains(y) implies py <= y < py + 4 by {
        assert(!full_rows_of(grid, grid.len()).contains(y));
        let x: int = choose|x: int| 0 <= x < BOARD_W && !(#[trigger] grid[y][x]);
        assert(after[y][x]);
        assert(covers(piece, turns, px, py, x, y));
    }
    assert forall|i: int| 0 <= i < rows.len() implies py <= #[trigger] rows[i] < py + 4 by {
        assert(rows.contains(rows[i]));
    }
    lemma_rows_in_range(rows, py, py + 4);
}

/// Every surviving row is a row of the board that is not listed.
pub proof fn lemma_survivors(grid: Grid, rows: Seq<int>, n: nat)
    ensures
        survivors(grid, rows, n).len() <= n,
        forall|i: int|
            0 <= i < survivors(grid, rows, n).len() ==> exists|y: int|
                0 <= y < n && !rows.contains(y) && #[trigger] grid[y] == #[trigger] survivors(
                    grid,
                    rows,
                    n,
                )[i],
    decreases n,
{
    if n > 0 {
        let before = survivors(grid, rows, (n - 1) as nat);
        let after = survivors(grid, rows, n);
        lemma_survivors(grid, rows, (n - 1) as nat);
        assert forall|i: int| 0 <= i < after.len() implies exists|y: int|
            0 <= y < n && !rows.contains(y) && #[trigger] grid[y] == #[trigger] after[i] by {
            if i < before.len() {
                assert(after[i] == before[i]);
            } else {
                assert(after[i] == grid[n - 1]);
            }
        }
    }
}

/// Removing the full rows keeps the size of the board and leaves no full row.
pub proof fn lemma_collapsed(grid: Grid)
    requires
        is_grid(grid),
    ensures
        is_grid(collapsed(grid, full_rows_of(grid, grid.len()))),
        collapsed(grid, full_rows_of(grid, grid.len())).len() == grid.len(),
        full_rows_of(collapsed(grid, full_rows_of(grid, grid.len())), grid.len()).len() == 0,
{
    let rows = full_rows_of(grid, grid.len());
    let kept = survivors(grid, rows, grid.len());
    let after = collapsed(grid, rows);
    lemma_full_rows(grid, grid.len());
    lemma_survivors(grid, rows, grid.len());
    lemma_full_rows(after, grid.len());
    let top: int = grid.len() - kept.len();
    assert forall|y: int| 0 <= y < after.len() implies (#[trigger] after[y]).len() == BOARD_W
        && !row_full(after[y]) by {
        if y < top {
            assert(after[y] == blank_row());
            assert(!after[y][0]);
        } else {
            assert(after[y] == kept[y - top]);
            let k: int = choose|k: int|
                0 <= k < grid.len() && !rows.contains(k) && #[trigger] grid[k] == kept[y - top];
            assert(!rows.contains(k));
        }
    }
    let left = full_rows_of(after, grid.len());
    if left.len() > 0 {
        assert(left.contains(left[0]));
    }
}

/// A blank board has rows of the right width, and no full row.
pub proof fn lemma_blank_grid(height: nat)
    ensures
        is_grid(blank_grid(height)),
        full_rows_of(blank_grid(height), height).len() == 0,
{
    let grid = blank_grid(height);
    let rows = full_rows_of(grid, height);
    lemma_full_rows(grid, height);
    if rows.len() > 0 {
        assert(rows.contains(rows[0]));
        assert(!grid[rows[0]][0]);
    }
}

/// A board of blank rows.
pub fn blank_board(height: usize) -> (board: Vec<[bool; BOARD_W]>)
    ensures
        grid_of(board@) == blank_grid(height as nat),
{
    let mut board: Vec<[bool; BOARD_W]> = Vec::new();
    let mut y: usize = 0;
    while y < height
        invariant
            y <= height,
            board@.len() == y,
            forall|k: int| 0 <= k < y ==> (#[trigger] board@[k])@ == blank_row(),
        decreases height - y,
    {
        let row: [bool; BOARD_W] = [false; BOARD_W];
        assert(row@ =~= blank_row());
        board.push(row);
        y = y + 1;
    }
    assert(grid_of(board@) =~= blank_grid(height as nat));
    board
}

/// Whether a cell of a piece at `px`, `py` is beside or below the board, or filled.
pub fn collides_shape(
    board: &Vec<[bool; BOARD_W]>,
    px: i32,
    py: i32,
    cells: [(i32, i32); 4],
) -> (hit: bool)
    requires
        board@.len() <= i32::MAX,
        forall|i: int|
            0 <= i < 4 ==> i32::MIN <= px + (#[trigger] cells@[i]).0 <= i32::MAX && i32::MIN <= py
                + cells@[i].1 <= i32::MAX,
    ensures
        hit == cells_collide(grid_of(board@), px as int, py as int, cells@),
{
    let mut i: usize = 0;
    while i < 4
        invariant
            i <= 4,
            board@.len() <= i32::MAX,
            forall|k: int|
                0 <= k < 4 ==> i32::MIN <= px + (#[trigger] cells@[k]).0 <= i32::MAX && i32::MIN
                    <= py + cells@[k].1 <= i32::MAX,
            forall|k: int|
                0 <= k < i ==> !blocked(
                    grid_of(board@),
                    px + (#[trigger] cells@[k]).0,
                    py + cells@[k].1,
                ),
        decreases 4 - i,
    {
        let (dx, dy) = cells[i];
        assert(cells@[i as int] == (dx, dy));
        let x: i32 = px + dx;
        let y: i32 = py + dy;
        if x < 0 || x >= BOARD_W as i32 || y >= board.len() as i32 {
            return true;
        }
        if y >= 0 && board[y as usize][x as usize] {
            return true;
        }
        i = i + 1;
    }
    false
}

/// Fills the cells of a piece at `px`, `py` that lie between the top and the bottom of the
/// board.
pub fn stamp(board: &mut Vec<[bool; BOARD_W]>, px: i32, py: i32, cells: [(i32, i32); 4])
    requires
        old(board)@.len() <= i32::MAX,
        forall|i: int|
            0 <= i < 4 ==> i32::MIN <= px + (#[trigger] cells@[i]).0 <= i32::MAX && i32::MIN <= py
                + cells@[i].1 <= i32::MAX,
        forall|i: int|
            0 <= i < 4 && 0 <= py + (#[trigger] cells@[i]).1 < old(board)@.len() ==> 0 <= px
                + cells@[i].0 < BOARD_W,
    ensures
        final(board)@.len() == old(board)@.len(),
        forall|x: int, y: int|
            0 <= y < old(board)@.len() && 0 <= x < BOARD_W ==> (
            #[trigger] grid_of(final(board)@)[y][x]) == (grid_of(old(board)@)[y][x] || cells_cover(
                px as int,
                py as int,
                cells@,
                x,
                y,
            )),
{
    let ghost before = board@;
    let mut i: usize = 0;
    while i < 4
        invariant
            i <= 4,
            board@.len() == before.len(),
            before.len() <= i32::MAX,
            forall|k: int|
                0 <= k < 4 ==> i32::MIN <= px + (#[trigger] cells@[k]).0 <= i32::MAX && i32::MIN
                    <= py + cells@[k].1 <= i32::MAX,
            forall|k: int|
                0 <= k < 4 && 0 <= py + (#[trigger] cells@[k]).1 < before.len() ==> 0 <= px
                    + cells@[k].0 < BOARD_W,
            forall|x: int, y: int|
                0 <= y < before.len() && 0 <= x < BOARD_W ==> (#[trigger] board@[y]@[x]) == (
                before[y]@[x] || cells_cover(px as int, py as int, cells@.take(i as int), x, y)),
        decreases 4 - i,
    {
        let (dx, dy) = cells[i];
        assert(cells@[i as int] == (dx, dy));
        let x: i32 = px + dx;
        let y: i32 = py + dy;
        let ghost middle = board@;
        if y >= 0 && y < board.len() as i32 {
            board[y as usize][x as usize] = true;
        }
        proof {
            let taken = cells@.take(i as int);
            let next = cells@.take(i + 1);
            assert forall|cx: int, cy: int|
                0 <= cy < before.len() && 0 <= cx < BOARD_W implies (#[trigger] board@[cy]@[cx])
                == (before[cy]@[cx] || cells_cover(px as int, py as int, next, cx, cy)) by {
                assert(middle[cy]@[cx] == (before[cy]@[cx] || cells_cover(
                    px as int,
                    py as int,
                    taken,
                    cx,
                    cy,
                )));
                if cells_cover(px as int, py as int, taken, cx, cy) {
                    let k: int = choose|k: int|
                        0 <= k < taken.len() && px + (#[trigger] taken[k]).0 == cx && py
                            + taken[k].1 == cy;
                    assert(next[k] == taken[k]);
                }
                if cells_cover(px as int, py as int, next, cx, cy) {
                    let k: int = choose|k: int|
                        0 <= k < next.len() && px + (#[trigger] next[k]).0 == cx && py + next[k].1
                            == cy;
                    if k < i {
                        assert(next[k] == taken[k]);
                    }
                }
                if x == cx && y == cy {
                    assert(next[i as int] == (dx, dy));
                }
            }
        }
        i = i + 1;
    }
    assert(cells@.take(4) =~= cells@);
}

/// Fills the cells that a piece at `px`, `py` covers.
pub fn stamp_piece(
    board: &mut Vec<[bool; BOARD_W]>,
    piece: Piece,
    rotation: u8,
    px: i32,
    py: i32,
)
    requires
        old(board)@.len() <= i32::MAX,
        rotation < 4,
        i32::MIN <= py <= i32::MAX - 3,
        !collides(grid_of(old(board)@), piece, rotation as nat, px as int, py as int),
    ensures
        final(board)@.len() == old(board)@.len(),
        grid_of(final(board)@) == stamped(
            grid_of(old(board)@),
            piece,
            rotation as nat,
            px as int,
            py as int,
        ),
{
    let ghost grid = grid_of(board@);
    let ghost turns = rotation as nat;
    let cells = cells_for(piece, rotation);
    proof {
        lemma_shape_in_box(piece, turns);
        lemma_cells_of_shape(grid, piece, turns, px as int, py as int, cells@);
        assert forall|i: int| 0 <= i < 4 implies 0 <= px + (#[trigger] cells@[i]).0 < BOARD_W
            && i32::MIN <= py + cells@[i].1 <= i32::MAX by {
            assert(in_shape(piece, turns, cells@[i].0 as int, cells@[i].1 as int));
            assert(covers(piece, turns, px as int, py as int, px + cells@[i].0, py + cells@[i].1));
        }
    }
    stamp(board, px, py, cells);
    proof {
        let after = grid_of(board@);
        let wanted = stamped(grid, piece, turns, px as int, py as int);
        assert forall|y: int| 0 <= y < after.len() implies #[trigger] after[y] == wanted[y] by {
            assert forall|x: int| 0 <= x < BOARD_W implies after[y][x] == wanted[y][x] by {
                assert(cells_cover(px as int, py as int, cells@, x, y) == covers(
                    piece,
                    turns,
                    px as int,
                    py as int,
                    x,
                    y,
                ));
            }
            assert(after[y] =~= wanted[y]);
        }
        assert(after =~= wanted);
    }
}

/// A copy of a board.
pub fn copy_board(board: &Vec<[bool; BOARD_W]>) -> (copy: Vec<[bool; BOARD_W]>)
    ensures
        copy@ == board@,
{
    let mut copy: Vec<[bool; BOARD_W]> = Vec::new();
    let mut y: usize = 0;
    while y < board.len()
        invariant
            y <= board@.len(),
            copy@ == board@.take(y as int),
        decreases board@.len() - y,
    {
        copy.push(board[y]);
        assert(board@.take(y + 1) =~= board@.take(y as int).push(board@[y as int]));
        y = y + 1;
    }
    assert(board@.take(board@.len() as int) =~= board@);
    copy
}

/// The full rows, from the top.
pub fn full_rows(board: &Vec<[bool; BOARD_W]>) -> (rows: Vec<usize>)
    ensures
        row_numbers(rows@) == full_rows_of(grid_of(board@), board@.len()),
{
    let ghost grid = grid_of(board@);
    let mut rows: Vec<usize> = Vec::new();
    let mut y: usize = 0;
    assert(row_numbers(rows@) =~= Seq::<int>::empty());
    while y < board.len()
        invariant
            y <= board@.len(),
            grid == grid_of(board@),
            row_numbers(rows@) == full_rows_of(grid, y as nat),
        decreases board@.len() - y,
    {
        let mut x: usize = 0;
        while x < BOARD_W && board[y][x]
            invariant
                x <= BOARD_W,
                y < board@.len(),
                forall|k: int| 0 <= k < x ==> #[trigger] board@[y as int]@[k],
            decreases BOARD_W - x,
        {
            x = x + 1;
        }
        let ghost before = rows@;
        if x == BOARD_W {
            assert(row_full(grid[y as int]));
            rows.push(y);
            assert(row_numbers(rows@) =~= row_numbers(before).push(y as int));
        } else {
            assert(!grid[y as int][x as int]);
        }
        y = y + 1;
    }
    rows
}

/// Whether a row number is listed.
pub fn lists_row(rows: &Vec<usize>, row: usize) -> (listed: bool)
    ensures
        listed == row_numbers(rows@).contains(row as int),
{
    let mut i: usize = 0;
    while i < rows.len()
        invariant
            i <= rows@.len(),
            forall|k: int| 0 <= k < i ==> rows@[k] != row,
        decreases rows@.len() - i,
    {
        if rows[i] == row {
            assert(row_numbers(rows@)[i as int] == row as int);
            return true;
        }
        i = i + 1;
    }
    false
}

/// The board without the rows `rows`, the others sunk to the bottom in their order.
pub fn collapse(board: &Vec<[bool; BOARD_W]>, rows: &Vec<usize>) -> (new_board: Vec<[bool; BOARD_W]>)
    ensures
        new_board@.len() == board@.len(),
        grid_of(new_board@) == collapsed(grid_of(board@), row_numbers(rows@)),
{
    let height: usize = board.len();
    let ghost grid = grid_of(board@);
    let ghost gone = row_numbers(rows@);
    let ghost all = survivors(grid, gone, height as nat);
    let mut new_board = blank_board(height);
    let mut free: usize = height;
    let mut row: usize = height;
    assert(new_board@.len() == height) by {
        assert(grid_of(new_board@).len() == height);
    }
    while row > 0
        invariant
            row <= free <= height,
            height == board@.len(),
            new_board@.len() == height,
            grid == grid_of(board@),
            gone == row_numbers(rows@),
            all == survivors(grid, gone, height as nat),
            all.len() == survivors(grid, gone, row as nat).len() + (height - free),
            all.take(survivors(grid, gone, row as nat).len() as int) == survivors(
                grid,
                gone,
                row as nat,
            ),
            forall|k: int|
                0 <= k < free ==> (#[trigger] grid_of(new_board@)[k]) == blank_row(),
            forall|k: int|
                free <= k < height ==> (#[trigger] grid_of(new_board@)[k]) == all[k - height
                    + all.len()],
        decreases row,
    {
        row = row - 1;
        let ghost before = grid_of(new_board@);
        let ghost above = survivors(grid, gone, row as nat);
        if !lists_row(rows, row) {
            free = free - 1;
            new_board[free] = board[row];
            proof {
                let now = grid_of(new_board@);
                assert(now =~= before.update(free as int, grid[row as int]));
                assert(all[above.len() as int] == grid[row as int]) by {
                    assert(all.take(above.len() as int + 1) == above.push(grid[row as int]));
                    assert(all.take(above.len() as int + 1)[above.len() as int] == grid[row as int]);
                }
                assert(all.take(above.len() as int) =~= above) by {
                    assert(all.take(above.len() as int + 1).take(above.len() as int) =~= all.take(
                        above.len() as int,
                    ));
                    assert(above.push(grid[row as int]).take(above.len() as int) =~= above);
                }
            }
        }
    }
    proof {
        assert(grid_of(new_board@) =~= collapsed(grid, gone));
    }
    new_board
}

} // verus!
