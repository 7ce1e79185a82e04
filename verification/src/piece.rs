//! The seven pieces and the cells they cover in each of their four rotations.
use vstd::prelude::*;

verus! {

/// A tetromino, named after the letter it looks like.
#[derive(Clone, Copy, Debug, PartialEq, Eq, Structural)]
pub enum Piece {
    O,
    I,
    S,
    Z,
    T,
    L,
    J,
}

/// One of each piece, in the order in which a bag is filled before it is shuffled.
pub const ALL_PIECES: [Piece; 7] = [
    Piece::O,
    Piece::I,
    Piece::S,
    Piece::Z,
    Piece::T,
    Piece::L,
    Piece::J,
];

/// Side of the square bounding box that a piece turns in.
pub open spec fn box_side(piece: Piece) -> int {
    match piece {
        Piece::O => 2,
        Piece::I => 4,
        _ => 3,
    }
}

/// Whether the piece, as it spawns, covers column `x` and row `y` of its bounding box.
/// Rows count downwards.
pub open spec fn in_spawn_shape(piece: Piece, x: int, y: int) -> bool {
    match piece {
        Piece::O => 0 <= x <= 1 && 0 <= y <= 1,
        Piece::I => 0 <= x <= 3 && y == 1,
        Piece::S => (y == 0 && 1 <= x <= 2) || (y == 1 && 0 <= x <= 1),
        Piece::Z => (y == 0 && 0 <= x <= 1) || (y == 1 && 1 <= x <= 2),
        Piece::T => (y == 0 && x == 1) || (y == 1 && 0 <= x <= 2),
        Piece::L => (y == 0 && x == 2) || (y == 1 && 0 <= x <= 2),
        Piece::J => (y == 0 && x == 0) || (y == 1 && 0 <= x <= 2),
    }
}

/// Whether the piece covers column `x` and row `y` of its bounding box after
/// `turns` quarter turns clockwise. A quarter turn takes the cell `(x, y)` of a
/// box of side `n` to `(n - 1 - y, x)`.
pub open spec fn in_shape(piece: Piece, turns: nat, x: int, y: int) -> bool
    decreases turns,
{
    if turns == 0 {
        in_spawn_shape(piece, x, y)
    } else {
        in_shape(piece, (turns - 1) as nat, y, box_side(piece) - 1 - x)
    }
}

/// Number of quarter turns that a rotation state stands for: every state past
/// the third counts as the third.
pub open spec fn turns_of(rotation: u8) -> nat {
    if rotation < 3 {
        rotation as nat
    } else {
        3
    }
}

/// Whether `a` comes before `b` when cells are read row by row, left to right.
pub open spec fn reads_before(a: (i32, i32), b: (i32, i32)) -> bool {
    a.1 < b.1 || (a.1 == b.1 && a.0 < b.0)
}

/// Whether `cells` lists, as (column, row) offsets, the cells of the piece after
/// `turns` quarter turns: all of them, nothing else, and in reading order.
pub open spec fn lists_shape(cells: Seq<(i32, i32)>, piece: Piece, turns: nat) -> bool {
    &&& cells.len() == 4
    &&& forall|i: int|
        0 <= i < 4 ==> in_shape(piece, turns, (#[trigger] cells[i]).0 as int, cells[i].1 as int)
    &&& forall|x: int, y: int| #[trigger]
        in_shape(piece, turns, x, y) ==> exists|i: int|
            0 <= i < 4 && (#[trigger] cells[i]).0 == x && cells[i].1 == y
    &&& forall|i: int, j: int| 0 <= i < j < 4 ==> reads_before(#[trigger] cells[i], #[trigger] cells[j])
}

/// The cells of the piece after `turns` quarter turns among the first `n` places of a square
/// of side four, in reading order.
pub open spec fn shape_cells_upto(piece: Piece, turns: nat, n: nat) -> Seq<(int, int)>
    decreases n,
{
    if n == 0 {
        Seq::empty()
    } else {
        let before = shape_cells_upto(piece, turns, (n - 1) as nat);
        let cell = ((n - 1) % 4, (n - 1) / 4);
        if in_shape(piece, turns, cell.0, cell.1) {
            before.push(cell)
        } else {
            before
        }
    }
}

/// The cells of the piece after `turns` quarter turns, as (column, row) offsets in reading
/// order.
pub open spec fn shape_cells(piece: Piece, turns: nat) -> Seq<(int, int)> {
    shape_cells_upto(piece, turns, 16)
}

/// Offsets as integers.
pub open spec fn offsets(cells: Seq<(i32, i32)>) -> Seq<(int, int)> {
    Seq::new(cells.len(), |i: int| (cells[i].0 as int, cells[i].1 as int))
}

/// How many of the listed cells are among the first `n` places; they come first.
proof fn lemma_listing_upto(cells: Seq<(i32, i32)>, piece: Piece, turns: nat, n: nat) -> (k: int)
    requires
        lists_shape(cells, piece, turns),
        turns < 4,
        n <= 16,
    ensures
        0 <= k <= 4,
        shape_cells_upto(piece, turns, n) == offsets(cells).take(k),
        forall|i: int| 0 <= i < 4 ==> (i < k <==> (#[trigger] cells[i]).1 * 4 + cells[i].0 < n),
    decreases n,
{
    lemma_shape_in_box(piece, turns);
    if n == 0 {
        assert(offsets(cells).take(0) =~= Seq::<(int, int)>::empty());
        0
    } else {
        let k: int = lemma_listing_upto(cells, piece, turns, (n - 1) as nat);
        let x: int = (n - 1) % 4;
        let y: int = (n - 1) / 4;
        if in_shape(piece, turns, x, y) {
            let i: int = choose|i: int|
                0 <= i < 4 && (#[trigger] cells[i]).0 == x && cells[i].1 == y;
            assert(k <= i);
            if k < i {
                assert(reads_before(cells[k], cells[i]));
                assert(in_shape(piece, turns, cells[k].0 as int, cells[k].1 as int));
            }
            assert forall|j: int| 0 <= j < 4 implies (j < k + 1 <==> (#[trigger] cells[j]).1 * 4
                + cells[j].0 < n) by {
                if j > k {
                    assert(reads_before(cells[k], cells[j]));
                    assert(in_shape(piece, turns, cells[j].0 as int, cells[j].1 as int));
                }
            }
            assert(offsets(cells).take(k + 1) =~= offsets(cells).take(k).push((x, y)));
            k + 1
        } else {
            assert forall|j: int| 0 <= j < 4 implies (j < k <==> (#[trigger] cells[j]).1 * 4
                + cells[j].0 < n) by {
                assert(in_shape(piece, turns, cells[j].0 as int, cells[j].1 as int));
            }
            k
        }
    }
}

/// A listing of a shape is its cells in reading order.
pub proof fn lemma_listing(cells: Seq<(i32, i32)>, piece: Piece, turns: nat)
    requires
        lists_shape(cells, piece, turns),
        turns < 4,
    ensures
        offsets(cells) == shape_cells(piece, turns),
{
    lemma_shape_in_box(piece, turns);
    let k: int = lemma_listing_upto(cells, piece, turns, 16);
    assert(k == 4) by {
        assert(in_shape(piece, turns, cells[3].0 as int, cells[3].1 as int));
    }
    assert(offsets(cells).take(4) =~= offsets(cells));
}

/// The cells of a piece lie in its bounding box, and there are some.
pub proof fn lemma_shape_in_box(piece: Piece, turns: nat)
    requires
        turns < 4,
    ensures
        forall|x: int, y: int| #[trigger]
            in_shape(piece, turns, x, y) ==> 0 <= x < box_side(piece) && 0 <= y < box_side(piece),
        exists|x: int, y: int| in_shape(piece, turns, x, y),
{
    reveal_with_fuel(in_shape, 4);
    assert(in_shape(piece, turns, 1, 1) || in_shape(piece, turns, 2, 1) || in_shape(
        piece,
        turns,
        1,
        2,
    ));
}

/// The four (column, row) offsets that a piece covers in a rotation state.
pub fn cells_for(piece: Piece, rotation: u8) -> (cells: [(i32, i32); 4])
    ensures
        lists_shape(cells@, piece, turns_of(rotation)),
{
    let cells: [(i32, i32); 4] = match piece {
        Piece::O => [(0, 0), (1, 0), (0, 1), (1, 1)],
        Piece::I => match rotation {
            0 => [(0, 1), (1, 1), (2, 1), (3, 1)],
            1 => [(2, 0), (2, 1), (2, 2), (2, 3)],
            2 => [(0, 2), (1, 2), (2, 2), (3, 2)],
            _ => [(1, 0), (1, 1), (1, 2), (1, 3)],
        },
        Piece::S => match rotation {
            0 => [(1, 0), (2, 0), (0, 1), (1, 1)],
            1 => [(1, 0), (1, 1), (2, 1), (2, 2)],
            2 => [(1, 1), (2, 1), (0, 2), (1, 2)],
            _ => [(0, 0), (0, 1), (1, 1), (1, 2)],
        },
        Piece::Z => match rotation {
            0 => [(0, 0), (1, 0), (1, 1), (2, 1)],
            1 => [(2, 0), (1, 1), (2, 1), (1, 2)],
            2 => [(0, 1), (1, 1), (1, 2), (2, 2)],
            _ => [(1, 0), (0, 1), (1, 1), (0, 2)],
        },
        Piece::T => match rotation {
            0 => [(1, 0), (0, 1), (1, 1), (2, 1)],
            1 => [(1, 0), (1, 1), (2, 1), (1, 2)],
            2 => [(0, 1), (1, 1), (2, 1), (1, 2)],
            _ => [(1, 0), (0, 1), (1, 1), (1, 2)],
        },
        Piece::L => match rotation {
            0 => [(2, 0), (0, 1), (1, 1), (2, 1)],
            1 => [(1, 0), (1, 1), (1, 2), (2, 2)],
            2 => [(0, 1), (1, 1), (2, 1), (0, 2)],
            _ => [(0, 0), (1, 0), (1, 1), (1, 2)],
        },
        Piece::J => match rotation {
            0 => [(0, 0), (0, 1), (1, 1), (2, 1)],
            1 => [(1, 0), (2, 0), (1, 1), (1, 2)],
            2 => [(0, 1), (1, 1), (2, 1), (2, 2)],
            _ => [(1, 0), (1, 1), (0, 2), (1, 2)],
        },
    };
    proof {
        reveal_with_fuel(in_shape, 4);
        let turns = turns_of(rotation);
        let listed = cells@;
        assert forall|x: int, y: int| #[trigger] in_shape(piece, turns, x, y) implies exists|i: int|
            0 <= i < 4 && (#[trigger] listed[i]).0 == x && listed[i].1 == y by {
            assert(listed[0].0 == x && listed[0].1 == y || listed[1].0 == x && listed[1].1 == y
                || listed[2].0 == x && listed[2].1 == y || listed[3].0 == x && listed[3].1 == y);
        }
    }
    cells
}

} // verus!
