//! What holds of play: shapes, turns, falls, locks, scores, flashes and their timing.
use crate::bag::is_bag;
use crate::board::{
    blank_row, blocked, collapsed, covers, full_rows_of, lemma_full_rows, lemma_stamped_rows,
    lemma_survivors, row_full, survivors, Grid, BOARD_W,
};
use crate::counts::{filled_cells, law_clear_removes_ten};
use crate::game_steps::{is_game, is_step};
use crate::layout::{screen_in_range, Point};
use crate::model::{
    blank_game, drop_leads, finish_leads, lock_leads, points, tick_leads, ClearView, GameView,
    CLEAR_ANIM_FRAMES, CLEAR_ANIM_TICKS_PER_FRAME, GRAVITY_TICKS, SPAWN_COLUMN,
};
use crate::piece::{box_side, in_shape, lemma_shape_in_box, Piece};
use crate::validity::{
    law_drop_keeps_valid, law_finish_keeps_valid, law_first_piece_fits, law_landing,
    law_rotate_keeps_valid, law_shift_keeps_valid, law_tick_keeps_valid,
};
use vstd::prelude::*;

verus! {

/// Four quarter turns bring a piece back.
pub proof fn law_four_turns(piece: Piece, turns: nat, x: int, y: int)
    ensures
        in_shape(piece, turns + 4, x, y) == in_shape(piece, turns, x, y),
{
    reveal_with_fuel(in_shape, 5);
}

/// The square looks the same in every rotation.
pub proof fn law_square_never_turns(turns: nat, x: int, y: int)
    ensures
        in_shape(Piece::O, turns, x, y) == in_shape(Piece::O, 0, x, y),
    decreases turns,
{
    if turns > 0 {
        law_square_never_turns((turns - 1) as nat, y, 1 - x);
    }
}

/// Rotating turns the piece a quarter clockwise in its bounding box: the cell in column `x`
/// and row `y` of the box goes to column `side - 1 - y` and row `x`.
pub proof fn law_rotate_is_clockwise(game: GameView, x: int, y: int)
    requires
        game.valid(),
        game.rotated() != game,
    ensures
        in_shape(game.piece, game.rotated().rotation, box_side(game.piece) - 1 - y, x) == in_shape(
            game.piece,
            game.rotation,
            x,
            y,
        ),
{
    reveal_with_fuel(in_shape, 5);
    if game.rotation == 3 {
        law_four_turns(game.piece, 0, box_side(game.piece) - 1 - y, x);
    }
}

/// Rotating changes nothing but the rotation state, by one quarter turn, and the column, by
/// at most two.
pub proof fn law_rotate_moves_little(game: GameView)
    ensures
        game.rotated() == (GameView {
            px: game.rotated().px,
            rotation: game.rotated().rotation,
            ..game
        }),
        -2 <= game.rotated().px - game.px <= 2,
        game.rotated() == game || game.rotated().rotation == game.next_rotation(),
{
}

/// Four rotations in a row that each find room in place bring the piece back.
pub proof fn law_four_rotations_return(game: GameView)
    requires
        game.valid(),
        game.in_play(),
        game.piece == Piece::O || (game.can_turn(0) && game.rotated().can_turn(0)
            && game.rotated().rotated().can_turn(0)),
    ensures
        game.rotated().rotated().rotated().rotated() == game,
{
    if game.piece != Piece::O {
        let third = game.rotated().rotated().rotated();
        assert(third.next_rotation() == game.rotation);
        assert(third.hits(game.rotation, game.px, game.py) == game.hits(
            game.rotation,
            game.px,
            game.py,
        ));
        assert(third.can_turn(0));
    }
}

/// Rotating does nothing only for a reason: no piece is falling, the piece is the square, or
/// the turned piece collides in place and with each of the four nudges.
pub proof fn law_rotate_blocked(game: GameView)
    requires
        game.rotated() == game,
        game.valid(),
    ensures
        !game.in_play() || game.piece == Piece::O || (forall|kick: int|
            -2 <= kick <= 2 ==> !#[trigger] game.can_turn(kick)),
{
}

/// A step to the side moves the piece by just that, and changes nothing else; it does nothing
/// only if no piece is falling or the piece would collide.
pub proof fn law_step_moves_little(game: GameView, dx: int)
    requires
        dx != 0,
    ensures
        game.shifted(dx) == game || game.shifted(dx) == (GameView { px: game.px + dx, ..game }),
        game.shifted(dx) == game <==> !game.in_play() || game.hits(
            game.rotation,
            game.px + dx,
            game.py,
        ),
{
}

/// A step to the side that succeeds is undone by a step to the other side.
pub proof fn law_steps_undo(game: GameView, dx: int)
    requires
        game.valid(),
        game.shifted(dx) != game,
    ensures
        game.shifted(dx).shifted(-dx) == game,
{
    let after = game.shifted(dx);
    assert(after.hits(after.rotation, after.px - dx, after.py) == game.hits(
        game.rotation,
        game.px,
        game.py,
    ));
}

/// When the game is over nothing changes any more, and no tick shows anything.
pub proof fn law_over_is_final(game: GameView, dx: int, first: Seq<Piece>, second: Seq<Piece>)
    requires
        game.game_over,
    ensures
        game.shifted(dx) == game,
        game.rotated() == game,
        game.dropped(first, second) == game,
        game.ticked(first, second) == game,
        !game.tick_shows(),
{
}

/// While rows flash, the player's input does nothing, and a tick changes nothing but the
/// flash until it ends.
pub proof fn law_flash_pauses_play(game: GameView, dx: int, first: Seq<Piece>, second: Seq<Piece>)
    requires
        game.clearing is Some,
        !game.game_over,
    ensures
        game.shifted(dx) == game,
        game.rotated() == game,
        game.dropped(first, second) == game,
        game.ticked(first, second).clearing is Some ==> game.ticked(first, second) == (GameView {
            clearing: game.ticked(first, second).clearing,
            ..game
        }),
{
}

/// The falling piece is on the board, and no cell of it is filled: locking never covers a
/// locked cell.
pub proof fn law_falling_piece_is_free(game: GameView, x: int, y: int)
    requires
        game.valid(),
        game.in_play(),
        covers(game.piece, game.rotation, game.px, game.py, x, y),
    ensures
        0 <= x < BOARD_W,
        0 <= y < game.grid.len(),
        !game.grid[y][x],
{
    lemma_shape_in_box(game.piece, game.rotation);
    assert(!blocked(game.grid, x, y));
    assert(in_shape(game.piece, game.rotation, x - game.px, y - game.py));
}

/// Locking fills at most four rows, and scores for exactly the rows it fills: 100 for one,
/// 300 for two, 500 for three, 800 for four, and nothing for none.
pub proof fn law_lock_scores(game: GameView, first: Seq<Piece>, second: Seq<Piece>)
    requires
        game.valid(),
        game.in_play(),
    ensures
        game.stamped().full_rows().len() <= 4,
        game.locked(first, second).score == game.score + points(
            game.stamped().full_rows().len() as int,
        ),
        game.locked(first, second).clearing is Some <==> game.stamped().full_rows().len() > 0,
        game.locked(first, second).clearing is Some ==> game.locked(first, second).score
            >= game.score + 100,
{
    lemma_stamped_rows(game.grid, game.piece, game.rotation, game.px, game.py);
}

/// Nothing but a lock that fills rows changes the score.
pub proof fn law_score_only_from_rows(
    game: GameView,
    dx: int,
    first: Seq<Piece>,
    second: Seq<Piece>,
)
    ensures
        game.shifted(dx).score == game.score,
        game.rotated().score == game.score,
        game.dropped(first, second).score == game.score + game.drop_gain(),
        game.ticked(first, second).score == game.score + game.tick_gain(),
        game.finished(first, second).score == game.score,
{
}

/// A gravity step does not change where the piece lands.
pub proof fn law_gravity_keeps_landing(game: GameView)
    requires
        game.valid(),
        game.in_play(),
        !game.landed(),
    ensures
        game.lowered(1).landing(game.py + 1) == game.landing(game.py),
{
    lemma_landing_frame(game, game.lowered(1), game.py + 1);
}

/// Where a piece lands does not depend on the row it is in now.
proof fn lemma_landing_frame(a: GameView, b: GameView, y: int)
    requires
        b == (GameView { py: b.py, ..a }),
    ensures
        b.landing(y) == a.landing(y),
    decreases a.grid.len() - y,
{
    assert(a.hits(a.rotation, a.px, y + 1) == b.hits(b.rotation, b.px, y + 1));
    if y < a.grid.len() && !a.hits(a.rotation, a.px, y + 1) {
        lemma_landing_frame(a, b, y + 1);
    }
}

/// A hard drop locks the piece straight below where it was: in the same column and rotation,
/// at a row that it can fall to freely and below which it cannot.
pub proof fn law_drop_lands(game: GameView)
    requires
        game.valid(),
        game.in_play(),
    ensures
        game.at_landing() == (GameView { py: game.at_landing().py, ..game }),
        game.py <= game.at_landing().py,
        game.at_landing().landed(),
        forall|row: int|
            game.py <= row <= game.at_landing().py ==> !#[trigger] game.hits(
                game.rotation,
                game.px,
                row,
            ),
{
    law_landing(game, game.py);
    let after = game.at_landing();
    assert(after.hits(after.rotation, after.px, after.py + 1));
}

/// Whether the states are each one tick after the one before.
pub open spec fn ticks_apart(states: Seq<GameView>) -> bool {
    &&& states.len() >= 1
    &&& forall|i: int| 0 <= i < states.len() - 1 ==> #[trigger] tick_leads(states[i], states[i + 1])
}

/// While a piece falls, the ticks up to the next gravity step do nothing but count.
pub proof fn law_gravity_counts(states: Seq<GameView>, n: int)
    requires
        ticks_apart(states),
        states[0].valid(),
        states[0].in_play(),
        0 <= n < states.len(),
        states[0].gravity_accum + n < GRAVITY_TICKS,
    ensures
        states[n] == (GameView { gravity_accum: states[0].gravity_accum + n, ..states[0] }),
        n > 0 ==> !states[n - 1].tick_shows(),
    decreases n,
{
    if n > 0 {
        law_gravity_counts(states, n - 1);
        assert(tick_leads(states[n - 1], states[n - 1 + 1]));
    }
}

/// Gravity lowers a free piece by one row when its countdown has run for `GRAVITY_TICKS`
/// ticks, and starts the countdown anew; that tick shows.
pub proof fn law_gravity_period(states: Seq<GameView>)
    requires
        ticks_apart(states),
        states[0].valid(),
        states[0].in_play(),
        states.len() == GRAVITY_TICKS - states[0].gravity_accum + 1,
        !states[0].landed(),
    ensures
        states.last() == (GameView { gravity_accum: 0, ..states[0].lowered(1) }),
        states[states.len() - 2].tick_shows(),
{
    let n: int = states.len() - 2;
    law_gravity_counts(states, n);
    assert(tick_leads(states[n], states[n + 1]));
    let due = GameView { gravity_accum: 0, ..states[n] };
    assert(due.hits(due.rotation, due.px, due.py + 1) == states[0].landed());
}

/// A landed piece locks when the countdown has run for `GRAVITY_TICKS` ticks; that tick shows.
pub proof fn law_gravity_locks(states: Seq<GameView>)
    requires
        ticks_apart(states),
        states[0].valid(),
        states[0].in_play(),
        states.len() == GRAVITY_TICKS - states[0].gravity_accum + 1,
        states[0].landed(),
    ensures
        lock_leads(GameView { gravity_accum: 0, ..states[0] }, states.last()),
        states[states.len() - 2].tick_shows(),
{
    let n: int = states.len() - 2;
    law_gravity_counts(states, n);
    assert(tick_leads(states[n], states[n + 1]));
    let last = states[n];
    let due = GameView { gravity_accum: 0, ..last };
    assert(due == (GameView { gravity_accum: 0, ..states[0] }));
    assert(due.hits(due.rotation, due.px, due.py + 1) == states[0].landed());
    let (first, second): (Seq<Piece>, Seq<Piece>) = choose|first: Seq<Piece>, second: Seq<Piece>|
        #[trigger] is_bag(first) && #[trigger] is_bag(second) && states[n + 1] == last.ticked(
            first,
            second,
        );
    assert(states[n + 1] == due.locked(first, second));
}

/// Part of a run of ticks is a run of ticks.
proof fn lemma_ticks_part(states: Seq<GameView>, from: int, to: int)
    requires
        ticks_apart(states),
        0 <= from < to <= states.len(),
    ensures
        ticks_apart(states.subrange(from, to)),
{
    let part = states.subrange(from, to);
    assert forall|i: int| 0 <= i < part.len() - 1 implies #[trigger] tick_leads(
        part[i],
        part[i + 1],
    ) by {
        assert(tick_leads(states[from + i], states[from + i + 1]));
    }
}

/// The tick at which gravity has lowered a piece by `rows` rows, counted from `game`.
pub open spec fn fall_ticks(game: GameView, rows: int) -> int {
    if rows <= 0 {
        0
    } else {
        GRAVITY_TICKS * rows - game.gravity_accum
    }
}

/// The state in which gravity has lowered a piece by `rows` rows.
pub open spec fn fallen(game: GameView, rows: int) -> GameView {
    if rows <= 0 {
        game
    } else {
        GameView { gravity_accum: 0, ..game.lowered(rows) }
    }
}

/// Left to gravity, a piece falls its first row when the countdown that is running ends, and
/// then a row every `GRAVITY_TICKS` ticks until it lands.
pub proof fn law_gravity_falls(states: Seq<GameView>, rows: int)
    requires
        ticks_apart(states),
        states[0].valid(),
        states[0].in_play(),
        0 <= rows <= states[0].landing(states[0].py) - states[0].py,
        fall_ticks(states[0], rows) < states.len(),
    ensures
        states[fall_ticks(states[0], rows)] == fallen(states[0], rows),
        fallen(states[0], rows).valid(),
        fallen(states[0], rows).in_play(),
    decreases rows,
{
    let game = states[0];
    law_landing(game, game.py);
    if rows > 0 {
        law_gravity_falls(states, rows - 1);
        let from: int = fall_ticks(game, rows - 1);
        let to: int = fall_ticks(game, rows) + 1;
        let above = fallen(game, rows - 1);
        let fall = states.subrange(from, to);
        lemma_ticks_part(states, from, to);
        assert(above.landed() == game.hits(game.rotation, game.px, game.py + rows));
        law_gravity_period(fall);
        assert(fall.last() == states[to - 1]);
        let below = fallen(game, rows);
        assert(below.hits(below.rotation, below.px, below.py) == game.hits(
            game.rotation,
            game.px,
            game.py + rows,
        ));
        assert(below.full_rows() == game.full_rows());
    }
}

/// A hard drop does at once what gravity alone does in its time: ticks up to the one that
/// locks the piece, from any countdown, lead to what a hard drop leads to, apart from the
/// countdown, which they have run down.
pub proof fn law_drop_is_gravity_at_once(states: Seq<GameView>)
    requires
        ticks_apart(states),
        states[0].valid(),
        states[0].in_play(),
        states.len() == fall_ticks(
            states[0],
            states[0].landing(states[0].py) - states[0].py + 1,
        ) + 1,
    ensures
        exists|first: Seq<Piece>, second: Seq<Piece>| #[trigger]
            is_bag(first) && #[trigger] is_bag(second) && states.last() == (GameView {
                gravity_accum: 0,
                ..states[0].dropped(first, second)
            }),
{
    let game = states[0];
    let rows: int = game.landing(game.py) - game.py;
    law_landing(game, game.py);
    law_gravity_falls(states, rows);
    let from: int = fall_ticks(game, rows);
    let rest = states.subrange(from, states.len() as int);
    lemma_ticks_part(states, from, states.len() as int);
    let resting = fallen(game, rows);
    assert(resting.hits(resting.rotation, resting.px, resting.py + 1) == game.hits(
        game.rotation,
        game.px,
        game.landing(game.py) + 1,
    ));
    law_gravity_locks(rest);
    assert(rest.last() == states.last());
    let due = GameView { gravity_accum: 0, ..resting };
    let landed = game.at_landing();
    assert(due == (GameView { gravity_accum: 0, ..landed }));
    let (first, second): (Seq<Piece>, Seq<Piece>) = choose|first: Seq<Piece>, second: Seq<Piece>|
        #[trigger] is_bag(first) && #[trigger] is_bag(second) && states.last() == due.locked(
            first,
            second,
        );
    assert(due.stamped() == (GameView { gravity_accum: 0, ..landed.stamped() }));
    assert(due.stamped().full_rows() == landed.stamped().full_rows());
    assert(due.locked(first, second) == (GameView {
        gravity_accum: 0,
        ..landed.locked(first, second)
    }));
}

/// The state `n` ticks into a flash that began in the state `game`.
pub open spec fn flash_after(game: GameView, n: int) -> GameView {
    GameView {
        clearing: Some(
            ClearView {
                frame: n / (CLEAR_ANIM_TICKS_PER_FRAME as int),
                tick: n % (CLEAR_ANIM_TICKS_PER_FRAME as int),
                ..game.clearing->0
            },
        ),
        ..game
    }
}

/// Ticks that a whole flash lasts.
pub open spec fn flash_ticks() -> int {
    CLEAR_ANIM_FRAMES * CLEAR_ANIM_TICKS_PER_FRAME
}

/// During a flash nothing changes but its phase, which advances every
/// `CLEAR_ANIM_TICKS_PER_FRAME` ticks; those ticks show, the others do not.
pub proof fn law_flash_phases(states: Seq<GameView>, n: int)
    requires
        ticks_apart(states),
        states[0].valid(),
        states[0].clearing is Some,
        states[0].clearing->0.frame == 0,
        states[0].clearing->0.tick == 0,
        0 <= n < states.len(),
        n < flash_ticks(),
    ensures
        states[n] == flash_after(states[0], n),
        states[n].tick_shows() <==> (n + 1) % (CLEAR_ANIM_TICKS_PER_FRAME as int) == 0,
    decreases n,
{
    if n > 0 {
        law_flash_phases(states, n - 1);
        assert(tick_leads(states[n - 1], states[n - 1 + 1]));
    } else {
        assert(states[0] == flash_after(states[0], 0)) by {
            assert(states[0].clearing == flash_after(states[0], 0).clearing);
        }
    }
}

/// A flash ends on the last of its ticks: the rows are gone and the next piece enters.
pub proof fn law_flash_length(states: Seq<GameView>)
    requires
        ticks_apart(states),
        states.len() == flash_ticks() + 1,
        states[0].valid(),
        states[0].clearing is Some,
        states[0].clearing->0.frame == 0,
        states[0].clearing->0.tick == 0,
    ensures
        finish_leads(states[0], states[flash_ticks()]),
        states[flash_ticks() - 1].tick_shows(),
{
    let n: int = flash_ticks() - 1;
    law_flash_phases(states, n);
    assert(tick_leads(states[n], states[n + 1]));
    let last = states[n];
    let (first, second): (Seq<Piece>, Seq<Piece>) = choose|first: Seq<Piece>, second: Seq<Piece>|
        #[trigger] is_bag(first) && #[trigger] is_bag(second) && states[n + 1] == last.ticked(
            first,
            second,
        );
    assert(states[n + 1] == last.finished(first, second));
    assert(last.finished(first, second) == states[0].finished(first, second));
}

/// Every state of a game is valid, as long as its score can be held.
pub proof fn law_game_states_valid(states: Seq<GameView>, n: int)
    requires
        is_game(states),
        states[0].layout.fits_some_screen(),
        forall|i: int| 0 <= i < states.len() ==> (#[trigger] states[i]).score <= u32::MAX,
        0 <= n < states.len(),
    ensures
        states[n].valid(),
    decreases n,
{
    if n == 0 {
        let layout = states[0].layout;
        let screen = choose|screen: Point| #[trigger]
            layout.fits(screen) && screen_in_range(screen);
        let (first, second): (Seq<Piece>, Seq<Piece>) = choose|
            first: Seq<Piece>,
            second: Seq<Piece>,
        |
            #[trigger] is_bag(first) && #[trigger] is_bag(second) && states[0] == blank_game(
                layout,
                Seq::empty(),
            ).spawned(first, second);
        law_first_piece_fits(layout, Seq::empty(), first, second, screen);
    } else {
        law_game_states_valid(states, n - 1);
        let before = states[n - 1];
        let after = states[n];
        assert(is_step(states[n - 1], states[n - 1 + 1]));
        assert(after.score <= u32::MAX);
        if after == before.shifted(-1) {
            law_shift_keeps_valid(before, -1);
        } else if after == before.shifted(1) {
            law_shift_keeps_valid(before, 1);
        } else if after == before.rotated() {
            law_rotate_keeps_valid(before);
        } else if drop_leads(before, after) {
            let (first, second): (Seq<Piece>, Seq<Piece>) = choose|
                first: Seq<Piece>,
                second: Seq<Piece>,
            |
                #[trigger] is_bag(first) && #[trigger] is_bag(second) && after == before.dropped(
                    first,
                    second,
                );
            law_score_only_from_rows(before, 0, first, second);
            law_drop_keeps_valid(before, first, second);
        } else {
            let (first, second): (Seq<Piece>, Seq<Piece>) = choose|
                first: Seq<Piece>,
                second: Seq<Piece>,
            |
                #[trigger] is_bag(first) && #[trigger] is_bag(second) && after == before.ticked(
                    first,
                    second,
                );
            law_score_only_from_rows(before, 0, first, second);
            law_tick_keeps_valid(before, first, second);
        }
    }
}

/// The end of a flash leaves no full row and ten cells fewer for each row that flashed; the
/// score was paid before; and the piece that the preview showed comes in, in the middle of
/// the top row.
pub proof fn law_flash_end(game: GameView, first: Seq<Piece>, second: Seq<Piece>)
    requires
        game.awaits_finish(),
        game.clearing is Some,
        game.queue.len() >= 1,
        game.next_piece == game.queue[0],
        is_bag(first),
        is_bag(second),
    ensures
        game.finished(first, second).valid(),
        game.finished(first, second).clearing is None,
        game.finished(first, second).full_rows().len() == 0,
        filled_cells(game.finished(first, second).grid) == filled_cells(game.grid) - 10
            * game.clearing->0.rows.len(),
        game.finished(first, second).score == game.score,
        game.finished(first, second).piece == game.next_piece,
        game.finished(first, second).rotation == 0,
        game.finished(first, second).px == SPAWN_COLUMN,
        game.finished(first, second).py == 0,
{
    law_finish_keeps_valid(game, first, second);
    law_clear_removes_ten(game.grid);
}

/// Removing full rows puts as many blank rows on top; below them stand the other rows, in
/// the order in which they stood.
pub proof fn law_collapse(grid: Grid, rows: Seq<int>, y: int)
    requires
        0 <= y < grid.len(),
        rows == full_rows_of(grid, grid.len()),
    ensures
        collapsed(grid, rows).len() == grid.len(),
        y < rows.len() ==> collapsed(grid, rows)[y] == blank_row(),
        y >= rows.len() ==> collapsed(grid, rows)[y] == survivors(grid, rows, grid.len())[y
            - rows.len()],
{
    lemma_kept_and_gone(grid, grid.len());
    lemma_full_rows(grid, grid.len());
    lemma_survivors(grid, rows, grid.len());
}

/// Survivors of the full rows of the first `n` rows number `n` less the full ones.
proof fn lemma_kept_and_gone(grid: Grid, n: nat)
    ensures
        survivors(grid, full_rows_of(grid, n), n).len() + full_rows_of(grid, n).len() == n,
    decreases n,
{
    if n > 0 {
        let m = (n - 1) as nat;
        lemma_kept_and_gone(grid, m);
        lemma_full_rows(grid, m);
        lemma_full_rows(grid, n);
        assert forall|y: int| 0 <= y < m implies #[trigger] full_rows_of(grid, m).contains(y)
            == full_rows_of(grid, n).contains(y) by {}
        lemma_same_survivors(grid, full_rows_of(grid, m), full_rows_of(grid, n), m);
        assert(full_rows_of(grid, n).contains(n - 1) == row_full(grid[n - 1]));
    }
}

/// Only which of the first `n` rows are listed matters.
proof fn lemma_same_survivors(grid: Grid, a: Seq<int>, b: Seq<int>, n: nat)
    requires
        forall|y: int| 0 <= y < n ==> #[trigger] a.contains(y) == b.contains(y),
    ensures
        survivors(grid, a, n) == survivors(grid, b, n),
    decreases n,
{
    if n > 0 {
        lemma_same_survivors(grid, a, b, (n - 1) as nat);
        assert(a.contains(n - 1) == b.contains(n - 1));
    }
}

} // verus!
