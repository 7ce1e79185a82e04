//! Every operation leads from a valid state to a valid state.
use crate::bag::is_bag;
use crate::board::{
    blank_grid, blocked, collapsed, covers, is_grid, lemma_blank_grid, lemma_collapsed,
    lemma_free_position, lemma_stamped_rows,
};
use crate::layout::{lemma_sizes, screen_in_range, Layout, Point, MAX_BOARD_H, MIN_BOARD_H};
use crate::model::{
    blank_game, points, GameView, CLEAR_ANIM_FRAMES, CLEAR_ANIM_TICKS_PER_FRAME, MOST_POINTS,
    SPAWN_COLUMN,
};
use crate::piece::{in_shape, lemma_shape_in_box, Piece};
use vstd::prelude::*;

verus! {

impl GameView {
    /// What a state keeps to when the next piece is about to enter.
    pub open spec fn awaits_piece(self) -> bool {
        &&& MIN_BOARD_H <= self.grid.len() <= MAX_BOARD_H
        &&& is_grid(self.grid)
        &&& self.layout.board_h == self.grid.len()
        &&& self.layout.fits_some_screen()
        &&& 0 <= self.score <= u32::MAX
        &&& !self.game_over
        &&& self.clearing is None
        &&& self.full_rows().len() == 0
    }

    /// What a state keeps to when a flash, if one plays, is about to end: in whatever phase
    /// it is, the rows that flash are the full ones.
    pub open spec fn awaits_finish(self) -> bool {
        &&& MIN_BOARD_H <= self.grid.len() <= MAX_BOARD_H
        &&& is_grid(self.grid)
        &&& self.layout.board_h == self.grid.len()
        &&& self.layout.fits_some_screen()
        &&& 0 <= self.score <= u32::MAX
        &&& !self.game_over
        &&& match self.clearing {
            Some(anim) => anim.rows == self.full_rows(),
            None => self.full_rows().len() == 0,
        }
    }
}

/// No number of rows scores less than nothing or more than four rows do.
pub proof fn law_points_range(rows: int)
    ensures
        0 <= points(rows) <= MOST_POINTS,
{
}

/// No drop and no tick scores more than four rows at once do.
pub proof fn law_gain_range(game: GameView)
    ensures
        0 <= game.drop_gain() <= MOST_POINTS,
        0 <= game.tick_gain() <= MOST_POINTS,
{
}

/// When a piece enters a state that awaits one, the state becomes valid.
pub proof fn law_spawn_keeps_valid(game: GameView, first: Seq<Piece>, second: Seq<Piece>)
    requires
        game.awaits_piece(),
        is_bag(first),
        is_bag(second),
    ensures
        game.spawned(first, second).valid(),
{
    let after = game.spawned(first, second);
    assert(after.grid == game.grid);
    assert(after.layout == game.layout);
    assert(after.full_rows() == game.full_rows());
}

/// On an empty board the first piece finds room.
pub proof fn law_first_piece_fits(
    layout: Layout,
    queue: Seq<Piece>,
    first: Seq<Piece>,
    second: Seq<Piece>,
    screen: Point,
)
    requires
        layout.fits(screen),
        screen_in_range(screen),
        is_bag(first),
        is_bag(second),
    ensures
        blank_game(layout, queue).spawned(first, second).valid(),
        blank_game(layout, queue).spawned(first, second).in_play(),
{
    let game = blank_game(layout, queue);
    let after = game.spawned(first, second);
    lemma_sizes(screen);
    lemma_blank_grid(layout.board_h as nat);
    law_spawn_keeps_valid(game, first, second);
    lemma_shape_in_box(after.piece, 0);
    assert forall|x: int, y: int| #[trigger]
        covers(after.piece, 0, SPAWN_COLUMN as int, 0, x, y) implies !blocked(
        game.grid,
        x,
        y,
    ) by {
        assert(in_shape(after.piece, 0, x - SPAWN_COLUMN, y));
        assert(game.grid[y] == blank_grid(layout.board_h as nat)[y]);
    }
}

/// A step to the side keeps a state valid.
pub proof fn law_shift_keeps_valid(game: GameView, dx: int)
    requires
        game.valid(),
    ensures
        game.shifted(dx).valid(),
{
    let after = game.shifted(dx);
    assert(after.full_rows() == game.full_rows());
    if after != game {
        lemma_free_position(game.grid, game.piece, game.rotation, game.px + dx, game.py);
        assert(!after.hits(after.rotation, after.px, after.py));
    }
}

/// A rotation keeps a state valid.
pub proof fn law_rotate_keeps_valid(game: GameView)
    requires
        game.valid(),
    ensures
        game.rotated().valid(),
{
    let after = game.rotated();
    assert(after.full_rows() == game.full_rows());
    if after != game {
        assert(!after.hits(after.rotation, after.px, after.py));
        lemma_free_position(after.grid, after.piece, after.rotation, after.px, after.py);
    }
}

/// A free fall ends above the bottom, on something, and passes nothing but free space.
pub proof fn law_landing(game: GameView, y: int)
    requires
        game.rotation < 4,
        !game.hits(game.rotation, game.px, y),
    ensures
        y <= game.landing(y) < game.grid.len(),
        game.hits(game.rotation, game.px, game.landing(y) + 1),
        forall|row: int|
            y <= row <= game.landing(y) ==> !#[trigger] game.hits(game.rotation, game.px, row),
    decreases game.grid.len() - y,
{
    lemma_free_position(game.grid, game.piece, game.rotation, game.px, y);
    if !game.hits(game.rotation, game.px, y + 1) {
        law_landing(game, y + 1);
    }
}

/// Falling to where the piece lands keeps a state valid.
pub proof fn law_fall_keeps_valid(game: GameView)
    requires
        game.valid(),
        game.in_play(),
    ensures
        game.at_landing().valid(),
        game.at_landing().in_play(),
        game.at_landing().landed(),
{
    law_landing(game, game.py);
    let after = game.at_landing();
    assert(after.full_rows() == game.full_rows());
    assert(!game.hits(game.rotation, game.px, after.py));
    assert(!after.hits(after.rotation, after.px, after.py));
    assert(after.hits(after.rotation, after.px, after.py + 1));
}

/// Locking the falling piece keeps a state valid.
pub proof fn law_lock_keeps_valid(game: GameView, first: Seq<Piece>, second: Seq<Piece>)
    requires
        game.valid(),
        game.in_play(),
        game.score + game.lock_gain() <= u32::MAX,
        is_bag(first),
        is_bag(second),
    ensures
        game.locked(first, second).valid(),
{
    lemma_stamped_rows(game.grid, game.piece, game.rotation, game.px, game.py);
    let stamped = game.stamped();
    assert(stamped.grid.len() == game.grid.len());
    if stamped.full_rows().len() == 0 {
        law_spawn_keeps_valid(stamped, first, second);
    } else {
        let after = game.locked(first, second);
        assert(after.full_rows() == stamped.full_rows());
    }
}

/// The end of a flash leads to a valid state.
pub proof fn law_finish_keeps_valid(game: GameView, first: Seq<Piece>, second: Seq<Piece>)
    requires
        game.awaits_finish(),
        is_bag(first),
        is_bag(second),
    ensures
        game.finished(first, second).valid(),
{
    match game.clearing {
        Some(anim) => {
            lemma_collapsed(game.grid);
            let after = GameView {
                grid: collapsed(game.grid, anim.rows),
                clearing: None,
                ..game
            };
            assert(after.awaits_piece());
            law_spawn_keeps_valid(after, first, second);
        },
        None => {
            law_spawn_keeps_valid(game, first, second);
        },
    }
}

/// A hard drop keeps a state valid.
pub proof fn law_drop_keeps_valid(game: GameView, first: Seq<Piece>, second: Seq<Piece>)
    requires
        game.valid(),
        game.score + game.drop_gain() <= u32::MAX,
        is_bag(first),
        is_bag(second),
    ensures
        game.dropped(first, second).valid(),
{
    if game.in_play() {
        law_fall_keeps_valid(game);
        law_lock_keeps_valid(game.at_landing(), first, second);
    }
}

/// A tick keeps a state valid.
pub proof fn law_tick_keeps_valid(game: GameView, first: Seq<Piece>, second: Seq<Piece>)
    requires
        game.valid(),
        game.score + game.tick_gain() <= u32::MAX,
        is_bag(first),
        is_bag(second),
    ensures
        game.ticked(first, second).valid(),
{
    let after = game.ticked(first, second);
    if game.game_over {
    } else if game.clearing is Some {
        let anim = game.clearing->0;
        if anim.tick + 1 >= CLEAR_ANIM_TICKS_PER_FRAME && anim.frame + 1
            >= CLEAR_ANIM_FRAMES {
            law_finish_keeps_valid(game, first, second);
        } else {
            assert(after.full_rows() == game.full_rows());
        }
    } else if game.gravity_due() {
        let due = GameView { gravity_accum: 0, ..game };
        assert(due.full_rows() == game.full_rows());
        assert(due.hits(due.rotation, due.px, due.py) == game.hits(
            game.rotation,
            game.px,
            game.py,
        ));
        assert(due.valid());
        assert(due.landed() == game.landed());
        if due.landed() {
            assert(due.stamped().grid == game.stamped().grid);
            law_lock_keeps_valid(due, first, second);
        } else {
            lemma_free_position(due.grid, due.piece, due.rotation, due.px, due.py + 1);
            assert(after.full_rows() == game.full_rows());
            assert(!after.hits(after.rotation, after.px, after.py));
        }
    } else {
        assert(after.full_rows() == game.full_rows());
        assert(!after.hits(after.rotation, after.px, after.py));
    }
}

} // verus!
