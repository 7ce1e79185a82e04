//! Whole games: runs of states, each reached from the one before by an operation.
use crate::bag::is_bag;
use crate::board::collapsed;
use crate::model::{blank_game, drop_leads, spawn_leads, tick_leads, GameView, SPAWN_COLUMN};
use crate::piece::Piece;
use vstd::prelude::*;

verus! {

/// Whether one operation leads from `before` to `after`.
pub open spec fn is_step(before: GameView, after: GameView) -> bool {
    ||| after == before.shifted(-1)
    ||| after == before.shifted(1)
    ||| after == before.rotated()
    ||| drop_leads(before, after)
    ||| tick_leads(before, after)
}

/// Whether the states are those of a game from its start, one operation apart.
pub open spec fn is_game(states: Seq<GameView>) -> bool {
    &&& states.len() >= 1
    &&& spawn_leads(blank_game(states[0].layout, Seq::empty()), states[0])
    &&& forall|i: int|
        0 <= i < states.len() - 1 ==> #[trigger] is_step(states[i], states[i + 1])
}

/// The pieces that came in a run of states: the first one, and one more each time that the
/// queue moved.
pub open spec fn dealt(states: Seq<GameView>) -> Seq<Piece>
    decreases states.len(),
{
    if states.len() == 0 {
        Seq::empty()
    } else if states.len() == 1 {
        seq![states[0].piece]
    } else {
        let before = states.drop_last();
        if states.last().queue != before.last().queue {
            dealt(before).push(states.last().piece)
        } else {
            dealt(before)
        }
    }
}

/// The queue moves only when a piece is spawned: a step that moves it is a spawn from a state
/// that has the queue of the state before.
pub proof fn law_queue_moves_by_spawns(before: GameView, after: GameView) -> (awaiting: GameView)
    requires
        is_step(before, after),
        after.queue != before.queue,
    ensures
        awaiting.queue == before.queue,
        !awaiting.game_over,
        spawn_leads(awaiting, after),
{
    let (first, second): (Seq<Piece>, Seq<Piece>) = if drop_leads(before, after) {
        choose|first: Seq<Piece>, second: Seq<Piece>| #[trigger]
            is_bag(first) && #[trigger] is_bag(second) && after == before.dropped(first, second)
    } else {
        choose|first: Seq<Piece>, second: Seq<Piece>| #[trigger]
            is_bag(first) && #[trigger] is_bag(second) && after == before.ticked(first, second)
    };
    let awaiting = if drop_leads(before, after) {
        before.at_landing().stamped()
    } else if before.clearing is Some {
        GameView {
            grid: collapsed(before.grid, before.clearing->0.rows),
            clearing: None,
            ..before
        }
    } else {
        (GameView { gravity_accum: 0, ..before }).stamped()
    };
    assert(after == awaiting.spawned(first, second));
    awaiting
}

/// The piece that the preview shows is the one that comes next, and the new preview shows the
/// one behind it in the queue.
pub proof fn law_preview_comes_next(before: GameView, after: GameView)
    requires
        before.valid(),
        is_step(before, after),
        after.queue != before.queue,
    ensures
        after.piece == before.next_piece,
        after.next_piece == before.queue[1],
{
    let awaiting = law_queue_moves_by_spawns(before, after);
}

/// A piece comes in unturned, in the middle of the top row, and with a fresh gravity
/// countdown; the game is over exactly if there is no room for it.
pub proof fn law_pieces_enter_alike(before: GameView, after: GameView)
    requires
        is_step(before, after),
        after.queue != before.queue,
    ensures
        after.rotation == 0,
        after.px == SPAWN_COLUMN,
        after.py == 0,
        after.gravity_accum == 0,
        after.game_over == after.hits(0, SPAWN_COLUMN as int, 0),
{
    let awaiting = law_queue_moves_by_spawns(before, after);
}

/// The queue never holds fewer than two pieces nor more than eight.
pub proof fn law_queue_length(states: Seq<GameView>, n: int)
    requires
        is_game(states),
        0 <= n < states.len(),
    ensures
        2 <= states[n].queue.len() <= 8,
    decreases n,
{
    if n > 0 {
        law_queue_length(states, n - 1);
        assert(is_step(states[n - 1], states[n - 1 + 1]));
        if states[n].queue != states[n - 1].queue {
            let awaiting = law_queue_moves_by_spawns(states[n - 1], states[n]);
        }
    }
}

/// The board stays where it is on the screen for the whole game.
pub proof fn law_layout_stays(states: Seq<GameView>, n: int)
    requires
        is_game(states),
        0 <= n < states.len(),
    ensures
        states[n].layout == states[0].layout,
    decreases n,
{
    if n > 0 {
        law_layout_stays(states, n - 1);
        assert(is_step(states[n - 1], states[n - 1 + 1]));
    }
}

} // verus!
