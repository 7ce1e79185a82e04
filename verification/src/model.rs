//! The game as a state machine over plain mathematical values.
use crate::bag::{is_bag, topped_up};
use crate::board::{
    blank_grid, collapsed, collides, full_rows_of, is_grid, stamped, Grid, BOARD_W,
};
use crate::layout::{Layout, MAX_BOARD_H, MIN_BOARD_H};
use crate::piece::Piece;
use vstd::prelude::*;

verus! {

/// Ticks from one gravity step to the next.
pub const GRAVITY_TICKS: u32 = 60;

/// Ticks that each phase of the clear flash lasts.
pub const CLEAR_ANIM_TICKS_PER_FRAME: u8 = 8;

/// Phases of the clear flash, on and off by turns.
pub const CLEAR_ANIM_FRAMES: u8 = 4;

/// Column at which the bounding box of a new piece starts.
pub const SPAWN_COLUMN: i32 = 4;

/// The most points that a lock brings.
pub const MOST_POINTS: u32 = 800;

/// A clear flash: the rows that flash, the phase, and the ticks within the phase.
#[verifier::ext_equal]
pub struct ClearView {
    pub rows: Seq<int>,
    pub frame: int,
    pub tick: int,
}

/// The state of a game.
#[verifier::ext_equal]
pub struct GameView {
    /// The locked cells.
    pub grid: Grid,
    /// The falling piece.
    pub piece: Piece,
    /// Quarter turns that the falling piece has made.
    pub rotation: nat,
    /// Column of the left edge of the falling piece's bounding box.
    pub px: int,
    /// Row of the top edge of the falling piece's bounding box.
    pub py: int,
    /// The pieces to come.
    pub queue: Seq<Piece>,
    /// The piece that the preview shows.
    pub next_piece: Piece,
    pub score: int,
    /// The clear flash, while one plays.
    pub clearing: Option<ClearView>,
    /// Ticks since the last gravity step.
    pub gravity_accum: int,
    pub game_over: bool,
    /// Where the board is drawn.
    pub layout: Layout,
}

/// Points for clearing a number of rows at once.
pub open spec fn points(rows: int) -> int {
    if rows == 1 {
        100
    } else if rows == 2 {
        300
    } else if rows == 3 {
        500
    } else if rows == 4 {
        800
    } else {
        0
    }
}

/// A game on an empty board, before its first piece enters.
pub open spec fn blank_game(layout: Layout, queue: Seq<Piece>) -> GameView {
    GameView {
        grid: blank_grid(layout.board_h as nat),
        piece: Piece::O,
        rotation: 0,
        px: 0,
        py: 0,
        queue,
        next_piece: Piece::O,
        score: 0,
        clearing: None,
        gravity_accum: 0,
        game_over: false,
        layout,
    }
}

impl GameView {
    /// Whether a piece is falling: the game is not over and no flash plays.
    pub open spec fn in_play(self) -> bool {
        !self.game_over && self.clearing is None
    }

    /// Whether the falling piece would collide after `turns` quarter turns at `px`, `py`.
    pub open spec fn hits(self, turns: nat, px: int, py: int) -> bool {
        collides(self.grid, self.piece, turns, px, py)
    }

    /// Whether the falling piece rests on something.
    pub open spec fn landed(self) -> bool {
        self.hits(self.rotation, self.px, self.py + 1)
    }

    /// The full rows of the board.
    pub open spec fn full_rows(self) -> Seq<int> {
        full_rows_of(self.grid, self.grid.len())
    }

    /// What every state of a game keeps to once its first piece has entered.
    pub open spec fn valid(self) -> bool {
        &&& MIN_BOARD_H <= self.grid.len() <= MAX_BOARD_H
        &&& is_grid(self.grid)
        &&& self.layout.board_h == self.grid.len()
        &&& self.layout.fits_some_screen()
        &&& self.rotation < 4
        &&& -3 <= self.px < BOARD_W
        &&& 0 <= self.py < self.grid.len()
        &&& self.queue.len() >= 2
        &&& self.next_piece == self.queue[0]
        &&& 0 <= self.score <= u32::MAX
        &&& 0 <= self.gravity_accum < GRAVITY_TICKS
        &&& self.game_over ==> self.clearing is None
        &&& self.in_play() ==> !self.hits(self.rotation, self.px, self.py)
        &&& match self.clearing {
            None => self.full_rows().len() == 0,
            Some(anim) => {
                &&& anim.rows == self.full_rows()
                &&& 1 <= anim.rows.len() <= 4
                &&& 0 <= anim.frame < CLEAR_ANIM_FRAMES
                &&& 0 <= anim.tick < CLEAR_ANIM_TICKS_PER_FRAME
            },
        }
    }

    /// After a step of `dx` columns to the side, if nothing is in the way.
    pub open spec fn shifted(self, dx: int) -> GameView {
        if self.in_play() && !self.hits(self.rotation, self.px + dx, self.py) {
            GameView { px: self.px + dx, ..self }
        } else {
            self
        }
    }

    /// The rotation state that follows the present one clockwise.
    pub open spec fn next_rotation(self) -> nat {
        (self.rotation + 1) % 4
    }

    /// Whether the piece fits after a quarter turn clockwise and a nudge of `kick` columns.
    pub open spec fn can_turn(self, kick: int) -> bool {
        !self.hits(self.next_rotation(), self.px + kick, self.py)
    }

    /// After a quarter turn clockwise and a nudge of `kick` columns.
    pub open spec fn turned(self, kick: int) -> GameView {
        GameView { px: self.px + kick, rotation: self.next_rotation(), ..self }
    }

    /// After a quarter turn clockwise: in place if that fits, else with the first nudge
    /// that fits among one to the left, one to the right, two to the left, two to the right.
    pub open spec fn rotated(self) -> GameView {
        if !self.in_play() || self.piece == Piece::O {
            self
        } else if self.can_turn(0) {
            self.turned(0)
        } else if self.can_turn(-1) {
            self.turned(-1)
        } else if self.can_turn(1) {
            self.turned(1)
        } else if self.can_turn(-2) {
            self.turned(-2)
        } else if self.can_turn(2) {
            self.turned(2)
        } else {
            self
        }
    }

    /// The row that the falling piece reaches from row `y` when it falls freely.
    pub open spec fn landing(self, y: int) -> int
        decreases self.grid.len() - y,
    {
        if y >= self.grid.len() || self.hits(self.rotation, self.px, y + 1) {
            y
        } else {
            self.landing(y + 1)
        }
    }

    /// The falling piece `rows` rows further down.
    pub open spec fn lowered(self, rows: int) -> GameView {
        GameView { py: self.py + rows, ..self }
    }

    /// The falling piece where it lands.
    pub open spec fn at_landing(self) -> GameView {
        GameView { py: self.landing(self.py), ..self }
    }

    /// After `self.piece` has entered at the top: the preview shows the head of the queue,
    /// and the game is over if the piece collides at once.
    pub open spec fn entered(self) -> GameView {
        GameView {
            next_piece: self.queue[0],
            rotation: 0,
            px: SPAWN_COLUMN as int,
            py: 0,
            gravity_accum: 0,
            game_over: self.game_over || self.hits(0, SPAWN_COLUMN as int, 0),
            ..self
        }
    }

    /// After the next piece has left the queue and entered. The queue is topped up before
    /// that from `first` and after that from `second`, if it is short.
    pub open spec fn spawned(self, first: Seq<Piece>, second: Seq<Piece>) -> GameView {
        let queue = topped_up(self.queue, first);
        GameView {
            piece: queue[0],
            queue: topped_up(queue.skip(1), second),
            ..self
        }.entered()
    }

    /// The board with the falling piece written into it.
    pub open spec fn stamped(self) -> GameView {
        GameView {
            grid: stamped(self.grid, self.piece, self.rotation, self.px, self.py),
            ..self
        }
    }

    /// The points that locking the falling piece where it is brings.
    pub open spec fn lock_gain(self) -> int {
        points(self.stamped().full_rows().len() as int)
    }

    /// After the falling piece has locked where it is: if that fills rows, they score and
    /// begin to flash; else the next piece enters.
    pub open spec fn locked(self, first: Seq<Piece>, second: Seq<Piece>) -> GameView {
        let rows = self.stamped().full_rows();
        if rows.len() == 0 {
            self.stamped().spawned(first, second)
        } else {
            GameView {
                score: self.score + self.lock_gain(),
                clearing: Some(ClearView { rows, frame: 0, tick: 0 }),
                ..self.stamped()
            }
        }
    }

    /// After the flashing rows, if any, are gone and the next piece has entered.
    pub open spec fn finished(self, first: Seq<Piece>, second: Seq<Piece>) -> GameView {
        match self.clearing {
            Some(anim) => GameView {
                grid: collapsed(self.grid, anim.rows),
                clearing: None,
                ..self
            }.spawned(first, second),
            None => self.spawned(first, second),
        }
    }

    /// The points that a hard drop brings.
    pub open spec fn drop_gain(self) -> int {
        if self.in_play() {
            self.at_landing().lock_gain()
        } else {
            0
        }
    }

    /// After a hard drop.
    pub open spec fn dropped(self, first: Seq<Piece>, second: Seq<Piece>) -> GameView {
        if self.in_play() {
            self.at_landing().locked(first, second)
        } else {
            self
        }
    }

    /// Whether the next tick is one at which gravity acts.
    pub open spec fn gravity_due(self) -> bool {
        self.in_play() && self.gravity_accum + 1 >= GRAVITY_TICKS
    }

    /// The points that a tick brings.
    pub open spec fn tick_gain(self) -> int {
        if self.gravity_due() && self.landed() {
            self.lock_gain()
        } else {
            0
        }
    }

    /// Whether a tick moves, locks or flashes anything.
    pub open spec fn tick_shows(self) -> bool {
        if self.game_over {
            false
        } else {
            match self.clearing {
                Some(anim) => anim.tick + 1 >= CLEAR_ANIM_TICKS_PER_FRAME,
                None => self.gravity_accum + 1 >= GRAVITY_TICKS,
            }
        }
    }

    /// After a tick of the clear flash `anim`.
    pub open spec fn flashed(
        self,
        anim: ClearView,
        first: Seq<Piece>,
        second: Seq<Piece>,
    ) -> GameView {
        if anim.tick + 1 < CLEAR_ANIM_TICKS_PER_FRAME {
            GameView {
                clearing: Some(ClearView { tick: anim.tick + 1, ..anim }),
                ..self
            }
        } else if anim.frame + 1 < CLEAR_ANIM_FRAMES {
            GameView {
                clearing: Some(ClearView { tick: 0, frame: anim.frame + 1, ..anim }),
                ..self
            }
        } else {
            self.finished(first, second)
        }
    }

    /// After a tick: a flash advances, or else gravity does, which at its last tick lowers
    /// the falling piece by a row or locks it.
    pub open spec fn ticked(self, first: Seq<Piece>, second: Seq<Piece>) -> GameView {
        if self.game_over {
            self
        } else {
            match self.clearing {
                Some(anim) => self.flashed(anim, first, second),
                None => {
                    if !self.gravity_due() {
                        GameView { gravity_accum: self.gravity_accum + 1, ..self }
                    } else {
                        let due = GameView { gravity_accum: 0, ..self };
                        if due.landed() {
                            due.locked(first, second)
                        } else {
                            due.lowered(1)
                        }
                    }
                },
            }
        }
    }
}

/// Whether a spawn with some two bags leads from `before` to `after`.
pub open spec fn spawn_leads(before: GameView, after: GameView) -> bool {
    exists|first: Seq<Piece>, second: Seq<Piece>| #[trigger]
        is_bag(first) && #[trigger] is_bag(second) && after == before.spawned(first, second)
}

/// Whether locking the falling piece leads from `before` to `after`, with some two bags.
pub open spec fn lock_leads(before: GameView, after: GameView) -> bool {
    exists|first: Seq<Piece>, second: Seq<Piece>| #[trigger]
        is_bag(first) && #[trigger] is_bag(second) && after == before.locked(first, second)
}

/// Whether the end of a flash leads from `before` to `after`, with some two bags.
pub open spec fn finish_leads(before: GameView, after: GameView) -> bool {
    exists|first: Seq<Piece>, second: Seq<Piece>| #[trigger]
        is_bag(first) && #[trigger] is_bag(second) && after == before.finished(first, second)
}

/// Whether a hard drop leads from `before` to `after`, with some two bags.
pub open spec fn drop_leads(before: GameView, after: GameView) -> bool {
    exists|first: Seq<Piece>, second: Seq<Piece>| #[trigger]
        is_bag(first) && #[trigger] is_bag(second) && after == before.dropped(first, second)
}

/// Whether a tick leads from `before` to `after`, with some two bags.
pub open spec fn tick_leads(before: GameView, after: GameView) -> bool {
    exists|first: Seq<Piece>, second: Seq<Piece>| #[trigger]
        is_bag(first) && #[trigger] is_bag(second) && after == before.ticked(first, second)
}

} // verus!
