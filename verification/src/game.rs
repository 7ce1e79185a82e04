//! The game itself.
use crate::bag::{ensure_queue, is_bag, topped_up};
use crate::board::{
    blank_board, collapse, collapsed, collides_shape, copy_board, full_rows, grid_of,
    lemma_cells_of_shape, lemma_stamped_rows, row_numbers, stamp_piece, BOARD_W,
};
use crate::counts::{filled_cells, law_clear_removes_ten};
use crate::layout::{layout_for, lemma_sizes, screen_in_range, Layout, Point};
use crate::model::{
    blank_game, drop_leads, finish_leads, lock_leads, points, spawn_leads, tick_leads, ClearView,
    GameView, CLEAR_ANIM_FRAMES, CLEAR_ANIM_TICKS_PER_FRAME, GRAVITY_TICKS,
};
use crate::piece::{cells_for, lemma_shape_in_box, lists_shape, Piece, ALL_PIECES};
use crate::validity::{
    law_fall_keeps_valid, law_finish_keeps_valid, law_first_piece_fits, law_landing,
    law_lock_keeps_valid, law_rotate_keeps_valid, law_shift_keeps_valid, law_tick_keeps_valid,
};
use std::collections::VecDeque;
use vstd::prelude::*;

mod draw;

verus! {

/// A clear flash in progress. While there is one, gravity and the player's input both
/// pause: no piece is falling.
struct ClearAnim {
    rows: Vec<usize>,
    frame: u8,
    tick: u8,
}

impl View for ClearAnim {
    type V = ClearView;

    closed spec fn view(&self) -> ClearView {
        ClearView {
            rows: row_numbers(self.rows@),
            frame: self.frame as int,
            tick: self.tick as int,
        }
    }
}

/// A game in progress.
pub struct TetrisGame {
    board: Vec<[bool; BOARD_W]>,
    piece: Piece,
    rotation: u8,
    px: i32,
    py: i32,
    queue: VecDeque<Piece>,
    next_piece: Piece,
    score: u32,
    clearing: Option<ClearAnim>,
    gravity_accum: u32,
    game_over: bool,
    layout: Layout,
}

impl View for TetrisGame {
    type V = GameView;

    closed spec fn view(&self) -> GameView {
        GameView {
            grid: grid_of(self.board@),
            piece: self.piece,
            rotation: self.rotation as nat,
            px: self.px as int,
            py: self.py as int,
            queue: self.queue@,
            next_piece: self.next_piece,
            score: self.score as int,
            clearing: match self.clearing {
                Some(anim) => Some(anim@),
                None => None,
            },
            gravity_accum: self.gravity_accum as int,
            game_over: self.game_over,
            layout: self.layout,
        }
    }
}

impl TetrisGame {
    /// A game is well formed when its state is valid.
    pub open spec fn wf(&self) -> bool {
        self@.valid()
    }

    /// A new game on a screen of the given size.
    pub fn new(screen: Point) -> (game: TetrisGame)
        requires
            screen_in_range(screen),
        ensures
            game.wf(),
            game@.in_play(),
            game@.layout.fits(screen),
            spawn_leads(blank_game(game@.layout, Seq::empty()), game@),
    {
        TetrisGame::with_queue(screen, VecDeque::new())
    }

    /// A new game on a screen of the given size in which the pieces of `queue` come first.
    pub fn with_queue(screen: Point, queue: VecDeque<Piece>) -> (game: TetrisGame)
        requires
            screen_in_range(screen),
        ensures
            game.wf(),
            game@.in_play(),
            game@.layout.fits(screen),
            spawn_leads(blank_game(game@.layout, queue@), game@),
    {
        let layout = layout_for(screen);
        let mut game = TetrisGame {
            board: blank_board(layout.board_h),
            piece: Piece::O,
            rotation: 0,
            px: 0,
            py: 0,
            queue,
            next_piece: Piece::O,
            score: 0,
            clearing: None,
            gravity_accum: 0,
            game_over: false,
            layout,
        };
        proof {
            lemma_sizes(screen);
            assert(game@ =~= blank_game(layout, queue@));
            assert(game@.grid.len() == game.board@.len());
        }
        game.spawn();
        proof {
            let (first, second): (Seq<Piece>, Seq<Piece>) = choose|
                first: Seq<Piece>,
                second: Seq<Piece>,
            |
                #[trigger] is_bag(first) && #[trigger] is_bag(second) && game@ == blank_game(
                    layout,
                    queue@,
                ).spawned(first, second);
            law_first_piece_fits(layout, queue@, first, second, screen);
        }
        game
    }

    /// Whether the game is over.
    pub fn is_over(&self) -> (over: bool)
        ensures
            over == self@.game_over,
    {
        self.game_over
    }

    /// The score.
    pub fn score(&self) -> (score: u32)
        ensures
            score == self@.score,
    {
        self.score
    }

    /// The offsets that the falling piece covers.
    fn cells(&self) -> (cells: [(i32, i32); 4])
        requires
            self.rotation < 4,
        ensures
            lists_shape(cells@, self@.piece, self@.rotation),
    {
        cells_for(self.piece, self.rotation)
    }

    /// Whether the falling piece would collide at `px`, `py`.
    fn collides(&self, px: i32, py: i32) -> (hit: bool)
        requires
            self.rotation < 4,
            self.board@.len() <= i32::MAX,
            i32::MIN <= px <= i32::MAX - 3,
            i32::MIN <= py <= i32::MAX - 3,
        ensures
            hit == self@.hits(self@.rotation, px as int, py as int),
    {
        self.collides_turned(px, py, self.rotation)
    }

    /// Whether the falling piece would collide at `px`, `py` in the rotation state
    /// `rotation`.
    fn collides_turned(&self, px: i32, py: i32, rotation: u8) -> (hit: bool)
        requires
            rotation < 4,
            self.board@.len() <= i32::MAX,
            i32::MIN <= px <= i32::MAX - 3,
            i32::MIN <= py <= i32::MAX - 3,
        ensures
            hit == self@.hits(rotation as nat, px as int, py as int),
    {
        let cells = cells_for(self.piece, rotation);
        proof {
            lemma_shape_in_box(self.piece, rotation as nat);
            lemma_cells_of_shape(
                grid_of(self.board@),
                self.piece,
                rotation as nat,
                px as int,
                py as int,
                cells@,
            );
        }
        collides_shape(&self.board, px, py, cells)
    }

    /// Turns the falling piece 90 degrees clockwise, nudged to the left or to the right if
    /// it does not fit in place. Nothing happens if no nudge helps, for the square, while
    /// a clear flash plays, and when the game is over.
    pub fn rotate(&mut self)
        requires
            old(self).wf(),
        ensures
            final(self).wf(),
            final(self)@ == old(self)@.rotated(),
    {
        proof {
            law_rotate_keeps_valid(self@);
            assert(self@.grid.len() == self.board@.len());
        }
        if self.game_over || self.clearing.is_some() || self.piece == Piece::O {
            return ;
        }
        let new_rotation: u8 = (self.rotation + 1) % 4;
        let kicks: [i32; 5] = [0, -1, 1, -2, 2];
        let mut i: usize = 0;
        while i < 5
            invariant
                i <= 5,
                *self == *old(self),
                self@.valid(),
                self@.grid.len() == self.board@.len(),
                self@.in_play(),
                self.piece != Piece::O,
                new_rotation == self@.next_rotation(),
                kicks@[0] == 0 && kicks@[1] == -1 && kicks@[2] == 1 && kicks@[3] == -2 && kicks@[4] == 2,
                self@.rotated().valid(),
                forall|k: int| 0 <= k < i ==> !self@.can_turn(#[trigger] kicks@[k] as int),
            decreases 5 - i,
        {
            let kick: i32 = kicks[i];
            assert(-2 <= kicks@[i as int] <= 2);
            if !self.collides_turned(self.px + kick, self.py, new_rotation) {
                proof {
                    assert(self@.can_turn(kick as int));
                    assert(i > 0 ==> !self@.can_turn(kicks@[0] as int));
                    assert(i > 1 ==> !self@.can_turn(kicks@[1] as int));
                    assert(i > 2 ==> !self@.can_turn(kicks@[2] as int));
                    assert(i > 3 ==> !self@.can_turn(kicks@[3] as int));
                }
                self.px = self.px + kick;
                self.rotation = new_rotation;
                assert(self@ =~= old(self)@.turned(kick as int));
                return ;
            }
            i = i + 1;
        }
        proof {
            assert(!self@.can_turn(kicks@[0] as int));
            assert(!self@.can_turn(kicks@[1] as int));
            assert(!self@.can_turn(kicks@[2] as int));
            assert(!self@.can_turn(kicks@[3] as int));
            assert(!self@.can_turn(kicks@[4] as int));
        }
    }

    /// Points for clearing a number of rows at once.
    pub fn score_for(lines_cleared: u32) -> (gained: u32)
        ensures
            gained == points(lines_cleared as int),
    {
        match lines_cleared {
            1 => 100,
            2 => 300,
            3 => 500,
            4 => 800,
            _ => 0,
        }
    }

    /// Puts `self.piece` at the top of the board, with the head of the queue as the preview.
    /// The game is over if there is no room.
    fn enter(&mut self)
        requires
            old(self)@.queue.len() >= 1,
            old(self)@.grid.len() <= i32::MAX,
        ensures
            final(self)@ == old(self)@.entered(),
    {
        assert(self@.grid.len() == self.board@.len());
        self.next_piece = self.queue[0];
        self.rotation = 0;
        self.px = BOARD_W as i32 / 2 - 1;
        self.py = 0;
        self.gravity_accum = 0;
        if self.collides(self.px, self.py) {
            self.game_over = true;
        }
        assert(self@ =~= old(self)@.entered());
    }

    /// Takes the next piece from the queue and puts it at the top of the board.
    fn spawn(&mut self)
        requires
            old(self)@.grid.len() <= i32::MAX,
        ensures
            spawn_leads(old(self)@, final(self)@),
    {
        let ghost start = self@;
        ensure_queue(&mut self.queue);
        let ghost first = choose|bag: Seq<Piece>| #[trigger]
            is_bag(bag) && self.queue@ == topped_up(start.queue, bag);
        if let Some(piece) = self.queue.pop_front() {
            self.piece = piece;
        }
        let ghost rest = self.queue@;
        ensure_queue(&mut self.queue);
        let ghost second = choose|bag: Seq<Piece>| #[trigger]
            is_bag(bag) && self.queue@ == topped_up(rest, bag);
        proof {
            let queue = topped_up(start.queue, first);
            assert(rest =~= queue.skip(1));
            assert(self@ =~= GameView {
                piece: queue[0],
                queue: topped_up(queue.skip(1), second),
                ..start
            });
        }
        self.enter();
        assert(self@ == start.spawned(first, second));
    }

    /// Writes the falling piece into the board. If that fills rows, they score and begin to
    /// flash; else the next piece enters.
    fn lock(&mut self)
        requires
            old(self).wf(),
            old(self)@.in_play(),
            old(self)@.score + old(self)@.lock_gain() <= u32::MAX,
        ensures
            final(self).wf(),
            lock_leads(old(self)@, final(self)@),
    {
        let ghost start = self@;
        assert(self@.grid.len() == self.board@.len());
        stamp_piece(&mut self.board, self.piece, self.rotation, self.px, self.py);
        assert(self@ =~= start.stamped());
        let rows = full_rows(&self.board);
        if rows.len() == 0 {
            self.spawn();
            proof {
                let (first, second): (Seq<Piece>, Seq<Piece>) = choose|
                    first: Seq<Piece>,
                    second: Seq<Piece>,
                |
                    #[trigger] is_bag(first) && #[trigger] is_bag(second) && self@
                        == start.stamped().spawned(first, second);
                assert(self@ == start.locked(first, second));
                law_lock_keeps_valid(start, first, second);
            }
        } else {
            proof {
                let bag = lemma_some_bag();
                law_lock_keeps_valid(start, bag, bag);
                assert(start.locked(bag, bag).valid());
            }
            self.score = self.score + Self::score_for(rows.len() as u32);
            self.clearing = Some(ClearAnim { rows, frame: 0, tick: 0 });
            proof {
                let bag = lemma_some_bag();
                assert(self@ =~= start.locked(bag, bag));
            }
        }
    }

    /// Removes the rows that flashed, in whatever phase the flash is, and takes the next piece.
    fn finish_clear(&mut self)
        requires
            old(self)@.grid.len() <= i32::MAX,
        ensures
            finish_leads(old(self)@, final(self)@),
            final(self)@.clearing is None,
            final(self)@.score == old(self)@.score,
            old(self)@.queue.len() >= 1 ==> final(self)@.piece == old(self)@.queue[0],
            old(self)@.awaits_finish() ==> final(self).wf() && final(self)@.full_rows().len() == 0
                && filled_cells(final(self)@.grid) == filled_cells(old(self)@.grid) - 10
                * old(self)@.full_rows().len(),
    {
        let ghost start = self@;
        if let Some(anim) = self.clearing.take() {
            self.board = collapse(&self.board, &anim.rows);
            assert(self@ =~= GameView {
                grid: collapsed(start.grid, start.clearing->0.rows),
                clearing: None,
                ..start
            });
        }
        assert(self@.grid.len() == self.board@.len());
        let ghost cleared = self@;
        self.spawn();
        proof {
            let (first, second): (Seq<Piece>, Seq<Piece>) = choose|
                first: Seq<Piece>,
                second: Seq<Piece>,
            |
                #[trigger] is_bag(first) && #[trigger] is_bag(second) && self@ == cleared.spawned(
                    first,
                    second,
                );
            assert(self@ == start.finished(first, second));
            if start.awaits_finish() {
                law_finish_keeps_valid(start, first, second);
                law_clear_removes_ten(start.grid);
            }
        }
    }

    /// Moves the falling piece a column to the left, if nothing is in the way.
    pub fn move_left(&mut self)
        requires
            old(self).wf(),
        ensures
            final(self).wf(),
            final(self)@ == old(self)@.shifted(-1),
    {
        proof {
            law_shift_keeps_valid(self@, -1);
            assert(self@.grid.len() == self.board@.len());
        }
        if !self.game_over && self.clearing.is_none() && !self.collides(self.px - 1, self.py) {
            self.px = self.px - 1;
        }
        assert(self@ =~= old(self)@.shifted(-1));
    }

    /// Moves the falling piece a column to the right, if nothing is in the way.
    pub fn move_right(&mut self)
        requires
            old(self).wf(),
        ensures
            final(self).wf(),
            final(self)@ == old(self)@.shifted(1),
    {
        proof {
            law_shift_keeps_valid(self@, 1);
            assert(self@.grid.len() == self.board@.len());
        }
        if !self.game_over && self.clearing.is_none() && !self.collides(self.px + 1, self.py) {
            self.px = self.px + 1;
        }
        assert(self@ =~= old(self)@.shifted(1));
    }

    /// The row that the falling piece reaches when it falls freely.
    fn landing_row(&self) -> (row: i32)
        requires
            self.wf(),
            self@.in_play(),
        ensures
            row == self@.landing(self@.py),
    {
        proof {
            law_landing(self@, self@.py);
            assert(self@.grid.len() == self.board@.len());
        }
        let mut row: i32 = self.py;
        while !self.collides(self.px, row + 1)
            invariant
                self@.valid(),
                self@.in_play(),
                self@.grid.len() == self.board@.len(),
                self@.landing(self@.py) < self@.grid.len(),
                self@.hits(self@.rotation, self@.px, self@.landing(self@.py) + 1),
                forall|y: int|
                    self@.py <= y <= self@.landing(self@.py) ==> !#[trigger] self@.hits(
                        self@.rotation,
                        self@.px,
                        y,
                    ),
                self@.py <= row <= self@.landing(self@.py),
                self@.landing(row as int) == self@.landing(self@.py),
            decreases self@.grid.len() - row,
        {
            row = row + 1;
        }
        row
    }

    /// The points that locking the falling piece in row `py` would bring.
    fn lock_gain_at(&self, py: i32) -> (gain: u32)
        requires
            self.wf(),
            self@.in_play(),
            0 <= py < self@.grid.len(),
            !self@.hits(self@.rotation, self@.px, py as int),
        ensures
            gain == (GameView { py: py as int, ..self@ }).lock_gain(),
    {
        assert(self@.grid.len() == self.board@.len());
        let mut board = copy_board(&self.board);
        stamp_piece(&mut board, self.piece, self.rotation, self.px, py);
        let rows = full_rows(&board);
        proof {
            lemma_stamped_rows(self@.grid, self@.piece, self@.rotation, self@.px, py as int);
            assert(rows@.len() == row_numbers(rows@).len());
        }
        Self::score_for(rows.len() as u32)
    }

    /// The points that a hard drop would bring now.
    pub fn drop_gain(&self) -> (gain: u32)
        requires
            self.wf(),
        ensures
            gain == self@.drop_gain(),
    {
        if self.game_over || self.clearing.is_some() {
            return 0;
        }
        proof {
            law_landing(self@, self@.py);
        }
        let row: i32 = self.landing_row();
        assert(!self@.hits(self@.rotation, self@.px, row as int));
        self.lock_gain_at(row)
    }

    /// The points that a tick would bring now.
    pub fn tick_gain(&self) -> (gain: u32)
        requires
            self.wf(),
        ensures
            gain == self@.tick_gain(),
    {
        assert(self@.grid.len() == self.board@.len());
        if self.game_over || self.clearing.is_some() || self.gravity_accum + 1 < GRAVITY_TICKS
            || !self.collides(self.px, self.py + 1) {
            return 0;
        }
        assert(self@ =~= GameView { py: self.py as int, ..self@ });
        self.lock_gain_at(self.py)
    }

    /// Drops the falling piece straight down to where it lands, and locks it there.
    pub fn hard_drop(&mut self)
        requires
            old(self).wf(),
            old(self)@.score + old(self)@.drop_gain() <= u32::MAX,
        ensures
            final(self).wf(),
            drop_leads(old(self)@, final(self)@),
    {
        let ghost start = self@;
        if self.game_over || self.clearing.is_some() {
            proof {
                let bag = lemma_some_bag();
                assert(self@ == start.dropped(bag, bag));
            }
            return ;
        }
        proof {
            law_fall_keeps_valid(start);
        }
        self.py = self.landing_row();
        assert(self@ =~= start.at_landing());
        self.lock();
        proof {
            let (first, second): (Seq<Piece>, Seq<Piece>) = choose|
                first: Seq<Piece>,
                second: Seq<Piece>,
            |
                #[trigger] is_bag(first) && #[trigger] is_bag(second) && self@
                    == start.at_landing().locked(first, second);
            assert(self@ == start.dropped(first, second));
        }
    }

    /// Counts a tick. On most ticks nothing else happens; the result says whether this was
    /// one that moved, locked or flashed something.
    pub fn gravity_tick(&mut self) -> (shows: bool)
        requires
            old(self).wf(),
            old(self)@.score + old(self)@.tick_gain() <= u32::MAX,
        ensures
            final(self).wf(),
            tick_leads(old(self)@, final(self)@),
            shows == old(self)@.tick_shows(),
    {
        let ghost start = self@;
        let ghost bag = lemma_some_bag();
        proof {
            law_tick_keeps_valid(start, bag, bag);
        }
        if self.game_over {
            assert(self@ == start.ticked(bag, bag));
            return false;
        }
        if let Some(anim) = &mut self.clearing {
            anim.tick = anim.tick + 1;
            if anim.tick < CLEAR_ANIM_TICKS_PER_FRAME {
                assert(self@ =~= start.ticked(bag, bag));
                return false;
            }
            anim.tick = 0;
            anim.frame = anim.frame + 1;
            if anim.frame >= CLEAR_ANIM_FRAMES {
                let ghost counted = self@;
                proof {
                    assert(counted.full_rows() == start.full_rows());
                    assert(counted.awaits_finish());
                }
                self.finish_clear();
                proof {
                    let (first, second): (Seq<Piece>, Seq<Piece>) = choose|
                        first: Seq<Piece>,
                        second: Seq<Piece>,
                    |
                        #[trigger] is_bag(first) && #[trigger] is_bag(second) && self@
                            == counted.finished(first, second);
                    assert(counted.finished(first, second) == start.finished(first, second));
                    assert(self@ == start.ticked(first, second));
                }
            } else {
                assert(self@ =~= start.ticked(bag, bag));
            }
            return true;
        }
        self.gravity_accum = self.gravity_accum + 1;
        if self.gravity_accum < GRAVITY_TICKS {
            assert(self@ =~= start.ticked(bag, bag));
            return false;
        }
        self.gravity_accum = 0;
        let ghost due = GameView { gravity_accum: 0, ..start };
        assert(self@ =~= due);
        assert(self@.grid.len() == self.board@.len());
        if !self.collides(self.px, self.py + 1) {
            self.py = self.py + 1;
            assert(self@ =~= start.ticked(bag, bag));
        } else {
            assert(due.stamped().grid == start.stamped().grid);
            self.lock();
            proof {
                let (first, second): (Seq<Piece>, Seq<Piece>) = choose|
                    first: Seq<Piece>,
                    second: Seq<Piece>,
                |
                    #[trigger] is_bag(first) && #[trigger] is_bag(second) && self@ == due.locked(
                        first,
                        second,
                    );
                assert(self@ == start.ticked(first, second));
            }
        }
        true
    }
}

/// There is a bag.
proof fn lemma_some_bag() -> (bag: Seq<Piece>)
    ensures
        is_bag(bag),
{
    ALL_PIECES@
}

} // verus!
