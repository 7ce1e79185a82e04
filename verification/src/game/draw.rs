//! The picture of a game.
use super::TetrisGame;
use crate::board::{blocked, covers, grid_of, lists_row, BOARD_W};
use crate::layout::Point;
use crate::piece::{cells_for, in_shape, lemma_listing, lemma_shape_in_box, offsets, shape_cells};
use crate::scene::{
    board_frame, cell_rect, decimal, decimal_text, hud_in_range, hud_label, hud_text,
    lemma_cell_in_range, lemma_steps_push, outline_box, preview, preview_rect, steps,
    CommandView, DrawCommand,
};
use vstd::prelude::*;
use vstd::string::StringExecFns;

verus! {

impl TetrisGame {
    /// The steps that show the game on a screen of the given size.
    pub fn draw(&self, screen: Point) -> (commands: Vec<DrawCommand>)
        requires
            self.wf(),
            hud_in_range(screen),
        ensures
            steps(commands@) == self@.picture(screen),
    {
        let mut commands: Vec<DrawCommand> = Vec::new();
        commands.push(DrawCommand::Clear);
        commands.push(DrawCommand::Rounded(board_frame(&self.layout, screen)));
        assert(steps(commands@) =~= seq![
            CommandView::Clear,
            CommandView::Rounded(outline_box(self@.layout, screen)),
        ]);
        self.draw_cells(&mut commands);
        self.draw_falling(&mut commands);
        self.draw_hud(screen, &mut commands);
        let ghost before = commands@;
        commands.push(DrawCommand::Flush);
        proof {
            lemma_steps_push(before, DrawCommand::Flush);
            assert(steps(commands@) =~= self@.picture(screen));
        }
        commands
    }

    /// Adds the cells of the board.
    fn draw_cells(&self, commands: &mut Vec<DrawCommand>)
        requires
            self.wf(),
        ensures
            steps(final(commands)@) == steps(old(commands)@) + self@.grid_steps(self@.grid.len()),
    {
        let ghost start = steps(commands@);
        let flash_on = match &self.clearing {
            Some(anim) => anim.frame % 2 == 0,
            None => false,
        };
        let mut row: usize = 0;
        assert(start + self@.grid_steps(0) =~= start);
        while row < self.board.len()
            invariant
                row <= self.board@.len(),
                self@.valid(),
                self@.grid == grid_of(self.board@),
                self@.grid.len() == self.board@.len(),
                flash_on == self@.flash_on(),
                steps(commands@) == start + self@.grid_steps(row as nat),
            decreases self.board@.len() - row,
        {
            let is_clearing_row = match &self.clearing {
                Some(anim) => lists_row(&anim.rows, row),
                None => false,
            };
            assert(is_clearing_row == self@.row_flashes(row as int));
            let ghost above = steps(commands@);
            let mut col: usize = 0;
            assert(above + self@.row_steps(row as int, 0) =~= above);
            while col < BOARD_W
                invariant
                    col <= BOARD_W,
                    row < self.board@.len(),
                    self@.valid(),
                    self@.grid == grid_of(self.board@),
                    self@.grid.len() == self.board@.len(),
                    flash_on == self@.flash_on(),
                    is_clearing_row == self@.row_flashes(row as int),
                    steps(commands@) == above + self@.row_steps(row as int, col as nat),
                decreases BOARD_W - col,
            {
                let ghost before = commands@;
                proof {
                    lemma_cell_in_range(self@.layout, col as int, row as int);
                }
                if is_clearing_row {
                    let command = DrawCommand::Rounded(
                        cell_rect(&self.layout, col as i32, row as i32, flash_on),
                    );
                    proof {
                        lemma_steps_push(before, command);
                    }
                    commands.push(command);
                } else if self.board[row][col] {
                    let command = DrawCommand::Rounded(
                        cell_rect(&self.layout, col as i32, row as i32, false),
                    );
                    proof {
                        lemma_steps_push(before, command);
                    }
                    commands.push(command);
                }
                col = col + 1;
                assert(steps(commands@) =~= above + self@.row_steps(row as int, col as nat));
            }
            row = row + 1;
            assert(steps(commands@) =~= start + self@.grid_steps(row as nat));
        }
    }

    /// Adds the falling piece, if one is in play.
    fn draw_falling(&self, commands: &mut Vec<DrawCommand>)
        requires
            self.wf(),
        ensures
            steps(final(commands)@) == steps(old(commands)@) + self@.falling_steps(),
    {
        let ghost start = steps(commands@);
        if self.game_over || self.clearing.is_some() {
            assert(start + self@.falling_steps() =~= start);
            return ;
        }
        let cells = self.cells();
        let ghost shape = shape_cells(self@.piece, self@.rotation);
        proof {
            lemma_listing(cells@, self@.piece, self@.rotation);
            lemma_shape_in_box(self@.piece, self@.rotation);
            assert(start + self@.falling_steps().take(0) =~= start);
        }
        let mut i: usize = 0;
        while i < 4
            invariant
                i <= 4,
                self@.valid(),
                self@.in_play(),
                self@.px == self.px,
                self@.py == self.py,
                self@.layout == self.layout,
                shape == shape_cells(self@.piece, self@.rotation),
                shape == offsets(cells@),
                forall|k: int|
                    0 <= k < 4 ==> in_shape(
                        self@.piece,
                        self@.rotation,
                        (#[trigger] cells@[k]).0 as int,
                        cells@[k].1 as int,
                    ),
                forall|x: int, y: int| #[trigger]
                    in_shape(self@.piece, self@.rotation, x, y) ==> 0 <= x < 4 && 0 <= y < 4,
                steps(commands@) == start + self@.falling_steps().take(i as int),
            decreases 4 - i,
        {
            let (dx, dy) = cells[i];
            assert(cells@[i as int] == (dx, dy));
            assert(shape[i as int] == (dx as int, dy as int));
            let ghost before = commands@;
            proof {
                let x: int = self.px + dx;
                let y: int = self.py + dy;
                assert(covers(self@.piece, self@.rotation, self@.px, self@.py, x, y));
                assert(!blocked(self@.grid, x, y));
                lemma_cell_in_range(self@.layout, x, y);
            }
            let x: i32 = self.px + dx;
            let y: i32 = self.py + dy;
            if y >= 0 {
                let command = DrawCommand::Rounded(cell_rect(&self.layout, x, y, false));
                proof {
                    lemma_steps_push(before, command);
                }
                commands.push(command);
            }
            i = i + 1;
            assert(steps(commands@) =~= start + self@.falling_steps().take(i as int));
        }
        assert(self@.falling_steps().take(4) =~= self@.falling_steps());
    }

    /// Adds the score and the preview of the next piece.
    fn draw_hud(&self, screen: Point, commands: &mut Vec<DrawCommand>)
        requires
            self.wf(),
            hud_in_range(screen),
        ensures
            steps(final(commands)@) == steps(old(commands)@) + self@.hud_steps(screen),
    {
        let ghost start = steps(commands@);
        let title = hud_label(&self.layout, screen, 0, 12, String::from_str("Score"));
        commands.push(DrawCommand::Text(title));
        let score = hud_label(&self.layout, screen, 12, 24, decimal_text(self.score));
        commands.push(DrawCommand::Text(score));
        let next = hud_label(&self.layout, screen, 40, 52, String::from_str("Next"));
        commands.push(DrawCommand::Text(next));
        let ghost texts = seq![
            hud_text(self@.layout, screen, 0, 12, "Score"@),
            hud_text(self@.layout, screen, 12, 24, decimal(self@.score as nat)),
            hud_text(self@.layout, screen, 40, 52, "Next"@),
        ];
        assert(steps(commands@) =~= start + texts);
        let cells = cells_for(self.next_piece, 0);
        let ghost shape = shape_cells(self@.next_piece, 0);
        let ghost boxes = preview(screen, self@.next_piece);
        proof {
            lemma_listing(cells@, self@.next_piece, 0);
            lemma_shape_in_box(self@.next_piece, 0);
            assert(start + texts + boxes.take(0) =~= start + texts);
        }
        let mut i: usize = 0;
        while i < 4
            invariant
                i <= 4,
                hud_in_range(screen),
                shape == shape_cells(self@.next_piece, 0),
                shape == offsets(cells@),
                boxes == preview(screen, self@.next_piece),
                forall|k: int|
                    0 <= k < 4 ==> in_shape(
                        self@.next_piece,
                        0,
                        (#[trigger] cells@[k]).0 as int,
                        cells@[k].1 as int,
                    ),
                forall|x: int, y: int| #[trigger]
                    in_shape(self@.next_piece, 0, x, y) ==> 0 <= x < 4 && 0 <= y < 4,
                steps(commands@) == start + texts + boxes.take(i as int),
            decreases 4 - i,
        {
            let (dx, dy) = cells[i];
            assert(cells@[i as int] == (dx, dy));
            assert(shape[i as int] == (dx as int, dy as int));
            let ghost before = commands@;
            let command = DrawCommand::Rounded(preview_rect(screen, dx, dy));
            proof {
                lemma_steps_push(before, command);
                assert(boxes[i as int] == command@);
            }
            commands.push(command);
            i = i + 1;
            assert(steps(commands@) =~= start + texts + boxes.take(i as int));
        }
        proof {
            assert(boxes.take(4) =~= boxes);
            assert(steps(commands@) =~= start + self@.hud_steps(screen));
        }
    }
}

} // verus!
