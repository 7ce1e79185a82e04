//! What is drawn: boxes and texts, and the list of them that shows a game.
use crate::board::BOARD_W;
use crate::layout::{
    board_rows, cell_size, larger, lemma_sizes, screen_in_range, smaller, Layout, Point, FRAME_PAD,
    HUD_WIDTH, MIN_BOARD_H,
};
use crate::model::GameView;
use crate::piece::{shape_cells, Piece};
use vstd::prelude::*;
use vstd::string::StringExecFns;

verus! {

/// Side of a cell of the preview, in pixels.
pub const PREVIEW_CELL_PX: isize = 5;

/// Distance of the preview from the left edge of the set-aside column: four cells are
/// centred in it.
pub const PREVIEW_INDENT: isize = 7;

/// Top edge of the preview.
pub const PREVIEW_TOP: isize = 54;

/// A pixel's colour.
#[derive(Clone, Copy, Debug, PartialEq, Eq, Structural)]
pub enum PixelColor {
    Dark,
    Light,
}

/// How large a text is set.
#[derive(Clone, Copy, Debug, PartialEq, Eq, Structural)]
pub enum GlyphStyle {
    Small,
}

/// The colours of the border and of the inside of a box, and the width of the border.
#[derive(Clone, Copy, Debug, PartialEq, Eq, Structural)]
pub struct DrawStyle {
    pub border: PixelColor,
    pub fill: PixelColor,
    pub width: isize,
}

/// A rectangle from its top left to its bottom right pixel, both part of it.
#[derive(Clone, Copy, Debug, PartialEq, Eq, Structural)]
pub struct Rectangle {
    pub tl: Point,
    pub br: Point,
    pub style: DrawStyle,
}

/// A rectangle with rounded corners.
#[derive(Clone, Copy, Debug, PartialEq, Eq, Structural)]
pub struct RoundedRectangle {
    pub border: Rectangle,
    pub radius: isize,
}

/// A line of text, centred at the top of the area from `tl` to `br`.
#[derive(Debug)]
pub struct TextBlock {
    pub tl: Point,
    pub br: Point,
    pub style: GlyphStyle,
    pub draw_border: bool,
    pub clear_area: bool,
    pub text: String,
}

/// A step of drawing.
#[derive(Debug)]
pub enum DrawCommand {
    /// Clear the screen.
    Clear,
    /// Draw a rounded rectangle.
    Rounded(RoundedRectangle),
    /// Draw a text.
    Text(TextBlock),
    /// Show what was drawn.
    Flush,
}

/// A rounded rectangle by its edges.
pub struct BoxView {
    pub left: int,
    pub top: int,
    pub right: int,
    pub bottom: int,
    pub border: PixelColor,
    pub fill: PixelColor,
    pub width: int,
    pub radius: int,
}

/// A text by the edges of its area.
#[verifier::ext_equal]
pub struct TextView {
    pub left: int,
    pub top: int,
    pub right: int,
    pub bottom: int,
    pub style: GlyphStyle,
    pub draw_border: bool,
    pub clear_area: bool,
    pub text: Seq<char>,
}

/// A step of drawing.
#[verifier::ext_equal]
pub enum CommandView {
    Clear,
    Rounded(BoxView),
    Text(TextView),
    Flush,
}

impl View for RoundedRectangle {
    type V = BoxView;

    open spec fn view(&self) -> BoxView {
        BoxView {
            left: self.border.tl.x as int,
            top: self.border.tl.y as int,
            right: self.border.br.x as int,
            bottom: self.border.br.y as int,
            border: self.border.style.border,
            fill: self.border.style.fill,
            width: self.border.style.width as int,
            radius: self.radius as int,
        }
    }
}

impl View for TextBlock {
    type V = TextView;

    open spec fn view(&self) -> TextView {
        TextView {
            left: self.tl.x as int,
            top: self.tl.y as int,
            right: self.br.x as int,
            bottom: self.br.y as int,
            style: self.style,
            draw_border: self.draw_border,
            clear_area: self.clear_area,
            text: self.text@,
        }
    }
}

impl View for DrawCommand {
    type V = CommandView;

    open spec fn view(&self) -> CommandView {
        match self {
            DrawCommand::Clear => CommandView::Clear,
            DrawCommand::Rounded(rect) => CommandView::Rounded(rect@),
            DrawCommand::Text(text) => CommandView::Text(text@),
            DrawCommand::Flush => CommandView::Flush,
        }
    }
}

/// The steps that a list of commands takes.
pub open spec fn steps(commands: Seq<DrawCommand>) -> Seq<CommandView> {
    Seq::new(commands.len(), |i: int| commands[i]@)
}

/// Adding a command adds its step.
pub proof fn lemma_steps_push(commands: Seq<DrawCommand>, command: DrawCommand)
    ensures
        steps(commands.push(command)) == steps(commands).push(command@),
{
    assert(steps(commands.push(command)) =~= steps(commands).push(command@));
}

/// A square of side `side` with its top left corner at `left`, `top` and a dark border one
/// pixel wide.
pub open spec fn square(left: int, top: int, side: int, fill: PixelColor, radius: int) -> BoxView {
    BoxView {
        left,
        top,
        right: left + side - 1,
        bottom: top + side - 1,
        border: PixelColor::Dark,
        fill,
        width: 1,
        radius,
    }
}

/// How column `col` of row `row` of the board is drawn: an outline, or solid.
pub open spec fn cell_box(layout: Layout, col: int, row: int, filled: bool) -> BoxView {
    square(
        layout.origin_x + col * layout.cell_px,
        layout.origin_y + row * layout.cell_px,
        layout.cell_px as int,
        if filled {
            PixelColor::Dark
        } else {
            PixelColor::Light
        },
        2,
    )
}

/// Left edge of the set-aside column.
pub open spec fn hud_left(screen: Point) -> int {
    screen.x - HUD_WIDTH
}

/// The outline of the board: a little outside it, but on the screen and clear of the
/// set-aside column.
pub open spec fn outline_box(layout: Layout, screen: Point) -> BoxView {
    BoxView {
        left: larger(layout.origin_x - FRAME_PAD, 0),
        top: larger(layout.origin_y - FRAME_PAD, 0),
        right: smaller(
            layout.origin_x + BOARD_W * layout.cell_px - 1 + FRAME_PAD,
            hud_left(screen) - 1,
        ),
        bottom: smaller(
            layout.origin_y + layout.board_h * layout.cell_px - 1 + FRAME_PAD,
            screen.y - 1,
        ),
        border: PixelColor::Dark,
        fill: PixelColor::Light,
        width: 1,
        radius: 1,
    }
}

/// A small text without a border, centred in the rows from `top` to `bottom` of the space to
/// the right of the board.
pub open spec fn hud_text(
    layout: Layout,
    screen: Point,
    top: int,
    bottom: int,
    text: Seq<char>,
) -> CommandView {
    CommandView::Text(
        TextView {
            left: smaller(layout.origin_x + BOARD_W * layout.cell_px, hud_left(screen)),
            top,
            right: screen.x as int,
            bottom,
            style: GlyphStyle::Small,
            draw_border: false,
            clear_area: false,
            text,
        },
    )
}

/// A digit as a character.
pub open spec fn digit(n: nat) -> char {
    (n + '0' as nat) as char
}

/// A number in decimal.
pub open spec fn decimal(n: nat) -> Seq<char>
    decreases n,
{
    if n < 10 {
        seq![digit(n)]
    } else {
        decimal(n / 10).push(digit(n % 10))
    }
}

/// How the cell at an offset is drawn in the preview.
pub open spec fn preview_box(screen: Point, cell: (int, int)) -> BoxView {
    square(
        hud_left(screen) + PREVIEW_INDENT + cell.0 * PREVIEW_CELL_PX,
        PREVIEW_TOP + cell.1 * PREVIEW_CELL_PX,
        PREVIEW_CELL_PX as int,
        PixelColor::Light,
        1,
    )
}

/// The preview of a piece.
pub open spec fn preview(screen: Point, piece: Piece) -> Seq<CommandView> {
    shape_cells(piece, 0).map_values(
        |cell: (int, int)| CommandView::Rounded(preview_box(screen, cell)),
    )
}

impl GameView {
    /// Whether row `y` flashes.
    pub open spec fn row_flashes(self, y: int) -> bool {
        match self.clearing {
            Some(anim) => anim.rows.contains(y),
            None => false,
        }
    }

    /// Whether a flash plays and is in an on phase: the phases are on and off by turns.
    pub open spec fn flash_on(self) -> bool {
        match self.clearing {
            Some(anim) => anim.frame % 2 == 0,
            None => false,
        }
    }

    /// The first `n` cells of row `y`: all of them in a flashing row, solid in an on phase;
    /// else the filled ones, as outlines.
    pub open spec fn row_steps(self, y: int, n: nat) -> Seq<CommandView>
        decreases n,
    {
        if n == 0 {
            Seq::empty()
        } else {
            let before = self.row_steps(y, (n - 1) as nat);
            if self.row_flashes(y) {
                before.push(CommandView::Rounded(cell_box(self.layout, n - 1, y, self.flash_on())))
            } else if self.grid[y][n - 1] {
                before.push(CommandView::Rounded(cell_box(self.layout, n - 1, y, false)))
            } else {
                before
            }
        }
    }

    /// The first `n` rows of the board, from the top.
    pub open spec fn grid_steps(self, n: nat) -> Seq<CommandView>
        decreases n,
    {
        if n == 0 {
            Seq::empty()
        } else {
            self.grid_steps((n - 1) as nat) + self.row_steps(n - 1, BOARD_W as nat)
        }
    }

    /// How the cell of the falling piece at an offset is drawn.
    pub open spec fn falling_step(self, cell: (int, int)) -> CommandView {
        CommandView::Rounded(cell_box(self.layout, self.px + cell.0, self.py + cell.1, false))
    }

    /// The falling piece, if one is in play.
    pub open spec fn falling_steps(self) -> Seq<CommandView> {
        if self.in_play() {
            shape_cells(self.piece, self.rotation).map_values(
                |cell: (int, int)| self.falling_step(cell),
            )
        } else {
            Seq::empty()
        }
    }

    /// The score and the preview of the next piece.
    pub open spec fn hud_steps(self, screen: Point) -> Seq<CommandView> {
        seq![
            hud_text(self.layout, screen, 0, 12, "Score"@),
            hud_text(self.layout, screen, 12, 24, decimal(self.score as nat)),
            hud_text(self.layout, screen, 40, 52, "Next"@),
        ] + preview(screen, self.next_piece)
    }

    /// Everything that shows the game on a screen: the outline, the board, the falling piece
    /// on top of it, and the score and the preview beside it.
    pub open spec fn picture(self, screen: Point) -> Seq<CommandView> {
        seq![CommandView::Clear, CommandView::Rounded(outline_box(self.layout, screen))]
            + self.grid_steps(self.grid.len()) + self.falling_steps() + self.hud_steps(screen)
            + seq![CommandView::Flush]
    }
}

/// Whether the corners of a cell of the board can be computed in `isize`.
pub open spec fn cell_in_range(layout: Layout, col: int, row: int) -> bool {
    let left = layout.origin_x + col * layout.cell_px;
    let top = layout.origin_y + row * layout.cell_px;
    &&& isize::MIN <= col * layout.cell_px <= isize::MAX
    &&& isize::MIN <= row * layout.cell_px <= isize::MAX
    &&& isize::MIN <= left && left + layout.cell_px <= isize::MAX
    &&& isize::MIN <= top && top + layout.cell_px <= isize::MAX
    &&& layout.cell_px >= 1
}

/// The screens beside whose right edge the score and the preview can be placed in `isize`.
pub open spec fn hud_in_range(screen: Point) -> bool {
    &&& screen.x > isize::MIN + HUD_WIDTH
    &&& screen.y > isize::MIN
}

/// The board and its outline are within the range of `isize`.
pub proof fn lemma_layout_in_range(layout: Layout)
    requires
        layout.fits_some_screen(),
    ensures
        layout.cell_px >= 1,
        layout.board_h >= MIN_BOARD_H,
        0 <= layout.origin_x,
        layout.origin_x + BOARD_W * layout.cell_px + FRAME_PAD <= isize::MAX,
        isize::MIN + FRAME_PAD <= layout.origin_y,
        layout.origin_y + layout.board_h * layout.cell_px + FRAME_PAD <= isize::MAX,
        layout.board_h * layout.cell_px <= isize::MAX,
{
    let screen = choose|screen: Point| #[trigger]
        layout.fits(screen) && screen_in_range(screen);
    lemma_sizes(screen);
    let h: int = layout.board_h * layout.cell_px;
    assert(h == board_rows(screen) * cell_size(screen));
    assert(isize::MAX >= 0x7fff_ffff);
}

/// The cells of the board are within the range of `isize`.
pub proof fn lemma_cell_in_range(layout: Layout, col: int, row: int)
    requires
        layout.fits_some_screen(),
        0 <= col < BOARD_W,
        0 <= row < layout.board_h,
    ensures
        cell_in_range(layout, col, row),
{
    lemma_layout_in_range(layout);
    let side: int = layout.cell_px as int;
    let rows: int = layout.board_h as int;
    assert(0 <= col * side && col * side + side <= 10 * side) by (nonlinear_arith)
        requires
            0 <= col < 10,
            side >= 1,
    ;
    assert(0 <= row * side && row * side + side <= rows * side) by (nonlinear_arith)
        requires
            0 <= row < rows,
            side >= 1,
    ;
}

/// How column `col` of row `row` of the board is drawn.
pub fn cell_rect(layout: &Layout, col: i32, row: i32, filled: bool) -> (rect: RoundedRectangle)
    requires
        cell_in_range(*layout, col as int, row as int),
    ensures
        rect@ == cell_box(*layout, col as int, row as int, filled),
{
    let x0: isize = layout.origin_x + col as isize * layout.cell_px;
    let y0: isize = layout.origin_y + row as isize * layout.cell_px;
    let fill = if filled {
        PixelColor::Dark
    } else {
        PixelColor::Light
    };
    RoundedRectangle {
        border: Rectangle {
            tl: Point { x: x0, y: y0 },
            br: Point { x: x0 + layout.cell_px - 1, y: y0 + layout.cell_px - 1 },
            style: DrawStyle { border: PixelColor::Dark, fill, width: 1 },
        },
        radius: 2,
    }
}

/// The outline of the board.
pub fn board_frame(layout: &Layout, screen: Point) -> (rect: RoundedRectangle)
    requires
        layout.fits_some_screen(),
        hud_in_range(screen),
    ensures
        rect@ == outline_box(*layout, screen),
{
    proof {
        lemma_layout_in_range(*layout);
        assert(layout.cell_px * BOARD_W == BOARD_W * layout.cell_px) by (nonlinear_arith);
        assert(layout.cell_px * layout.board_h == layout.board_h * layout.cell_px)
            by (nonlinear_arith);
    }
    let board_w_px: isize = layout.cell_px * BOARD_W as isize;
    let board_h_px: isize = layout.cell_px * layout.board_h as isize;
    let hud_x0: isize = screen.x - HUD_WIDTH;
    let tl_x: isize = (layout.origin_x - FRAME_PAD).max(0);
    let tl_y: isize = (layout.origin_y - FRAME_PAD).max(0);
    let br_x: isize = (layout.origin_x + board_w_px - 1 + FRAME_PAD).min(hud_x0 - 1);
    let br_y: isize = (layout.origin_y + board_h_px - 1 + FRAME_PAD).min(screen.y - 1);
    RoundedRectangle {
        border: Rectangle {
            tl: Point { x: tl_x, y: tl_y },
            br: Point { x: br_x, y: br_y },
            style: DrawStyle { border: PixelColor::Dark, fill: PixelColor::Light, width: 1 },
        },
        radius: 1,
    }
}

/// A digit as a text.
fn digit_text(n: u32) -> (text: &'static str)
    requires
        n < 10,
    ensures
        text@ == seq![digit(n as nat)],
{
    proof {
        reveal_strlit("0");
        reveal_strlit("1");
        reveal_strlit("2");
        reveal_strlit("3");
        reveal_strlit("4");
        reveal_strlit("5");
        reveal_strlit("6");
        reveal_strlit("7");
        reveal_strlit("8");
        reveal_strlit("9");
    }
    let text = match n {
        0 => "0",
        1 => "1",
        2 => "2",
        3 => "3",
        4 => "4",
        5 => "5",
        6 => "6",
        7 => "7",
        8 => "8",
        _ => "9",
    };
    assert(text@ =~= seq![digit(n as nat)]);
    text
}

/// A number in decimal.
pub fn decimal_text(n: u32) -> (text: String)
    ensures
        text@ == decimal(n as nat),
    decreases n,
{
    if n < 10 {
        String::from_str(digit_text(n))
    } else {
        let mut text = decimal_text(n / 10);
        let ghost before = text@;
        text.append(digit_text(n % 10));
        assert(text@ =~= before.push(digit((n % 10) as nat)));
        text
    }
}

/// A small text in the space to the right of the board.
pub fn hud_label(
    layout: &Layout,
    screen: Point,
    top: isize,
    bottom: isize,
    text: String,
) -> (block: TextBlock)
    requires
        layout.fits_some_screen(),
        hud_in_range(screen),
    ensures
        CommandView::Text(block@) == hud_text(
            *layout,
            screen,
            top as int,
            bottom as int,
            text@,
        ),
{
    proof {
        lemma_layout_in_range(*layout);
        assert(layout.cell_px * BOARD_W == BOARD_W * layout.cell_px) by (nonlinear_arith);
    }
    let hud_x0: isize = screen.x - HUD_WIDTH;
    let board_right_edge: isize = layout.origin_x + layout.cell_px * BOARD_W as isize;
    let text_x0: isize = board_right_edge.min(hud_x0);
    TextBlock {
        tl: Point { x: text_x0, y: top },
        br: Point { x: screen.x, y: bottom },
        style: GlyphStyle::Small,
        draw_border: false,
        clear_area: false,
        text,
    }
}

/// How the cell at an offset is drawn in the preview.
pub fn preview_rect(screen: Point, dx: i32, dy: i32) -> (rect: RoundedRectangle)
    requires
        hud_in_range(screen),
        0 <= dx <= 3,
        0 <= dy <= 3,
    ensures
        rect@ == preview_box(screen, (dx as int, dy as int)),
{
    let hud_x0: isize = screen.x - HUD_WIDTH;
    let preview_origin_x: isize = hud_x0 + (HUD_WIDTH - PREVIEW_CELL_PX * 4) / 2;
    let x0: isize = preview_origin_x + dx as isize * PREVIEW_CELL_PX;
    let y0: isize = PREVIEW_TOP + dy as isize * PREVIEW_CELL_PX;
    RoundedRectangle {
        border: Rectangle {
            tl: Point { x: x0, y: y0 },
            br: Point { x: x0 + PREVIEW_CELL_PX - 1, y: y0 + PREVIEW_CELL_PX - 1 },
            style: DrawStyle { border: PixelColor::Dark, fill: PixelColor::Light, width: 1 },
        },
        radius: 1,
    }
}

} // verus!
