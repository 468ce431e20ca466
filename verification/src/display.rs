use vstd::prelude::*;

use crate::color::Color;
use crate::color::NativeColor;
use crate::color::native_of;
use crate::command::Command;
use crate::command::Glyph;
use crate::command::cell_commands;
use crate::command::write_cell;
use crate::geometry::Point;
use crate::geometry::Rectangle;
use crate::geometry::Size;
use crate::geometry::spec_intersection;

verus! {

/// One terminal character position: the colors last attributed to the two
/// pixels it shows. A terminal cannot report a cell's colors back, so the
/// buffer must remember them to preserve the untouched half when a single
/// pixel is drawn.
#[derive(Copy, Clone, Debug, PartialEq, Eq, Hash, Structural)]
pub struct Cell {
    /// The color of the upper pixel.
    pub top: Color,
    /// The color of the lower pixel.
    pub bottom: Color,
}

/// A pixel write: a position in pixel space and the color to put there.
#[derive(Copy, Clone, Debug, PartialEq, Eq, Hash, Structural)]
pub struct Pixel {
    pub position: Point,
    pub color: Color,
}

/// The pair every cell shows before anything is drawn onto it.
pub open spec fn default_cell() -> Cell {
    Cell { top: Color::BgColor, bottom: Color::BgColor }
}

/// The pixel size of a `width x height` character grid: each cell is one
/// pixel wide and two pixels tall.
pub open spec fn spec_size(width: u16, height: u16) -> Size {
    Size { width: width as u32, height: (2 * height) as u32 }
}

/// The pixel area of a `width x height` character grid, anchored at the
/// origin.
pub open spec fn spec_bounding_box(width: u16, height: u16) -> Rectangle {
    Rectangle { top_left: Point { x: 0, y: 0 }, size: spec_size(width, height) }
}

/// Get the size of the terminal in pixels from its size in rows/columns.
pub fn size(width: u16, height: u16) -> (s: Size)
    ensures
        s == spec_size(width, height),
{
    Size { width: width as u32, height: 2 * (height as u32) }
}

/// Get the bounding box of the terminal in pixels from its size in
/// rows/columns.
pub fn bounding_box(width: u16, height: u16) -> (r: Rectangle)
    ensures
        r == spec_bounding_box(width, height),
{
    Rectangle { top_left: Point { x: 0, y: 0 }, size: size(width, height) }
}

/// The width every row of a grid should have: that of its first row.
pub open spec fn grid_width(g: Seq<Seq<Cell>>) -> nat {
    if g.len() == 0 {
        0
    } else {
        g[0].len()
    }
}

/// The grid with `height` rows of `width` cells that keeps every cell of
/// `g` still in range and fills everything new with the default pair. Cells
/// dropped by shrinking are gone: growing back restarts them from the
/// default.
pub open spec fn resize_grid(g: Seq<Seq<Cell>>, width: u16, height: u16) -> Seq<Seq<Cell>> {
    Seq::new(
        height as nat,
        |r: int|
            Seq::new(
                width as nat,
                |c: int|
                    if r < g.len() && c < grid_width(g) {
                        g[r][c]
                    } else {
                        default_cell()
                    },
            ),
    )
}

/// The cell row addressed by pixel row `y`.
pub open spec fn pixel_row(y: int) -> int {
    y / 2
}

/// Whether pixel row `y` is the upper half of its cell.
pub open spec fn pixel_is_top(y: int) -> bool {
    y % 2 == 0
}

/// Whether pixel `(x, y)` lies on the pixel surface of a `width x height`
/// character grid.
pub open spec fn pixel_in_bounds(x: int, y: int, width: u16, height: u16) -> bool {
    spec_bounding_box(width, height).spec_contains(x, y)
}

/// `cell` with one half replaced and the other kept.
pub open spec fn merged_cell(cell: Cell, top: bool, color: Color) -> Cell {
    if top {
        Cell { top: color, bottom: cell.bottom }
    } else {
        Cell { top: cell.top, bottom: color }
    }
}

/// `g` with `color` merged into one half of the cell at `(row, col)`.
pub open spec fn set_half(
    g: Seq<Seq<Cell>>,
    row: int,
    col: int,
    top: bool,
    color: Color,
) -> Seq<Seq<Cell>> {
    g.update(row, g[row].update(col, merged_cell(g[row][col], top, color)))
}

/// One step of `draw_points`: a pixel outside the surface is dropped
/// silently, one inside is merged into its cell's half.
pub open spec fn apply_pixel(g: Seq<Seq<Cell>>, p: Pixel, width: u16, height: u16) -> Seq<
    Seq<Cell>,
> {
    let x = p.position.x as int;
    let y = p.position.y as int;
    if pixel_in_bounds(x, y, width, height) {
        set_half(g, pixel_row(y), x, pixel_is_top(y), p.color)
    } else {
        g
    }
}

/// The commands queued for one pixel of `draw_points`: a cursor move to its
/// cell, then the rendering of the merged cell; nothing for a dropped pixel.
pub open spec fn pixel_commands(g: Seq<Seq<Cell>>, p: Pixel, width: u16, height: u16) -> Seq<
    Command,
> {
    let x = p.position.x as int;
    let y = p.position.y as int;
    if pixel_in_bounds(x, y, width, height) {
        let cell = apply_pixel(g, p, width, height)[pixel_row(y)][x];
        seq![Command::MoveTo(x as u16, pixel_row(y) as u16)] + cell_commands(cell.top, cell.bottom)
    } else {
        Seq::empty()
    }
}

/// The grid after a whole `draw_points` call, pixels applied in order.
pub open spec fn draw_grid(g: Seq<Seq<Cell>>, ps: Seq<Pixel>, width: u16, height: u16) -> Seq<
    Seq<Cell>,
>
    decreases ps.len(),
{
    if ps.len() == 0 {
        g
    } else {
        draw_grid(apply_pixel(g, ps[0], width, height), ps.drop_first(), width, height)
    }
}

/// All commands a whole `draw_points` call queues.
pub open spec fn draw_commands(g: Seq<Seq<Cell>>, ps: Seq<Pixel>, width: u16, height: u16) -> Seq<
    Command,
>
    decreases ps.len(),
{
    if ps.len() == 0 {
        Seq::empty()
    } else {
        pixel_commands(g, ps[0], width, height) + draw_commands(
            apply_pixel(g, ps[0], width, height),
            ps.drop_first(),
            width,
            height,
        )
    }
}

/// The one color command of a solid aligned fill: a foreground reset when
/// the block is drawn as full blocks (the foreground sentinel), else a
/// background set, under which the block is drawn as blanks.
pub open spec fn aligned_color_command(color: Color) -> Command {
    if color == Color::FgColor {
        Command::SetForeground(NativeColor::Reset)
    } else {
        Command::SetBackground(native_of(color))
    }
}

/// The uniform glyph of a solid aligned fill.
pub open spec fn aligned_glyph(color: Color) -> Glyph {
    if color == Color::FgColor {
        Glyph::Full
    } else {
        Glyph::Space
    }
}

/// Commands of one row of a solid aligned fill: a cursor move, then one
/// uniform glyph per cell of the row.
pub open spec fn aligned_row_commands(color: Color, col_start: int, col_end: int, row: int) -> Seq<
    Command,
> {
    seq![Command::MoveTo(col_start as u16, row as u16)] + Seq::new(
        if col_end >= col_start {
            (col_end - col_start) as nat
        } else {
            0
        },
        |i: int| Command::Print(aligned_glyph(color)),
    )
}

/// Commands of the cell rows `row_start..row_end` of a solid aligned fill.
pub open spec fn aligned_rows_commands(
    color: Color,
    col_start: int,
    col_end: int,
    row_start: int,
    row_end: int,
) -> Seq<Command>
    decreases row_end - row_start,
{
    if row_end <= row_start {
        Seq::empty()
    } else {
        aligned_rows_commands(color, col_start, col_end, row_start, row_end - 1)
            + aligned_row_commands(color, col_start, col_end, row_end - 1)
    }
}

/// All commands of a solid aligned fill: one color command for the whole
/// block, then each row's cursor move and glyphs.
pub open spec fn aligned_commands(
    color: Color,
    col_start: int,
    col_end: int,
    row_start: int,
    row_end: int,
) -> Seq<Command> {
    seq![aligned_color_command(color)] + aligned_rows_commands(
        color,
        col_start,
        col_end,
        row_start,
        row_end,
    )
}

/// The grid after a solid aligned fill: both halves of every cell in the
/// block take `color`; everything else keeps its value.
pub open spec fn aligned_grid(
    g: Seq<Seq<Cell>>,
    col_start: int,
    col_end: int,
    row_start: int,
    row_end: int,
    color: Color,
) -> Seq<Seq<Cell>> {
    Seq::new(
        g.len(),
        |r: int|
            Seq::new(
                g[r].len(),
                |c: int|
                    if row_start <= r < row_end && col_start <= c < col_end {
                        Cell { top: color, bottom: color }
                    } else {
                        g[r][c]
                    },
            ),
    )
}

/// Commands of one boundary row of `fill_solid`, where only one half of
/// each cell takes the fill color and the other half must be preserved: the
/// rendering of each merged cell of columns `col_start..col_end`, left to
/// right. `top` says which half takes the color.
pub open spec fn half_row_commands(
    g: Seq<Seq<Cell>>,
    row: int,
    col_start: int,
    col_end: int,
    top: bool,
    color: Color,
) -> Seq<Command>
    decreases col_end - col_start,
{
    if col_end <= col_start {
        Seq::empty()
    } else {
        let cell = merged_cell(g[row][col_end - 1], top, color);
        half_row_commands(g, row, col_start, col_end - 1, top, color) + cell_commands(
            cell.top,
            cell.bottom,
        )
    }
}

/// The grid after `fill_solid`: every pixel of `vis` takes `color` and no
/// other pixel changes. Cell row `r` holds the pixel rows `2r` (top) and
/// `2r + 1` (bottom).
pub open spec fn solid_grid(g: Seq<Seq<Cell>>, vis: Rectangle, color: Color) -> Seq<Seq<Cell>> {
    Seq::new(
        g.len(),
        |r: int|
            Seq::new(
                g[r].len(),
                |c: int|
                    Cell {
                        top: if vis.spec_contains(c, 2 * r) {
                            color
                        } else {
                            g[r][c].top
                        },
                        bottom: if vis.spec_contains(c, 2 * r + 1) {
                            color
                        } else {
                            g[r][c].bottom
                        },
                    },
            ),
    )
}

/// All commands of a `fill_solid` call whose visible area is `vis`, over
/// the grid `g` the call started from: nothing when `vis` is empty;
/// otherwise a top boundary row when the top edge is odd (the upper halves
/// keep their colors), the whole-cell interior as one solid aligned block,
/// and a bottom boundary row when the bottom edge is even (the lower halves
/// keep their colors).
pub open spec fn fill_solid_commands(g: Seq<Seq<Cell>>, vis: Rectangle, color: Color) -> Seq<
    Command,
> {
    if vis.spec_is_empty() {
        Seq::empty()
    } else {
        let cs = vis.left();
        let ce = vis.right();
        let top_y = vis.top();
        let bot_y = vis.bottom() - 1;
        let row_start = if top_y % 2 == 1 {
            top_y / 2 + 1
        } else {
            top_y / 2
        };
        let row_end = if bot_y % 2 == 0 {
            bot_y / 2
        } else {
            bot_y / 2 + 1
        };
        let top_cmds = if top_y % 2 == 1 {
            seq![Command::MoveTo(cs as u16, (top_y / 2) as u16)] + half_row_commands(
                g,
                top_y / 2,
                cs,
                ce,
                false,
                color,
            )
        } else {
            Seq::empty()
        };
        let bot_cmds = if bot_y % 2 == 0 {
            seq![Command::MoveTo(cs as u16, (bot_y / 2) as u16)] + half_row_commands(
                g,
                bot_y / 2,
                cs,
                ce,
                true,
                color,
            )
        } else {
            Seq::empty()
        };
        top_cmds + aligned_commands(color, cs, ce, row_start, row_end) + bot_cmds
    }
}

/// The row-major index of pixel `(x, y)` within `area`: which element of a
/// contiguous color sequence addresses it. The clipped-away margins of
/// `area` count: the sequence describes the whole rectangle, visible or not.
pub open spec fn area_index(area: Rectangle, x: int, y: int) -> int {
    (y - area.top()) * area.size.width + (x - area.left())
}

/// The color a pixel shows after a contiguous fill of `colors` over `area`
/// clipped to `vis`, when it showed `cur` before: a visible pixel whose
/// sequence element exists takes that element; every other pixel is
/// unchanged.
pub open spec fn contiguous_half(
    area: Rectangle,
    vis: Rectangle,
    colors: Seq<Color>,
    x: int,
    y: int,
    cur: Color,
) -> Color {
    if vis.spec_contains(x, y) && area_index(area, x, y) < colors.len() {
        colors[area_index(area, x, y)]
    } else {
        cur
    }
}

/// The grid after a contiguous fill. Cell row `r` holds the pixel rows
/// `2r` (top) and `2r + 1` (bottom).
pub open spec fn contiguous_grid(
    g: Seq<Seq<Cell>>,
    area: Rectangle,
    vis: Rectangle,
    colors: Seq<Color>,
) -> Seq<Seq<Cell>> {
    Seq::new(
        g.len(),
        |r: int|
            Seq::new(
                g[r].len(),
                |c: int|
                    Cell {
                        top: contiguous_half(area, vis, colors, c, 2 * r, g[r][c].top),
                        bottom: contiguous_half(area, vis, colors, c, 2 * r + 1, g[r][c].bottom),
                    },
            ),
    )
}

/// How many elements a contiguous fill consumes: none when nothing of
/// `area` is visible (there is nothing to act on, and the sequence is
/// abandoned for that call); otherwise the logical size of the whole
/// `area`, clipped margins included, capped by the sequence's length — a
/// short sequence means "stop drawing", not a fault.
pub open spec fn contiguous_consumed(area: Rectangle, vis: Rectangle, len: nat) -> nat {
    if vis.spec_is_empty() {
        0
    } else if area.size.width * area.size.height <= len {
        (area.size.width * area.size.height) as nat
    } else {
        len
    }
}

/// Whether pixel `(x, py)` comes before the cursor `(y, c)` in the
/// row-major walk of a contiguous fill.
spec fn walked_before(x: int, py: int, y: int, c: int) -> bool {
    py < y || (py == y && x < c)
}

/// The cell a contiguous fill writes at the moment it merges pixel
/// `(x, y)`: the pixel's own half holds its sequence element; a bottom
/// half's partner is whatever the walk put there one row earlier (or the
/// grid's old color where that pixel was clipped or unfed); a top half's
/// partner has not been visited and keeps the grid's old color.
pub open spec fn contiguous_written_cell(
    g: Seq<Seq<Cell>>,
    area: Rectangle,
    vis: Rectangle,
    colors: Seq<Color>,
    x: int,
    y: int,
) -> Cell {
    if y % 2 == 0 {
        Cell { top: colors[area_index(area, x, y)], bottom: g[y / 2][x].bottom }
    } else {
        Cell {
            top: contiguous_half(area, vis, colors, x, y - 1, g[y / 2][x].top),
            bottom: colors[area_index(area, x, y)],
        }
    }
}

/// The cell writes of visible pixel row `y` over columns
/// `col_start..col_end`: one rendering per pixel that has a sequence
/// element and is on the must-write boundary — bottom halves, and every
/// half of the last visible row `last_y` (whose bottom half may never
/// come). Top halves elsewhere are only merged, deferred to the bottom
/// pass: one write per two pixel rows.
pub open spec fn contiguous_row_commands(
    g: Seq<Seq<Cell>>,
    area: Rectangle,
    vis: Rectangle,
    colors: Seq<Color>,
    y: int,
    col_start: int,
    col_end: int,
    last_y: int,
) -> Seq<Command>
    decreases col_end - col_start,
{
    if col_end <= col_start {
        Seq::empty()
    } else {
        let x = col_end - 1;
        let prev = contiguous_row_commands(g, area, vis, colors, y, col_start, col_end - 1, last_y);
        if area_index(area, x, y) < colors.len() && (y % 2 == 1 || y == last_y) {
            let cell = contiguous_written_cell(g, area, vis, colors, x, y);
            prev + cell_commands(cell.top, cell.bottom)
        } else {
            prev
        }
    }
}

/// The commands of the visible pixel rows `vis.top()..y_end` of a
/// contiguous fill. A row is reached only while the sequence lasts: the
/// first row always, a later row only when the last pixel of the row
/// before it still had an element. A reached row contributes a cursor
/// move to its cell row and then its writes.
pub open spec fn contiguous_rows_commands(
    g: Seq<Seq<Cell>>,
    area: Rectangle,
    vis: Rectangle,
    colors: Seq<Color>,
    y_end: int,
) -> Seq<Command>
    decreases y_end - vis.top(),
{
    if y_end <= vis.top() {
        Seq::empty()
    } else {
        let y = y_end - 1;
        let prev = contiguous_rows_commands(g, area, vis, colors, y);
        if y == vis.top() || area_index(area, vis.right() - 1, y - 1) < colors.len() {
            prev + seq![Command::MoveTo(vis.left() as u16, (y / 2) as u16)]
                + contiguous_row_commands(
                g,
                area,
                vis,
                colors,
                y,
                vis.left(),
                vis.right(),
                vis.bottom() - 1,
            )
        } else {
            prev
        }
    }
}

/// All commands a contiguous fill queues: nothing when nothing of the area
/// is visible.
pub open spec fn contiguous_commands(
    g: Seq<Seq<Cell>>,
    area: Rectangle,
    vis: Rectangle,
    colors: Seq<Color>,
) -> Seq<Command> {
    if vis.spec_is_empty() {
        Seq::empty()
    } else {
        contiguous_rows_commands(g, area, vis, colors, vis.bottom())
    }
}

/// Once the sequence has run out at column `cx` of row `y`, the columns
/// from `cx` on contribute no writes.
proof fn lemma_contiguous_row_commands_stop(
    g: Seq<Seq<Cell>>,
    area: Rectangle,
    vis: Rectangle,
    colors: Seq<Color>,
    y: int,
    col_start: int,
    cx: int,
    col_end: int,
    last_y: int,
)
    requires
        col_start <= cx <= col_end,
        area_index(area, cx, y) >= colors.len(),
    ensures
        contiguous_row_commands(g, area, vis, colors, y, col_start, col_end, last_y)
            == contiguous_row_commands(g, area, vis, colors, y, col_start, cx, last_y),
    decreases col_end - cx,
{
    if cx < col_end {
        assert(area_index(area, col_end - 1, y) >= colors.len());
        lemma_contiguous_row_commands_stop(g, area, vis, colors, y, col_start, cx, col_end - 1, last_y);
    }
}

/// Once the sequence has run out before every row from `yb` on, those rows
/// are never reached and contribute nothing.
proof fn lemma_contiguous_rows_commands_stop(
    g: Seq<Seq<Cell>>,
    area: Rectangle,
    vis: Rectangle,
    colors: Seq<Color>,
    yb: int,
    y_end: int,
)
    requires
        yb <= y_end,
        yb > vis.top(),
        forall|yy: int|
            yb <= yy < y_end ==> #[trigger] area_index(area, vis.right() - 1, yy - 1)
                >= colors.len(),
    ensures
        contiguous_rows_commands(g, area, vis, colors, y_end) == contiguous_rows_commands(
            g,
            area,
            vis,
            colors,
            yb,
        ),
    decreases y_end - yb,
{
    if yb < y_end {
        let yy = y_end - 1;
        assert(yb <= yy < y_end);
        assert(area_index(area, vis.right() - 1, yy - 1) >= colors.len());
        lemma_contiguous_rows_commands_stop(g, area, vis, colors, yb, y_end - 1);
    }
}

/// A pixel surface over a character-cell terminal.
///
/// The buffer remembers the color pair of every cell; drawing operations
/// merge new colors into it and queue the terminal commands that realize
/// the change. The queue is only ever appended to; an unverified sink takes
/// it with [`TerminalDisplay::take_commands`] and performs the commands.
pub struct TerminalDisplay {
    /// The (top, bottom) colors of every cell, by row then column.
    buffer: Vec<Vec<Cell>>,
    /// Commands queued but not yet handed to the terminal sink.
    out: Vec<Command>,
}

impl TerminalDisplay {
    /// The buffer as a mathematical grid: a sequence of rows of cells.
    pub closed spec fn grid(self) -> Seq<Seq<Cell>> {
        self.buffer@.map_values(|row: Vec<Cell>| row@)
    }

    /// The commands queued so far.
    pub closed spec fn queued(self) -> Seq<Command> {
        self.out@
    }

    /// The grid is rectangular: every row has the width of the first.
    pub open spec fn wf(self) -> bool {
        forall|i: int|
            0 <= i < self.grid().len() ==> #[trigger] self.grid()[i].len() == grid_width(
                self.grid(),
            )
    }

    /// The grid matches a terminal of `width` columns and `height` rows.
    pub open spec fn sized(self, width: u16, height: u16) -> bool {
        self.grid().len() == height && forall|i: int|
            0 <= i < self.grid().len() ==> #[trigger] self.grid()[i].len() == width
    }

    /// A display with an empty buffer and an empty queue; the first resize
    /// populates the buffer.
    pub fn new() -> (d: TerminalDisplay)
        ensures
            d.grid() == Seq::<Seq<Cell>>::empty(),
            d.queued() == Seq::<Command>::empty(),
            d.wf(),
    {
        let d = TerminalDisplay { buffer: Vec::new(), out: Vec::new() };
        proof {
            assert(d.grid() =~= Seq::<Seq<Cell>>::empty());
        }
        d
    }

    /// Bring the buffer to `height` rows of `width` cells, keeping every
    /// cell that still fits and defaulting the rest. A no-op beyond the size
    /// check when the size is unchanged. The queue is untouched.
    pub fn resize(&mut self, width: u16, height: u16)
        requires
            old(self).wf(),
        ensures
            final(self).grid() == resize_grid(old(self).grid(), width, height),
            final(self).queued() == old(self).queued(),
            final(self).sized(width, height),
            final(self).wf(),
    {
        let w = width as usize;
        let h = height as usize;
        let rows = self.buffer.len();
        let cols = if rows > 0 {
            self.buffer[0].len()
        } else {
            0
        };
        if rows == h && cols == w {
            proof {
                assert(self.grid() =~~= resize_grid(self.grid(), width, height));
            }
            return ;
        }
        let ghost target = resize_grid(self.grid(), width, height);
        let mut grown: Vec<Vec<Cell>> = Vec::new();
        let mut r: usize = 0;
        while r < h
            invariant
                r <= h,
                h == height,
                w == width,
                rows == self.grid().len(),
                cols == grid_width(self.grid()),
                self.wf(),
                target == resize_grid(self.grid(), width, height),
                grown@.len() == r,
                forall|i: int| 0 <= i < r ==> #[trigger] grown@[i]@ == target[i],
            decreases h - r,
        {
            let mut row: Vec<Cell> = Vec::new();
            let mut c: usize = 0;
            while c < w
                invariant
                    c <= w,
                    r < h,
                    h == height,
                    w == width,
                    rows == self.grid().len(),
                    cols == grid_width(self.grid()),
                    self.wf(),
                    target == resize_grid(self.grid(), width, height),
                    row@.len() == c,
                    forall|j: int| 0 <= j < c ==> #[trigger] row@[j] == target[r as int][j],
                decreases w - c,
            {
                let cell = if r < rows && c < cols {
                    self.buffer[r][c]
                } else {
                    Cell { top: Color::BgColor, bottom: Color::BgColor }
                };
                row.push(cell);
                c += 1;
            }
            proof {
                assert(row@ =~= target[r as int]);
            }
            grown.push(row);
            r += 1;
        }
        self.buffer = grown;
        proof {
            assert(self.grid() =~~= target);
        }
    }

    /// Draw a set of pixels, in order. The buffer is first brought to the
    /// terminal's current size (one check per call, not per pixel); each
    /// pixel inside the bounding box is merged into one half of its cell,
    /// leaving the other half untouched, and the cell is re-rendered at once
    /// (a cursor move, then the cell's commands); pixels outside the bounds
    /// are dropped silently.
    pub fn draw_points(&mut self, width: u16, height: u16, pixels: &Vec<Pixel>)
        requires
            old(self).wf(),
        ensures
            final(self).grid() == draw_grid(
                resize_grid(old(self).grid(), width, height),
                pixels@,
                width,
                height,
            ),
            final(self).queued() == old(self).queued() + draw_commands(
                resize_grid(old(self).grid(), width, height),
                pixels@,
                width,
                height,
            ),
            final(self).sized(width, height),
            final(self).wf(),
    {
        self.resize(width, height);
        let ghost g0 = self.grid();
        let ghost q0 = self.queued();
        let max_y: u32 = 2 * (height as u32);
        let n = pixels.len();
        let mut i: usize = 0;
        proof {
            assert(pixels@.skip(0) =~= pixels@);
        }
        while i < n
            invariant
                i <= n,
                n == pixels@.len(),
                self.sized(width, height),
                self.wf(),
                max_y == 2 * height,
                draw_grid(g0, pixels@, width, height) == draw_grid(
                    self.grid(),
                    pixels@.skip(i as int),
                    width,
                    height,
                ),
                q0 + draw_commands(g0, pixels@, width, height) == self.queued() + draw_commands(
                    self.grid(),
                    pixels@.skip(i as int),
                    width,
                    height,
                ),
            decreases n - i,
        {
            let p = pixels[i];
            let ghost gpre = self.grid();
            let ghost qpre = self.queued();
            let ghost s = pixels@.skip(i as int);
            let pos = p.position;
            if pos.x >= 0 && (pos.x as u32) < (width as u32) && pos.y >= 0 && (pos.y as u32)
                < max_y {
                let x: u32 = pos.x as u32;
                let y: u32 = pos.y as u32;
                let column: u16 = x as u16;
                let row: u16 = (y / 2) as u16;
                self.out.push(Command::MoveTo(column, row));
                let r = row as usize;
                let c = column as usize;
                let cell = self.buffer[r][c];
                let ncell = if y % 2 == 0 {
                    Cell { top: p.color, bottom: cell.bottom }
                } else {
                    Cell { top: cell.top, bottom: p.color }
                };
                self.buffer[r][c] = ncell;
                write_cell(&mut self.out, ncell.top, ncell.bottom);
                proof {
                    assert(pixel_in_bounds(pos.x as int, pos.y as int, width, height));
                    assert(self.grid() =~~= apply_pixel(gpre, p, width, height));
                    assert(self.queued() =~= qpre + pixel_commands(gpre, p, width, height));
                }
            } else {
                proof {
                    assert(!pixel_in_bounds(pos.x as int, pos.y as int, width, height));
                    assert(self.grid() == apply_pixel(gpre, p, width, height));
                    assert(self.queued() =~= qpre + pixel_commands(gpre, p, width, height));
                }
            }
            proof {
                assert(s[0] == p);
                assert(s.drop_first() =~= pixels@.skip(i + 1));
                assert(draw_grid(gpre, s, width, height) == draw_grid(
                    apply_pixel(gpre, p, width, height),
                    pixels@.skip(i + 1),
                    width,
                    height,
                ));
                assert(draw_commands(gpre, s, width, height) == pixel_commands(
                    gpre,
                    p,
                    width,
                    height,
                ) + draw_commands(
                    apply_pixel(gpre, p, width, height),
                    pixels@.skip(i + 1),
                    width,
                    height,
                ));
                assert(qpre + draw_commands(gpre, s, width, height) =~= self.queued()
                    + draw_commands(self.grid(), pixels@.skip(i + 1), width, height));
            }
            i += 1;
        }
        proof {
            assert(pixels@.skip(n as int) =~= Seq::<Pixel>::empty());
            assert(draw_grid(self.grid(), pixels@.skip(n as int), width, height) == self.grid());
            assert(draw_commands(self.grid(), pixels@.skip(n as int), width, height)
                =~= Seq::<Command>::empty());
            assert(q0 + draw_commands(g0, pixels@, width, height) =~= self.queued());
            assert(self.queued() =~= old(self).queued() + draw_commands(
                g0,
                pixels@,
                width,
                height,
            ));
        }
    }

    /// Fill a block of whole cell rows solidly: both halves of every cell
    /// in `col_start..col_end` of rows `row_start..row_end` take `color`.
    /// Writes to the terminal dominate the cost and the block is uniform,
    /// so one color command is queued for the whole block, then per row one
    /// cursor move and one glyph per cell.
    pub fn fill_solid_aligned(
        &mut self,
        col_start: u16,
        col_end: u16,
        row_start: u16,
        row_end: u16,
        color: Color,
    )
        requires
            old(self).wf(),
            col_start <= col_end,
            row_start <= row_end,
            row_end <= old(self).grid().len(),
            row_start < row_end ==> col_end <= grid_width(old(self).grid()),
        ensures
            final(self).grid() == aligned_grid(
                old(self).grid(),
                col_start as int,
                col_end as int,
                row_start as int,
                row_end as int,
                color,
            ),
            final(self).queued() == old(self).queued() + aligned_commands(
                color,
                col_start as int,
                col_end as int,
                row_start as int,
                row_end as int,
            ),
            final(self).wf(),
    {
        let ghost g0 = self.grid();
        let ghost q0 = self.queued();
        let ghost cs = col_start as int;
        let ghost ce = col_end as int;
        let ghost rs = row_start as int;
        if matches!(color, Color::FgColor) {
            self.out.push(Command::SetForeground(NativeColor::Reset));
        } else {
            self.out.push(Command::SetBackground(color.to_native_color()));
        }
        proof {
            assert(self.grid() =~~= aligned_grid(g0, cs, ce, rs, rs, color));
            assert(self.queued() =~= q0 + seq![aligned_color_command(color)]
                + aligned_rows_commands(color, cs, ce, rs, rs));
        }
        let mut row: u16 = row_start;
        while row < row_end
            invariant
                row_start <= row <= row_end,
                row_end <= g0.len(),
                row_start < row_end ==> col_end <= grid_width(g0),
                col_start <= col_end,
                cs == col_start as int,
                ce == col_end as int,
                rs == row_start as int,
                forall|i: int| 0 <= i < g0.len() ==> #[trigger] g0[i].len() == grid_width(g0),
                self.grid() == aligned_grid(g0, cs, ce, rs, row as int, color),
                self.queued() == q0 + seq![aligned_color_command(color)] + aligned_rows_commands(
                    color,
                    cs,
                    ce,
                    rs,
                    row as int,
                ),
            decreases row_end - row,
        {
            self.out.push(Command::MoveTo(col_start, row));
            let r = row as usize;
            let ghost qrow = self.queued();
            let mut c: usize = col_start as usize;
            proof {
                assert(Seq::new(0, |i: int| Command::Print(aligned_glyph(color)))
                    =~= Seq::<Command>::empty());
                assert(self.queued() =~= qrow + Seq::new(
                    0,
                    |i: int| Command::Print(aligned_glyph(color)),
                ));
            }
            while c < col_end as usize
                invariant
                    col_start as usize <= c <= col_end as usize,
                    r == row as usize,
                    row_start <= row < row_end,
                    row_end <= g0.len(),
                    col_end <= grid_width(g0),
                    cs == col_start as int,
                    ce == col_end as int,
                    rs == row_start as int,
                    forall|i: int| 0 <= i < g0.len() ==> #[trigger] g0[i].len() == grid_width(g0),
                    self.grid().len() == g0.len(),
                    forall|rr: int|
                        0 <= rr < g0.len() ==> #[trigger] self.grid()[rr].len() == g0[rr].len(),
                    forall|rr: int, cc: int|
                        0 <= rr < g0.len() && 0 <= cc < g0[rr].len()
                            ==> #[trigger] self.grid()[rr][cc] == (if (rs <= rr < row as int && cs
                            <= cc < ce) || (rr == row as int && cs <= cc < c as int) {
                            (Cell { top: color, bottom: color })
                        } else {
                            g0[rr][cc]
                        }),
                    self.queued() == qrow + Seq::new(
                        (c - col_start as usize) as nat,
                        |i: int| Command::Print(aligned_glyph(color)),
                    ),
                    qrow == q0 + seq![aligned_color_command(color)] + aligned_rows_commands(
                        color,
                        cs,
                        ce,
                        rs,
                        row as int,
                    ) + seq![Command::MoveTo(col_start, row)],
                decreases col_end as usize - c,
            {
                let ghost gprev = self.grid();
                proof {
                    assert(self.buffer@[r as int]@ == self.grid()[r as int]);
                    assert(self.grid()[r as int].len() == g0[r as int].len());
                    assert(g0[r as int].len() == grid_width(g0));
                }
                self.buffer[r][c] = Cell { top: color, bottom: color };
                if matches!(color, Color::FgColor) {
                    self.out.push(Command::Print(Glyph::Full));
                } else {
                    self.out.push(Command::Print(Glyph::Space));
                }
                proof {
                    assert(self.grid() =~~= gprev.update(
                        r as int,
                        gprev[r as int].update(c as int, Cell { top: color, bottom: color }),
                    ));
                    assert(self.queued() =~= qrow + Seq::new(
                        (c + 1 - col_start as usize) as nat,
                        |i: int| Command::Print(aligned_glyph(color)),
                    ));
                }
                c += 1;
            }
            proof {
                assert(self.grid() =~~= aligned_grid(g0, cs, ce, rs, row as int + 1, color));
                assert(self.queued() =~= q0 + seq![aligned_color_command(color)]
                    + aligned_rows_commands(color, cs, ce, rs, row as int + 1));
            }
            row += 1;
        }
        proof {
            assert(self.queued() =~= q0 + aligned_commands(color, cs, ce, rs, row_end as int));
            assert(self.wf());
        }
    }

    /// Clear the whole display: every cell of the current bounds takes
    /// `(color, color)`, written as one solid aligned fill over all rows.
    pub fn clear(&mut self, width: u16, height: u16, color: Color)
        requires
            old(self).wf(),
        ensures
            final(self).grid() == aligned_grid(
                resize_grid(old(self).grid(), width, height),
                0,
                width as int,
                0,
                height as int,
                color,
            ),
            final(self).queued() == old(self).queued() + aligned_commands(
                color,
                0,
                width as int,
                0,
                height as int,
            ),
            final(self).sized(width, height),
            final(self).wf(),
    {
        self.resize(width, height);
        self.fill_solid_aligned(0, width, 0, height, color);
    }

    /// Fill a rectangle of pixel space solidly with one color. The area is
    /// clamped to the current bounds; when none of it is visible nothing is
    /// queued. A top edge on an odd pixel row or a bottom edge on an even
    /// one lands in the middle of a cell: those boundary rows are drawn cell
    /// by cell, preserving the colors of their other halves, and the
    /// whole-cell interior is filled as one aligned block.
    #[verifier::rlimit(50)]
    pub fn fill_solid(&mut self, width: u16, height: u16, area: &Rectangle, color: Color)
        requires
            old(self).wf(),
        ensures
            final(self).grid() == solid_grid(
                resize_grid(old(self).grid(), width, height),
                spec_intersection(spec_bounding_box(width, height), *area),
                color,
            ),
            final(self).queued() == old(self).queued() + fill_solid_commands(
                resize_grid(old(self).grid(), width, height),
                spec_intersection(spec_bounding_box(width, height), *area),
                color,
            ),
            final(self).sized(width, height),
            final(self).wf(),
    {
        self.resize(width, height);
        let ghost g1 = self.grid();
        let ghost q0 = self.queued();
        let ghost vis = spec_intersection(spec_bounding_box(width, height), *area);
        let bb = bounding_box(width, height);
        let clamped = bb.intersection(area);
        if clamped.is_zero_sized() {
            proof {
                assert(self.grid() =~~= solid_grid(g1, vis, color));
                assert(self.queued() =~= q0 + fill_solid_commands(g1, vis, color));
            }
            return ;
        }
        proof {
            assert(0 <= vis.left() && vis.right() <= width);
            assert(0 <= vis.top() && vis.bottom() <= 2 * height);
            assert(vis.left() < vis.right() && vis.top() < vis.bottom());
        }
        let start_column: u16 = clamped.top_left.x as u16;
        let end_column: u16 = start_column + clamped.size.width as u16;
        let top_y: u32 = clamped.top_left.y as u32;
        let bot_y: u32 = top_y + clamped.size.height - 1;
        let ghost cs = vis.left();
        let ghost ce = vis.right();

        // Top boundary row: the top edge lands on the lower half of its
        // cell row, so the upper halves keep their colors.
        if top_y % 2 == 1 {
            let row: u16 = (top_y / 2) as u16;
            self.out.push(Command::MoveTo(start_column, row));
            let r = row as usize;
            let ghost qrow = self.queued();
            let mut c: usize = start_column as usize;
            while c < end_column as usize
                invariant
                    start_column as usize <= c <= end_column as usize,
                    r == row as usize,
                    row as int == top_y as int / 2,
                    top_y < 2 * height,
                    cs == start_column as int,
                    ce == end_column as int,
                    ce <= width,
                    g1.len() == height,
                    forall|i: int| 0 <= i < g1.len() ==> #[trigger] g1[i].len() == width,
                    self.grid().len() == g1.len(),
                    forall|rr: int|
                        0 <= rr < g1.len() ==> #[trigger] self.grid()[rr].len() == g1[rr].len(),
                    forall|rr: int, cc: int|
                        0 <= rr < g1.len() && 0 <= cc < g1[rr].len()
                            ==> #[trigger] self.grid()[rr][cc] == (if rr == r as int && cs <= cc
                            < c as int {
                            merged_cell(g1[rr][cc], false, color)
                        } else {
                            g1[rr][cc]
                        }),
                    self.queued() == qrow + half_row_commands(
                        g1,
                        r as int,
                        cs,
                        c as int,
                        false,
                        color,
                    ),
                    qrow == q0 + seq![Command::MoveTo(start_column, row)],
                decreases end_column as usize - c,
            {
                proof {
                    assert(self.buffer@[r as int]@ == self.grid()[r as int]);
                    assert(self.grid()[r as int].len() == g1[r as int].len());
                }
                let cell = self.buffer[r][c];
                let ncell = Cell { top: cell.top, bottom: color };
                let ghost gprev = self.grid();
                self.buffer[r][c] = ncell;
                write_cell(&mut self.out, ncell.top, ncell.bottom);
                proof {
                    assert(self.grid() =~~= gprev.update(
                        r as int,
                        gprev[r as int].update(c as int, ncell),
                    ));
                    assert(ncell == merged_cell(g1[r as int][c as int], false, color));
                    assert(half_row_commands(g1, r as int, cs, c as int + 1, false, color)
                        == half_row_commands(g1, r as int, cs, c as int, false, color)
                        + cell_commands(ncell.top, ncell.bottom));
                }
                c += 1;
            }
        }

        // The whole-cell interior.
        let mut start_row: u16 = (top_y / 2) as u16;
        if top_y % 2 == 1 {
            start_row = start_row + 1;
        }
        let mut end_row: u16 = (bot_y / 2) as u16 + 1;
        if bot_y % 2 == 0 {
            end_row = end_row - 1;
        }
        proof {
            assert(self.wf());
            assert(start_row <= end_row);
            assert(end_row <= self.grid().len());
            assert(start_row < end_row ==> end_column <= grid_width(self.grid()));
        }
        self.fill_solid_aligned(start_column, end_column, start_row, end_row, color);
        let ghost g_mid = self.grid();
        let ghost q_mid = self.queued();

        // Bottom boundary row: the bottom edge lands on the upper half of
        // its cell row, so the lower halves keep their colors.
        if bot_y % 2 == 0 {
            let row: u16 = (bot_y / 2) as u16;
            self.out.push(Command::MoveTo(start_column, row));
            let r = row as usize;
            let ghost qrow = self.queued();
            let mut c: usize = start_column as usize;
            proof {
                assert(forall|cc: int|
                    0 <= cc < g1[r as int].len() ==> #[trigger] g_mid[r as int][cc] == g1[r as int][cc]);
            }
            while c < end_column as usize
                invariant
                    start_column as usize <= c <= end_column as usize,
                    r == row as usize,
                    row as int == bot_y as int / 2,
                    bot_y < 2 * height,
                    cs == start_column as int,
                    ce == end_column as int,
                    ce <= width,
                    g1.len() == height,
                    forall|i: int| 0 <= i < g1.len() ==> #[trigger] g1[i].len() == width,
                    g_mid.len() == g1.len(),
                    forall|i: int| 0 <= i < g1.len() ==> #[trigger] g_mid[i].len() == g1[i].len(),
                    forall|cc: int|
                        0 <= cc < g1[r as int].len() ==> #[trigger] g_mid[r as int][cc] == g1[r as int][cc],
                    self.grid().len() == g1.len(),
                    forall|rr: int|
                        0 <= rr < g1.len() ==> #[trigger] self.grid()[rr].len() == g1[rr].len(),
                    forall|rr: int, cc: int|
                        0 <= rr < g1.len() && 0 <= cc < g1[rr].len()
                            ==> #[trigger] self.grid()[rr][cc] == (if rr == r as int && cs <= cc
                            < c as int {
                            merged_cell(g1[rr][cc], true, color)
                        } else {
                            g_mid[rr][cc]
                        }),
                    self.queued() == qrow + half_row_commands(
                        g1,
                        r as int,
                        cs,
                        c as int,
                        true,
                        color,
                    ),
                    qrow == q_mid + seq![Command::MoveTo(start_column, row)],
                decreases end_column as usize - c,
            {
                proof {
                    assert(self.buffer@[r as int]@ == self.grid()[r as int]);
                    assert(self.grid()[r as int].len() == g1[r as int].len());
                }
                let cell = self.buffer[r][c];
                let ncell = Cell { top: color, bottom: cell.bottom };
                let ghost gprev = self.grid();
                self.buffer[r][c] = ncell;
                write_cell(&mut self.out, ncell.top, ncell.bottom);
                proof {
                    assert(self.grid() =~~= gprev.update(
                        r as int,
                        gprev[r as int].update(c as int, ncell),
                    ));
                    assert(ncell == merged_cell(g1[r as int][c as int], true, color));
                    assert(half_row_commands(g1, r as int, cs, c as int + 1, true, color)
                        == half_row_commands(g1, r as int, cs, c as int, true, color)
                        + cell_commands(ncell.top, ncell.bottom));
                }
                c += 1;
            }
        }

        proof {
            assert(self.queued() =~= q0 + fill_solid_commands(g1, vis, color));
            assert forall|r: int, c: int|
                0 <= r < g1.len() && 0 <= c < g1[r].len() implies self.grid()[r][c] == solid_grid(
                g1,
                vis,
                color,
            )[r][c] by {
                assert(vis.spec_contains(c, 2 * r) <==> (cs <= c < ce && vis.top() <= 2 * r
                    < vis.bottom()));
                assert(vis.spec_contains(c, 2 * r + 1) <==> (cs <= c < ce && vis.top() <= 2 * r + 1
                    < vis.bottom()));
            }
            assert(self.grid() =~~= solid_grid(g1, vis, color));
        }
    }

    /// Fill a rectangle of pixel space from a contiguous color sequence in
    /// row-major order. The sequence logically describes all of `area`:
    /// clipping changes which elements are drawn, never which pixel an
    /// element belongs to, so the clipped margins are skipped by exact
    /// element counts. When nothing of `area` is visible, nothing is
    /// consumed and nothing is queued. A cell is normally written to the
    /// queue only when the bottom half of its pixel pair arrives (one write
    /// per two pixel rows — terminal writes dominate the cost); the last
    /// visible row, whose bottom half may never arrive, is written at once.
    /// A sequence shorter than `area` ends the call early without a fault:
    /// what was drawn stays drawn, and a top half merged into the buffer
    /// without its matching write stays pending until a later call
    /// completes the cell.
    ///
    /// Returns how many elements of `colors` the call consumed.
    #[verifier::rlimit(50)]
    pub fn fill_contiguous(
        &mut self,
        width: u16,
        height: u16,
        area: &Rectangle,
        colors: &Vec<Color>,
    ) -> (consumed: usize)
        requires
            old(self).wf(),
        ensures
            final(self).grid() == contiguous_grid(
                resize_grid(old(self).grid(), width, height),
                *area,
                spec_intersection(spec_bounding_box(width, height), *area),
                colors@,
            ),
            consumed == contiguous_consumed(
                *area,
                spec_intersection(spec_bounding_box(width, height), *area),
                colors@.len(),
            ),
            final(self).queued() == old(self).queued() + contiguous_commands(
                resize_grid(old(self).grid(), width, height),
                *area,
                spec_intersection(spec_bounding_box(width, height), *area),
                colors@,
            ),
            final(self).sized(width, height),
            final(self).wf(),
    {
        self.resize(width, height);
        let ghost g1 = self.grid();
        let ghost q0 = self.queued();
        let ghost vis = spec_intersection(spec_bounding_box(width, height), *area);
        let bb = bounding_box(width, height);
        let clamped = bb.intersection(area);
        if clamped.is_zero_sized() {
            proof {
                assert(self.grid() =~~= contiguous_grid(g1, *area, vis, colors@));
                assert(self.queued() =~= q0 + contiguous_commands(g1, *area, vis, colors@));
            }
            return 0;
        }
        proof {
            assert(0 <= vis.left() && vis.right() <= width);
            assert(0 <= vis.top() && vis.bottom() <= 2 * height);
            assert(vis.left() < vis.right() && vis.top() < vis.bottom());
            assert(area.left() <= vis.left() && vis.right() <= area.right());
            assert(area.top() <= vis.top() && vis.bottom() <= area.bottom());
        }
        let len: usize = colors.len();
        let aw: u64 = area.size.width as u64;
        let ah: u64 = area.size.height as u64;
        proof {
            assert((aw as int) * (ah as int) <= 0xffff_fffe_0000_0001) by (nonlinear_arith)
                requires
                    aw as int <= 0xffff_ffff,
                    ah as int <= 0xffff_ffff,
            ;
        }
        let required: u64 = aw * ah;
        let start_col: u16 = clamped.top_left.x as u16;
        let end_col: u16 = start_col + clamped.size.width as u16;
        let start_y: u32 = clamped.top_left.y as u32;
        let end_y: u32 = start_y + clamped.size.height;
        let last_y: u32 = end_y - 1;
        let left_pad: u64 = (clamped.top_left.x as i64 - area.top_left.x as i64) as u64;
        let top_pad: u64 = (clamped.top_left.y as i64 - area.top_left.y as i64) as u64;
        let vis_w: u64 = clamped.size.width as u64;
        let right_pad: u64 = aw - left_pad - vis_w;
        proof {
            assert((top_pad as int) * (aw as int) <= (ah as int) * (aw as int))
                by (nonlinear_arith)
                requires
                    top_pad as int <= ah as int,
                    aw as int >= 0,
            ;
        }
        let mut pos: u64 = top_pad * aw;
        let mut y: u32 = start_y;
        proof {
            assert(self.queued() =~= q0 + contiguous_rows_commands(
                g1,
                *area,
                vis,
                colors@,
                start_y as int,
            ));
        }
        while y < end_y
            invariant
                old(self).wf(),
                g1 == resize_grid(old(self).grid(), width, height),
                q0 == old(self).queued(),
                vis == spec_intersection(spec_bounding_box(width, height), *area),
                !vis.spec_is_empty(),
                vis.left() == start_col as int,
                vis.right() == end_col as int,
                vis.top() == start_y as int,
                vis.bottom() == end_y as int,
                start_y < end_y,
                last_y == end_y - 1,
                start_y <= y <= end_y,
                aw == area.size.width,
                ah == area.size.height,
                aw >= 1,
                required == (aw as int) * (ah as int),
                len == colors@.len(),
                left_pad == vis.left() - area.left(),
                top_pad == vis.top() - area.top(),
                right_pad == area.right() - vis.right(),
                left_pad + vis_w + right_pad == aw,
                vis_w == vis.right() - vis.left(),
                end_col <= width,
                end_y <= 2 * height,
                g1.len() == height,
                forall|i: int| 0 <= i < g1.len() ==> #[trigger] g1[i].len() == width,
                pos == (y as int - area.top()) * (aw as int),
                self.grid().len() == g1.len(),
                forall|rr: int|
                    0 <= rr < g1.len() ==> #[trigger] self.grid()[rr].len() == g1[rr].len(),
                forall|rr: int, cc: int|
                    0 <= rr < g1.len() && 0 <= cc < g1[rr].len()
                        ==> #[trigger] self.grid()[rr][cc] == (Cell {
                        top: if walked_before(cc, 2 * rr, y as int, vis.left()) {
                            contiguous_half(*area, vis, colors@, cc, 2 * rr, g1[rr][cc].top)
                        } else {
                            g1[rr][cc].top
                        },
                        bottom: if walked_before(cc, 2 * rr + 1, y as int, vis.left()) {
                            contiguous_half(*area, vis, colors@, cc, 2 * rr + 1, g1[rr][cc].bottom)
                        } else {
                            g1[rr][cc].bottom
                        },
                    }),
                self.queued() == q0 + contiguous_rows_commands(g1, *area, vis, colors@, y as int),
                y > start_y ==> area_index(*area, end_col as int - 1, y as int - 1) < len as int,
            decreases end_y - y,
        {
            proof {
                assert(vis.bottom() <= area.bottom());
                assert(y as int - area.top() + 1 <= ah as int);
                assert((y as int - area.top() + 1) * (aw as int) == (y as int - area.top()) * (
                aw as int) + aw as int) by (nonlinear_arith);
                assert((y as int - area.top() + 1) * (aw as int) <= (aw as int) * (ah as int))
                    by (nonlinear_arith)
                    requires
                        y as int - area.top() + 1 <= ah as int,
                        aw as int >= 0,
                ;
            }
            let ghost qy = self.queued();
            self.out.push(Command::MoveTo(start_col, (y / 2) as u16));
            proof {
                assert(self.queued() =~= qy + seq![
                    Command::MoveTo(start_col, ((y as int) / 2) as u16),
                ] + contiguous_row_commands(
                    g1,
                    *area,
                    vis,
                    colors@,
                    y as int,
                    vis.left(),
                    vis.left(),
                    last_y as int,
                ));
            }
            pos = pos + left_pad;
            let is_top = y % 2 == 0;
            let r = (y / 2) as usize;
            let mut cx: usize = start_col as usize;
            while cx < end_col as usize
                invariant
                    old(self).wf(),
                    g1 == resize_grid(old(self).grid(), width, height),
                    q0 == old(self).queued(),
                    vis == spec_intersection(spec_bounding_box(width, height), *area),
                    !vis.spec_is_empty(),
                    vis.left() == start_col as int,
                    vis.right() == end_col as int,
                    vis.top() == start_y as int,
                    vis.bottom() == end_y as int,
                    start_y < end_y,
                    last_y == end_y - 1,
                    start_y <= y < end_y,
                    is_top == (y % 2 == 0),
                    r == y as usize / 2,
                    start_col as usize <= cx <= end_col as usize,
                    aw == area.size.width,
                    ah == area.size.height,
                    aw >= 1,
                    required == (aw as int) * (ah as int),
                    len == colors@.len(),
                    left_pad == vis.left() - area.left(),
                    top_pad == vis.top() - area.top(),
                    right_pad == area.right() - vis.right(),
                    left_pad + vis_w + right_pad == aw,
                    vis_w == vis.right() - vis.left(),
                    end_col <= width,
                    end_y <= 2 * height,
                    g1.len() == height,
                    forall|i: int| 0 <= i < g1.len() ==> #[trigger] g1[i].len() == width,
                    pos == area_index(*area, cx as int, y as int),
                    self.grid().len() == g1.len(),
                    forall|rr: int|
                        0 <= rr < g1.len() ==> #[trigger] self.grid()[rr].len() == g1[rr].len(),
                    forall|rr: int, cc: int|
                        0 <= rr < g1.len() && 0 <= cc < g1[rr].len()
                            ==> #[trigger] self.grid()[rr][cc] == (Cell {
                            top: if walked_before(cc, 2 * rr, y as int, cx as int) {
                                contiguous_half(*area, vis, colors@, cc, 2 * rr, g1[rr][cc].top)
                            } else {
                                g1[rr][cc].top
                            },
                            bottom: if walked_before(cc, 2 * rr + 1, y as int, cx as int) {
                                contiguous_half(
                                    *area,
                                    vis,
                                    colors@,
                                    cc,
                                    2 * rr + 1,
                                    g1[rr][cc].bottom,
                                )
                            } else {
                                g1[rr][cc].bottom
                            },
                        }),
                    self.queued() == q0 + contiguous_rows_commands(g1, *area, vis, colors@, y as int)
                        + seq![Command::MoveTo(start_col, ((y as int) / 2) as u16)]
                        + contiguous_row_commands(
                        g1,
                        *area,
                        vis,
                        colors@,
                        y as int,
                        vis.left(),
                        cx as int,
                        last_y as int,
                    ),
                    cx > start_col as usize ==> area_index(*area, cx as int - 1, y as int)
                        < len as int,
                    y > start_y ==> area_index(*area, end_col as int - 1, y as int - 1)
                        < len as int,
                decreases end_col as usize - cx,
            {
                proof {
                    assert(vis.bottom() <= area.bottom());
                    assert(y as int - area.top() <= ah as int - 1);
                    assert(vis.right() <= area.right());
                    assert(cx as int - area.left() <= aw as int - 1);
                    assert((y as int - area.top()) * (aw as int) <= (aw as int) * (ah as int) - (
                    aw as int)) by (nonlinear_arith)
                        requires
                            y as int - area.top() <= ah as int - 1,
                            aw as int >= 0,
                    ;
                    assert(pos < required);
                }
                if pos < len as u64 {
                    let color = colors[pos as usize];
                    proof {
                        assert(self.buffer@[r as int]@ == self.grid()[r as int]);
                        assert(self.grid()[r as int].len() == g1[r as int].len());
                    }
                    let cell = self.buffer[r][cx];
                    let ncell = if is_top {
                        Cell { top: color, bottom: cell.bottom }
                    } else {
                        Cell { top: cell.top, bottom: color }
                    };
                    let ghost gprev = self.grid();
                    self.buffer[r][cx] = ncell;
                    if !is_top || y == last_y {
                        write_cell(&mut self.out, ncell.top, ncell.bottom);
                    }
                    proof {
                        assert(self.grid() =~~= gprev.update(
                            r as int,
                            gprev[r as int].update(cx as int, ncell),
                        ));
                        assert(vis.spec_contains(cx as int, y as int));
                        if is_top {
                            assert(2 * (r as int) == y);
                            assert(!walked_before(cx as int, y as int + 1, y as int, cx as int));
                        } else {
                            assert(2 * (r as int) == y - 1);
                            assert(walked_before(cx as int, y as int - 1, y as int, cx as int));
                        }
                        assert(ncell == contiguous_written_cell(
                            g1,
                            *area,
                            vis,
                            colors@,
                            cx as int,
                            y as int,
                        ));
                        assert(self.queued() =~= q0 + contiguous_rows_commands(
                            g1,
                            *area,
                            vis,
                            colors@,
                            y as int,
                        ) + seq![Command::MoveTo(start_col, ((y as int) / 2) as u16)]
                            + contiguous_row_commands(
                            g1,
                            *area,
                            vis,
                            colors@,
                            y as int,
                            vis.left(),
                            cx as int + 1,
                            last_y as int,
                        ));
                    }
                    pos = pos + 1;
                } else {
                    // The sequence ran out at a pixel that still needed an
                    // element: stop drawing and report what was consumed.
                    proof {
                        assert forall|x: int, py: int|
                            vis.spec_contains(x, py) && !walked_before(
                                x,
                                py,
                                y as int,
                                cx as int,
                            ) implies area_index(*area, x, py) >= len as int by {
                            if py == y as int {
                                assert(x >= cx);
                            } else {
                                assert(py > y as int);
                                assert((py - area.top()) * (aw as int) - (y as int - area.top()) * (
                                aw as int) == (py - y as int) * (aw as int)) by (nonlinear_arith);
                                assert((py - y as int) * (aw as int) >= aw as int)
                                    by (nonlinear_arith)
                                    requires
                                        py - y as int >= 1,
                                        aw as int >= 1,
                                ;
                                assert(x >= vis.left() && vis.left() >= area.left());
                                assert(cx as int <= area.left() + aw - 1);
                            }
                        }
                        assert(self.grid() =~~= contiguous_grid(g1, *area, vis, colors@));
                        assert(len as int <= pos < required);
                        // The commands queued so far are all the commands of
                        // the call: the columns and rows never reached
                        // contribute nothing.
                        lemma_contiguous_row_commands_stop(
                            g1,
                            *area,
                            vis,
                            colors@,
                            y as int,
                            vis.left(),
                            cx as int,
                            vis.right(),
                            last_y as int,
                        );
                        assert forall|yy: int|
                            y as int + 1 <= yy < end_y as int implies #[trigger] area_index(
                            *area,
                            end_col as int - 1,
                            yy - 1,
                        ) >= len as int by {
                            assert(vis.spec_contains(end_col as int - 1, yy - 1));
                            assert(!walked_before(end_col as int - 1, yy - 1, y as int, cx as int));
                        }
                        lemma_contiguous_rows_commands_stop(
                            g1,
                            *area,
                            vis,
                            colors@,
                            y as int + 1,
                            end_y as int,
                        );
                        assert(contiguous_rows_commands(g1, *area, vis, colors@, y as int + 1)
                            == contiguous_rows_commands(g1, *area, vis, colors@, y as int) + seq![
                            Command::MoveTo(vis.left() as u16, ((y as int) / 2) as u16),
                        ] + contiguous_row_commands(
                            g1,
                            *area,
                            vis,
                            colors@,
                            y as int,
                            vis.left(),
                            vis.right(),
                            vis.bottom() - 1,
                        ));
                        assert(self.queued() =~= q0 + contiguous_commands(g1, *area, vis, colors@));
                    }
                    return len;
                }
                cx += 1;
            }
            proof {
                assert(vis.bottom() <= area.bottom());
                assert(y as int - area.top() + 1 <= ah as int);
                assert((y as int - area.top() + 1) * (aw as int) == (y as int - area.top()) * (
                aw as int) + aw as int) by (nonlinear_arith);
                assert((y as int - area.top() + 1) * (aw as int) <= (aw as int) * (ah as int))
                    by (nonlinear_arith)
                    requires
                        y as int - area.top() + 1 <= ah as int,
                        aw as int >= 0,
                ;
                assert(contiguous_rows_commands(g1, *area, vis, colors@, y as int + 1)
                    == contiguous_rows_commands(g1, *area, vis, colors@, y as int) + seq![
                    Command::MoveTo(vis.left() as u16, ((y as int) / 2) as u16),
                ] + contiguous_row_commands(
                    g1,
                    *area,
                    vis,
                    colors@,
                    y as int,
                    vis.left(),
                    vis.right(),
                    vis.bottom() - 1,
                ));
                assert(self.queued() =~= q0 + contiguous_rows_commands(
                    g1,
                    *area,
                    vis,
                    colors@,
                    y as int + 1,
                ));
            }
            pos = pos + right_pad;
            y = y + 1;
        }
        proof {
            assert(self.grid() =~~= contiguous_grid(g1, *area, vis, colors@));
            assert(self.queued() =~= q0 + contiguous_commands(g1, *area, vis, colors@));
        }
        if required <= len as u64 {
            required as usize
        } else {
            len
        }
    }

    /// The cell at a character position.
    pub fn cell_at(&self, row: usize, column: usize) -> (cell: Cell)
        requires
            self.wf(),
            row < self.grid().len(),
            column < grid_width(self.grid()),
        ensures
            cell == self.grid()[row as int][column as int],
    {
        self.buffer[row][column]
    }

    /// The buffer's dimensions, as (rows, columns).
    pub fn dimensions(&self) -> (d: (usize, usize))
        ensures
            d.0 == self.grid().len(),
            d.1 == grid_width(self.grid()),
    {
        let rows = self.buffer.len();
        let cols = if rows > 0 {
            self.buffer[0].len()
        } else {
            0
        };
        (rows, cols)
    }

    /// Hand the queued commands to the caller, leaving the queue empty. The
    /// buffer is untouched.
    pub fn take_commands(&mut self) -> (cmds: Vec<Command>)
        ensures
            cmds@ == old(self).queued(),
            final(self).queued() == Seq::<Command>::empty(),
            final(self).grid() == old(self).grid(),
    {
        let cmds = self.out.split_off(0);
        proof {
            assert(cmds@ =~= old(self).queued());
            assert(self.out@ =~= Seq::<Command>::empty());
        }
        cmds
    }
}

} // verus!
