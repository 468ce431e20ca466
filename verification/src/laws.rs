//! Laws relating the drawing operations: what holds of every input, stated
//! over the same spec functions the operations' contracts use.

use vstd::arithmetic::div_mod::lemma_fundamental_div_mod;
use vstd::arithmetic::div_mod::lemma_fundamental_div_mod_converse;
use vstd::arithmetic::div_mod::lemma_mod_bound;
use vstd::prelude::*;

use crate::color::Color;
use crate::display::Cell;
use crate::display::Pixel;
use crate::display::aligned_grid;
use crate::display::apply_pixel;
use crate::display::area_index;
use crate::display::contiguous_consumed;
use crate::display::contiguous_grid;
use crate::display::default_cell;
use crate::display::draw_grid;
use crate::display::fill_solid_commands;
use crate::display::grid_width;
use crate::display::half_row_commands;
use crate::display::merged_cell;
use crate::display::pixel_in_bounds;
use crate::display::pixel_is_top;
use crate::display::pixel_row;
use crate::display::resize_grid;
use crate::display::solid_grid;
use crate::display::spec_bounding_box;
use crate::geometry::Point;
use crate::geometry::Rectangle;
use crate::geometry::spec_intersection;

verus! {

/// Resizing the terminal and then resizing it back: every cell that left
/// the grid in between restarts from the default pair, and every cell that
/// never left keeps its colors. Losing the shrunk region is expected, not a
/// fault: the buffer only remembers what a terminal of the moment's size
/// could show.
pub proof fn lemma_resize_round_trip(g: Seq<Seq<Cell>>, w1: u16, h1: u16, w0: u16, h0: u16)
    ensures
        forall|r: int, c: int|
            0 <= r < h0 && 0 <= c < w0 ==> resize_grid(resize_grid(g, w1, h1), w0, h0)[r][c] == (
            if r < h1 && c < w1 && r < g.len() && c < grid_width(g) {
                g[r][c]
            } else {
                default_cell()
            }),
{
}

/// The boundary-row commands of `fill_solid` agree on two grids whose
/// merged cells agree over the row's columns.
proof fn lemma_half_row_commands_agree(
    ga: Seq<Seq<Cell>>,
    gb: Seq<Seq<Cell>>,
    row: int,
    col_start: int,
    col_end: int,
    top: bool,
    color: Color,
)
    requires
        forall|c: int|
            col_start <= c < col_end ==> #[trigger] merged_cell(ga[row][c], top, color)
                == merged_cell(gb[row][c], top, color),
    ensures
        half_row_commands(ga, row, col_start, col_end, top, color) == half_row_commands(
            gb,
            row,
            col_start,
            col_end,
            top,
            color,
        ),
    decreases col_end - col_start,
{
    if col_start < col_end {
        lemma_half_row_commands_agree(ga, gb, row, col_start, col_end - 1, top, color);
    }
}

/// `fill_solid` is idempotent: filling the same visible area with the same
/// color twice yields the grid of one fill, and the second fill queues
/// exactly the commands of the first (the mandatory moves, color sets and
/// glyphs are re-emitted; nothing differs). The boundary rows preserve
/// halves that lie outside the visible area, and those are exactly the
/// halves a first fill never changed.
pub proof fn lemma_fill_solid_idempotent(g: Seq<Seq<Cell>>, vis: Rectangle, color: Color)
    requires
        forall|i: int| 0 <= i < g.len() ==> #[trigger] g[i].len() == grid_width(g),
        0 <= vis.top(),
        vis.bottom() <= 2 * g.len(),
        0 <= vis.left(),
        vis.right() <= grid_width(g),
    ensures
        solid_grid(solid_grid(g, vis, color), vis, color) == solid_grid(g, vis, color),
        fill_solid_commands(solid_grid(g, vis, color), vis, color) == fill_solid_commands(
            g,
            vis,
            color,
        ),
{
    let g2 = solid_grid(g, vis, color);
    assert(solid_grid(g2, vis, color) =~~= g2);
    if !vis.spec_is_empty() {
        let cs = vis.left();
        let ce = vis.right();
        let top_y = vis.top();
        let bot_y = vis.bottom() - 1;
        if top_y % 2 == 1 {
            let rt = top_y / 2;
            assert(2 * rt == top_y - 1);
            assert forall|c: int| cs <= c < ce implies #[trigger] merged_cell(
                g2[rt][c],
                false,
                color,
            ) == merged_cell(g[rt][c], false, color) by {
                assert(!vis.spec_contains(c, 2 * rt));
                assert(g2[rt][c].top == g[rt][c].top);
            }
            lemma_half_row_commands_agree(g2, g, rt, cs, ce, false, color);
        }
        if bot_y % 2 == 0 {
            let rb = bot_y / 2;
            assert(2 * rb + 1 == vis.bottom());
            assert forall|c: int| cs <= c < ce implies #[trigger] merged_cell(
                g2[rb][c],
                true,
                color,
            ) == merged_cell(g[rb][c], true, color) by {
                assert(!vis.spec_contains(c, 2 * rb + 1));
                assert(g2[rb][c].bottom == g[rb][c].bottom);
            }
            lemma_half_row_commands_agree(g2, g, rb, cs, ce, true, color);
        }
        assert(fill_solid_commands(g2, vis, color) =~= fill_solid_commands(g, vis, color));
    }
}

/// Clearing is solid-filling the entire current bounds: on a grid of the
/// terminal's size, the aligned fill over all rows touches exactly the
/// pixels of the bounding box.
pub proof fn lemma_clear_is_full_fill_solid(
    g: Seq<Seq<Cell>>,
    width: u16,
    height: u16,
    color: Color,
)
    requires
        g.len() == height,
        forall|i: int| 0 <= i < g.len() ==> #[trigger] g[i].len() == width,
    ensures
        aligned_grid(g, 0, width as int, 0, height as int, color) == solid_grid(
            g,
            spec_bounding_box(width, height),
            color,
        ),
{
    assert(aligned_grid(g, 0, width as int, 0, height as int, color) =~~= solid_grid(
        g,
        spec_bounding_box(width, height),
        color,
    ));
}

/// `clear` is idempotent: clearing an unchanged terminal twice yields the
/// grid of one clear, and both clears queue the same commands (the aligned
/// fill's commands do not depend on the grid at all).
pub proof fn lemma_clear_idempotent(g: Seq<Seq<Cell>>, width: u16, height: u16, color: Color)
    ensures
        aligned_grid(
            resize_grid(
                aligned_grid(
                    resize_grid(g, width, height),
                    0,
                    width as int,
                    0,
                    height as int,
                    color,
                ),
                width,
                height,
            ),
            0,
            width as int,
            0,
            height as int,
            color,
        ) == aligned_grid(resize_grid(g, width, height), 0, width as int, 0, height as int, color),
{
    let g1 = aligned_grid(resize_grid(g, width, height), 0, width as int, 0, height as int, color);
    assert(resize_grid(g1, width, height) =~~= g1);
    assert(aligned_grid(g1, 0, width as int, 0, height as int, color) =~~= g1);
}

/// Appending one more pixel to a `draw_points` call applies it to the grid
/// the earlier pixels produced.
proof fn lemma_draw_grid_snoc(g: Seq<Seq<Cell>>, ps: Seq<Pixel>, p: Pixel, width: u16, height: u16)
    ensures
        draw_grid(g, ps.push(p), width, height) == apply_pixel(
            draw_grid(g, ps, width, height),
            p,
            width,
            height,
        ),
    decreases ps.len(),
{
    if ps.len() == 0 {
        assert(ps.push(p)[0] == p);
        assert(ps.push(p).drop_first() =~= Seq::<Pixel>::empty());
        assert(draw_grid(g, ps.push(p), width, height) == draw_grid(
            apply_pixel(g, p, width, height),
            Seq::<Pixel>::empty(),
            width,
            height,
        ));
        assert(draw_grid(apply_pixel(g, p, width, height), Seq::<Pixel>::empty(), width, height)
            == apply_pixel(g, p, width, height));
        assert(draw_grid(g, ps, width, height) == g);
    } else {
        assert(ps.push(p)[0] == ps[0]);
        assert(ps.push(p).drop_first() =~= ps.drop_first().push(p));
        lemma_draw_grid_snoc(apply_pixel(g, ps[0], width, height), ps.drop_first(), p, width, height);
        assert(draw_grid(g, ps.push(p), width, height) == draw_grid(
            apply_pixel(g, ps[0], width, height),
            ps.drop_first().push(p),
            width,
            height,
        ));
        assert(draw_grid(g, ps, width, height) == draw_grid(
            apply_pixel(g, ps[0], width, height),
            ps.drop_first(),
            width,
            height,
        ));
    }
}

/// The last in-bounds write a pixel sequence makes to one half of one cell,
/// if any: the color that half shows afterwards.
pub open spec fn last_half_write(
    ps: Seq<Pixel>,
    width: u16,
    height: u16,
    row: int,
    col: int,
    top: bool,
) -> Option<Color>
    decreases ps.len(),
{
    if ps.len() == 0 {
        None
    } else {
        let p = ps.last();
        let x = p.position.x as int;
        let y = p.position.y as int;
        if pixel_in_bounds(x, y, width, height) && pixel_row(y) == row && x == col && pixel_is_top(
            y,
        ) == top {
            Some(p.color)
        } else {
            last_half_write(ps.drop_last(), width, height, row, col, top)
        }
    }
}

/// After any in-bounds pixel sequence is drawn, a cell holds exactly the
/// last color written to its top half and the last written to its bottom
/// half (its old colors where a half was never written) — so the order in
/// which the two halves were written does not matter, and the glyph and
/// colors last emitted for the cell are `cell_commands` of precisely that
/// merged pair.
pub proof fn lemma_draw_points_last_write(
    g: Seq<Seq<Cell>>,
    ps: Seq<Pixel>,
    width: u16,
    height: u16,
    row: int,
    col: int,
)
    requires
        g.len() == height,
        forall|i: int| 0 <= i < g.len() ==> #[trigger] g[i].len() == width,
        0 <= row < height,
        0 <= col < width,
    ensures
        draw_grid(g, ps, width, height).len() == height,
        forall|i: int|
            0 <= i < height ==> #[trigger] draw_grid(g, ps, width, height)[i].len() == width,
        draw_grid(g, ps, width, height)[row][col].top == (match last_half_write(
            ps,
            width,
            height,
            row,
            col,
            true,
        ) {
            Some(c) => c,
            None => g[row][col].top,
        }),
        draw_grid(g, ps, width, height)[row][col].bottom == (match last_half_write(
            ps,
            width,
            height,
            row,
            col,
            false,
        ) {
            Some(c) => c,
            None => g[row][col].bottom,
        }),
    decreases ps.len(),
{
    if ps.len() > 0 {
        let ps0 = ps.drop_last();
        let p = ps.last();
        assert(ps0.push(p) =~= ps);
        lemma_draw_grid_snoc(g, ps0, p, width, height);
        lemma_draw_points_last_write(g, ps0, width, height, row, col);
        let gd = draw_grid(g, ps0, width, height);
        let x = p.position.x as int;
        let y = p.position.y as int;
        if pixel_in_bounds(x, y, width, height) {
            assert(0 <= pixel_row(y) < height);
            assert(apply_pixel(gd, p, width, height) == gd.update(
                pixel_row(y),
                gd[pixel_row(y)].update(
                    x,
                    merged_cell(gd[pixel_row(y)][x], pixel_is_top(y), p.color),
                ),
            ));
        }
    }
}

/// The pixels that redo a contiguous fill by hand: one pixel per element of
/// `colors`, walking `area` in row-major order.
pub open spec fn row_major_pixels(area: Rectangle, colors: Seq<Color>) -> Seq<Pixel> {
    Seq::new(
        colors.len(),
        |i: int|
            Pixel {
                position: Point {
                    x: (area.left() + i % (area.size.width as int)) as i32,
                    y: (area.top() + i / (area.size.width as int)) as i32,
                },
                color: colors[i],
            },
    )
}

/// The coordinates a row-major index addresses, and that no other pixel of
/// `area` shares its index.
proof fn lemma_area_index_coords(area: Rectangle, k: int)
    requires
        !area.spec_is_empty(),
        0 <= k < area.size.width * area.size.height,
    ensures
        0 <= k % (area.size.width as int) < area.size.width,
        0 <= k / (area.size.width as int) < area.size.height,
        area.spec_contains(
            area.left() + k % (area.size.width as int),
            area.top() + k / (area.size.width as int),
        ),
        area_index(
            area,
            area.left() + k % (area.size.width as int),
            area.top() + k / (area.size.width as int),
        ) == k,
        forall|x: int, y: int|
            area.spec_contains(x, y) && #[trigger] area_index(area, x, y) == k ==> x == area.left()
                + k % (area.size.width as int) && y == area.top() + k / (area.size.width as int),
{
    let aw = area.size.width as int;
    let ah = area.size.height as int;
    lemma_mod_bound(k, aw);
    lemma_fundamental_div_mod(k, aw);
    assert(k / aw < ah) by (nonlinear_arith)
        requires
            aw * (k / aw) <= k,
            k < aw * ah,
            aw >= 1,
    ;
    assert(k / aw >= 0) by (nonlinear_arith)
        requires
            aw * (k / aw) + k % aw == k,
            0 <= k,
            0 <= k % aw < aw,
            aw >= 1,
    ;
    assert(area_index(area, area.left() + k % aw, area.top() + k / aw) == (k / aw) * aw + k % aw);
    assert((k / aw) * aw + k % aw == k) by (nonlinear_arith)
        requires
            aw * (k / aw) + k % aw == k,
    ;
    assert forall|x: int, y: int|
        area.spec_contains(x, y) && #[trigger] area_index(area, x, y) == k implies x == area.left()
        + k % aw && y == area.top() + k / aw by {
        lemma_fundamental_div_mod_converse(k, aw, y - area.top(), x - area.left());
    }
}

/// One more element of a contiguous fill is one more row-major pixel.
proof fn lemma_fill_prefix_step(
    g: Seq<Seq<Cell>>,
    width: u16,
    height: u16,
    area: Rectangle,
    colors: Seq<Color>,
    k: int,
)
    requires
        g.len() == height,
        forall|i: int| 0 <= i < g.len() ==> #[trigger] g[i].len() == width,
        0 <= area.left(),
        area.right() <= width,
        0 <= area.top(),
        area.bottom() <= 2 * height,
        !area.spec_is_empty(),
        colors.len() == area.size.width * area.size.height,
        0 <= k < colors.len(),
    ensures
        apply_pixel(
            contiguous_grid(g, area, area, colors.take(k)),
            row_major_pixels(area, colors)[k],
            width,
            height,
        ) == contiguous_grid(g, area, area, colors.take(k + 1)),
{
    let aw = area.size.width as int;
    let gk = contiguous_grid(g, area, area, colors.take(k));
    let p = row_major_pixels(area, colors)[k];
    lemma_area_index_coords(area, k);
    let xi = area.left() + k % aw;
    let yi = area.top() + k / aw;
    assert(p.position.x == xi && p.position.y == yi && p.color == colors[k]);
    assert(pixel_in_bounds(xi, yi, width, height));
    assert forall|r: int, c: int| 0 <= r < g.len() && 0 <= c < g[r].len() implies apply_pixel(
        gk,
        p,
        width,
        height,
    )[r][c] == contiguous_grid(g, area, area, colors.take(k + 1))[r][c] by {
        let ap = apply_pixel(gk, p, width, height);
        assert(gk[r].len() == g[r].len());
        if area.spec_contains(c, 2 * r) && area_index(area, c, 2 * r) == k {
            assert(c == xi && 2 * r == yi);
        }
        if area.spec_contains(c, 2 * r + 1) && area_index(area, c, 2 * r + 1) == k {
            assert(c == xi && 2 * r + 1 == yi);
        }
        assert(ap[r][c] == (if r == pixel_row(yi) && c == xi {
            merged_cell(gk[r][c], pixel_is_top(yi), colors[k])
        } else {
            gk[r][c]
        }));
    }
    assert(apply_pixel(gk, p, width, height) =~~= contiguous_grid(g, area, area, colors.take(k + 1)));
}

/// The remaining row-major pixels complete a partial contiguous fill.
proof fn lemma_fill_prefix(
    g: Seq<Seq<Cell>>,
    width: u16,
    height: u16,
    area: Rectangle,
    colors: Seq<Color>,
    k: int,
)
    requires
        g.len() == height,
        forall|i: int| 0 <= i < g.len() ==> #[trigger] g[i].len() == width,
        0 <= area.left(),
        area.right() <= width,
        0 <= area.top(),
        area.bottom() <= 2 * height,
        !area.spec_is_empty(),
        colors.len() == area.size.width * area.size.height,
        0 <= k <= colors.len(),
    ensures
        draw_grid(
            contiguous_grid(g, area, area, colors.take(k)),
            row_major_pixels(area, colors).skip(k),
            width,
            height,
        ) == contiguous_grid(g, area, area, colors),
    decreases colors.len() - k,
{
    let ps = row_major_pixels(area, colors);
    if k == colors.len() {
        assert(colors.take(k) =~= colors);
        assert(ps.skip(k) =~= Seq::<Pixel>::empty());
    } else {
        lemma_fill_prefix_step(g, width, height, area, colors, k);
        lemma_fill_prefix(g, width, height, area, colors, k + 1);
        assert(ps.skip(k)[0] == ps[k]);
        assert(ps.skip(k).drop_first() =~= ps.skip(k + 1));
    }
}

/// A contiguous fill over a fully visible area, from a sequence of exactly
/// the area's size, consumes the whole sequence and produces the very grid
/// that one `draw_points` pixel per element, in the same row-major order,
/// would produce.
pub proof fn lemma_fill_contiguous_matches_draw_points(
    g: Seq<Seq<Cell>>,
    width: u16,
    height: u16,
    area: Rectangle,
    colors: Seq<Color>,
)
    requires
        g.len() == height,
        forall|i: int| 0 <= i < g.len() ==> #[trigger] g[i].len() == width,
        0 <= area.left(),
        area.right() <= width,
        0 <= area.top(),
        area.bottom() <= 2 * height,
        !area.spec_is_empty(),
        colors.len() == area.size.width * area.size.height,
    ensures
        spec_intersection(spec_bounding_box(width, height), area) == area,
        contiguous_grid(g, area, area, colors) == draw_grid(
            g,
            row_major_pixels(area, colors),
            width,
            height,
        ),
        contiguous_consumed(area, area, colors.len()) == colors.len(),
{
    assert(spec_intersection(spec_bounding_box(width, height), area) == area);
    assert(colors.take(0) =~= Seq::<Color>::empty());
    assert(contiguous_grid(g, area, area, colors.take(0)) =~~= g);
    lemma_fill_prefix(g, width, height, area, colors, 0);
    assert(row_major_pixels(area, colors).skip(0) =~= row_major_pixels(area, colors));
}

} // verus!
