use terminal_display::Cell;
use terminal_display::Color;
use terminal_display::Command;
use terminal_display::Glyph;
use terminal_display::NativeColor;
use terminal_display::Pixel;
use terminal_display::Point;
use terminal_display::Rectangle;
use terminal_display::Size;
use terminal_display::TerminalDisplay;

fn rect(x: i32, y: i32, w: u32, h: u32) -> Rectangle {
    Rectangle::new(Point::new(x, y), Size::new(w, h))
}

fn px(x: i32, y: i32, color: Color) -> Pixel {
    Pixel { position: Point::new(x, y), color }
}

fn cell(top: Color, bottom: Color) -> Cell {
    Cell { top, bottom }
}

#[test]
fn new_display_is_empty() {
    let mut d = TerminalDisplay::new();
    assert_eq!(d.dimensions(), (0, 0));
    assert_eq!(d.take_commands(), vec![]);
}

#[test]
fn resize_fills_with_default_pair() {
    let mut d = TerminalDisplay::new();
    d.resize(3, 2);
    assert_eq!(d.dimensions(), (2, 3));
    for r in 0..2 {
        for c in 0..3 {
            assert_eq!(d.cell_at(r, c), cell(Color::BgColor, Color::BgColor));
        }
    }
    assert_eq!(d.take_commands(), vec![]);
}

#[test]
fn clear_overwrites_every_cell_and_queues_one_color_command() {
    let mut d = TerminalDisplay::new();
    d.clear(4, 4, Color::Red);
    for r in 0..4 {
        for c in 0..4 {
            assert_eq!(d.cell_at(r, c), cell(Color::Red, Color::Red));
        }
    }
    let mut expected = vec![Command::SetBackground(NativeColor::Red)];
    for row in 0..4u16 {
        expected.push(Command::MoveTo(0, row));
        for _ in 0..4 {
            expected.push(Command::Print(Glyph::Space));
        }
    }
    assert_eq!(d.take_commands(), expected);
}

#[test]
fn clear_with_foreground_sentinel_uses_full_blocks() {
    let mut d = TerminalDisplay::new();
    d.clear(2, 1, Color::FgColor);
    assert_eq!(
        d.take_commands(),
        vec![
            Command::SetForeground(NativeColor::Reset),
            Command::MoveTo(0, 0),
            Command::Print(Glyph::Full),
            Command::Print(Glyph::Full),
        ],
    );
}

#[test]
fn scenario_clear_then_single_point() {
    // A 4x4-cell terminal is a 4x8 pixel surface. Clearing to the
    // background and drawing one foreground pixel at (1, 1) merges into the
    // bottom half of the cell at column 1, row 0 (odd pixel rows are lower
    // halves), leaving the top half at the background sentinel; the cell is
    // re-rendered as a lower half block with both colors reset.
    let mut d = TerminalDisplay::new();
    d.clear(4, 4, Color::BgColor);
    d.take_commands();
    d.draw_points(4, 4, &vec![px(1, 1, Color::FgColor)]);
    assert_eq!(d.cell_at(0, 1), cell(Color::BgColor, Color::FgColor));
    assert_eq!(
        d.take_commands(),
        vec![
            Command::MoveTo(1, 0),
            Command::SetBackground(NativeColor::Reset),
            Command::SetForeground(NativeColor::Reset),
            Command::Print(Glyph::LowerHalf),
        ],
    );
}

#[test]
fn draw_point_on_even_row_is_a_top_half() {
    let mut d = TerminalDisplay::new();
    d.draw_points(4, 4, &vec![px(0, 0, Color::FgColor)]);
    assert_eq!(d.cell_at(0, 0), cell(Color::FgColor, Color::BgColor));
    assert_eq!(
        d.take_commands(),
        vec![
            Command::MoveTo(0, 0),
            Command::SetBackground(NativeColor::Reset),
            Command::SetForeground(NativeColor::Reset),
            Command::Print(Glyph::UpperHalf),
        ],
    );
}

#[test]
fn both_halves_foreground_render_as_full_block() {
    let mut d = TerminalDisplay::new();
    d.draw_points(4, 4, &vec![px(0, 0, Color::FgColor), px(0, 1, Color::FgColor)]);
    assert_eq!(d.cell_at(0, 0), cell(Color::FgColor, Color::FgColor));
    assert_eq!(
        d.take_commands(),
        vec![
            Command::MoveTo(0, 0),
            Command::SetBackground(NativeColor::Reset),
            Command::SetForeground(NativeColor::Reset),
            Command::Print(Glyph::UpperHalf),
            Command::MoveTo(0, 0),
            Command::SetForeground(NativeColor::Reset),
            Command::Print(Glyph::Full),
        ],
    );
}

#[test]
fn both_halves_background_render_as_blank() {
    let mut d = TerminalDisplay::new();
    d.draw_points(4, 4, &vec![px(3, 7, Color::BgColor)]);
    assert_eq!(
        d.take_commands(),
        vec![
            Command::MoveTo(3, 3),
            Command::SetBackground(NativeColor::Reset),
            Command::Print(Glyph::Space),
        ],
    );
}

#[test]
fn explicit_colors_render_top_as_background_when_possible() {
    let mut d = TerminalDisplay::new();
    d.draw_points(4, 4, &vec![px(2, 4, Color::Red), px(2, 5, Color::Blue)]);
    assert_eq!(d.cell_at(2, 2), cell(Color::Red, Color::Blue));
    assert_eq!(
        d.take_commands(),
        vec![
            Command::MoveTo(2, 2),
            Command::SetBackground(NativeColor::Reset),
            Command::SetForeground(NativeColor::Red),
            Command::Print(Glyph::UpperHalf),
            Command::MoveTo(2, 2),
            Command::SetBackground(NativeColor::Red),
            Command::SetForeground(NativeColor::Blue),
            Command::Print(Glyph::LowerHalf),
        ],
    );
}

#[test]
fn out_of_bounds_points_are_dropped_silently() {
    let mut d = TerminalDisplay::new();
    d.draw_points(
        4,
        4,
        &vec![px(4, 0, Color::Red), px(0, 8, Color::Red), px(-1, 0, Color::Red), px(
            0,
            -1,
            Color::Red,
        )],
    );
    assert_eq!(d.take_commands(), vec![]);
    for r in 0..4 {
        for c in 0..4 {
            assert_eq!(d.cell_at(r, c), cell(Color::BgColor, Color::BgColor));
        }
    }
}

#[test]
fn half_writes_merge_in_either_order() {
    let mut a = TerminalDisplay::new();
    a.draw_points(4, 4, &vec![px(1, 2, Color::Red), px(1, 3, Color::Blue)]);
    let mut b = TerminalDisplay::new();
    b.draw_points(4, 4, &vec![px(1, 3, Color::Blue), px(1, 2, Color::Red)]);
    assert_eq!(a.cell_at(1, 1), cell(Color::Red, Color::Blue));
    assert_eq!(b.cell_at(1, 1), cell(Color::Red, Color::Blue));
    // The cell's final rendering is the same in both orders.
    assert_eq!(
        a.take_commands().last(),
        Some(&Command::Print(Glyph::LowerHalf)),
    );
    assert_eq!(
        b.take_commands().last(),
        Some(&Command::Print(Glyph::LowerHalf)),
    );
}

#[test]
fn last_write_to_a_half_wins() {
    let mut d = TerminalDisplay::new();
    d.draw_points(
        4,
        4,
        &vec![px(0, 0, Color::Red), px(0, 1, Color::Green), px(0, 0, Color::Blue)],
    );
    assert_eq!(d.cell_at(0, 0), cell(Color::Blue, Color::Green));
}

#[test]
fn fill_contiguous_fully_inside_consumes_exactly_the_area() {
    let mut d = TerminalDisplay::new();
    let colors = vec![Color::Red; 6];
    let consumed = d.fill_contiguous(4, 4, &rect(1, 1, 2, 3), &colors);
    assert_eq!(consumed, 6);
    assert_eq!(d.cell_at(0, 1), cell(Color::BgColor, Color::Red));
    assert_eq!(d.cell_at(0, 2), cell(Color::BgColor, Color::Red));
    assert_eq!(d.cell_at(1, 1), cell(Color::Red, Color::Red));
    assert_eq!(d.cell_at(1, 2), cell(Color::Red, Color::Red));
    assert_eq!(d.cell_at(2, 1), cell(Color::BgColor, Color::BgColor));
    assert_eq!(d.cell_at(0, 0), cell(Color::BgColor, Color::BgColor));
}

#[test]
fn fill_contiguous_clipped_consumes_the_whole_logical_area() {
    // The area sticks out above nothing but below the 4x8 pixel bounds:
    // x in [-1, 2), y in [6, 10), so only x in [0, 2), y in [6, 8) is
    // visible, yet all 3 * 4 = 12 elements are consumed.
    let mut d = TerminalDisplay::new();
    let colors = vec![Color::Red; 12];
    let consumed = d.fill_contiguous(4, 4, &rect(-1, 6, 3, 4), &colors);
    assert_eq!(consumed, 12);
    assert_eq!(d.cell_at(3, 0), cell(Color::Red, Color::Red));
    assert_eq!(d.cell_at(3, 1), cell(Color::Red, Color::Red));
    assert_eq!(d.cell_at(3, 2), cell(Color::BgColor, Color::BgColor));
}

#[test]
fn fill_contiguous_clipped_short_sequence_consumes_a_prefix() {
    // Same clipped area as above, with elements A..E. Element 0 addresses
    // the clipped pixel (-1, 6); 1 and 2 land on row 6; 3 is clipped; 4
    // lands on (0, 7); the pixel (1, 7) would need element 5, which does
    // not exist, so the call stops having consumed all 5.
    let mut d = TerminalDisplay::new();
    let colors = vec![Color::Red, Color::Green, Color::Blue, Color::Cyan, Color::Yellow];
    let consumed = d.fill_contiguous(4, 4, &rect(-1, 6, 3, 4), &colors);
    assert_eq!(consumed, 5);
    assert_eq!(d.cell_at(3, 0), cell(Color::Green, Color::Yellow));
    assert_eq!(d.cell_at(3, 1), cell(Color::Blue, Color::BgColor));
}

#[test]
fn fill_contiguous_entirely_outside_consumes_nothing() {
    let mut d = TerminalDisplay::new();
    let colors = vec![Color::Red; 4];
    let consumed = d.fill_contiguous(2, 2, &rect(5, 0, 2, 2), &colors);
    assert_eq!(consumed, 0);
    assert_eq!(d.take_commands(), vec![]);
    for r in 0..2 {
        for c in 0..2 {
            assert_eq!(d.cell_at(r, c), cell(Color::BgColor, Color::BgColor));
        }
    }
}

#[test]
fn fill_contiguous_short_sequence_keeps_a_pending_top_half() {
    let mut d = TerminalDisplay::new();
    let consumed = d.fill_contiguous(2, 2, &rect(0, 0, 1, 2), &vec![Color::Red]);
    assert_eq!(consumed, 1);
    // The top half was merged but its cell was never written: only the two
    // cursor moves were queued.
    assert_eq!(d.cell_at(0, 0), cell(Color::Red, Color::BgColor));
    assert_eq!(
        d.take_commands(),
        vec![Command::MoveTo(0, 0), Command::MoveTo(0, 0)],
    );
    // A later call that completes the bottom half writes the whole cell.
    let consumed = d.fill_contiguous(2, 2, &rect(0, 1, 1, 1), &vec![Color::Blue]);
    assert_eq!(consumed, 1);
    assert_eq!(d.cell_at(0, 0), cell(Color::Red, Color::Blue));
    assert_eq!(
        d.take_commands(),
        vec![
            Command::MoveTo(0, 0),
            Command::SetBackground(NativeColor::Red),
            Command::SetForeground(NativeColor::Blue),
            Command::Print(Glyph::LowerHalf),
        ],
    );
}

#[test]
fn scenario_fill_contiguous_matches_pointwise_drawing() {
    // Filling the full bounds with alternating foreground/background in
    // row-major order gives the same buffer as one draw_points call per
    // pixel in the same order.
    let mut a = TerminalDisplay::new();
    let mut colors = Vec::new();
    for i in 0..32 {
        colors.push(if i % 2 == 0 { Color::FgColor } else { Color::BgColor });
    }
    let consumed = a.fill_contiguous(4, 4, &rect(0, 0, 4, 8), &colors);
    assert_eq!(consumed, 32);

    let mut b = TerminalDisplay::new();
    for i in 0..32i32 {
        b.draw_points(4, 4, &vec![px(i % 4, i / 4, colors[i as usize])]);
    }
    for r in 0..4 {
        for c in 0..4 {
            assert_eq!(a.cell_at(r, c), b.cell_at(r, c));
        }
    }
}

#[test]
fn fill_solid_with_odd_top_edge_preserves_upper_halves() {
    let mut d = TerminalDisplay::new();
    d.fill_solid(4, 4, &rect(1, 1, 2, 3), Color::Red);
    assert_eq!(d.cell_at(0, 1), cell(Color::BgColor, Color::Red));
    assert_eq!(d.cell_at(0, 2), cell(Color::BgColor, Color::Red));
    assert_eq!(d.cell_at(1, 1), cell(Color::Red, Color::Red));
    assert_eq!(d.cell_at(1, 2), cell(Color::Red, Color::Red));
    assert_eq!(d.cell_at(2, 1), cell(Color::BgColor, Color::BgColor));
    assert_eq!(
        d.take_commands(),
        vec![
            Command::MoveTo(1, 0),
            Command::SetBackground(NativeColor::Reset),
            Command::SetForeground(NativeColor::Red),
            Command::Print(Glyph::LowerHalf),
            Command::SetBackground(NativeColor::Reset),
            Command::SetForeground(NativeColor::Red),
            Command::Print(Glyph::LowerHalf),
            Command::SetBackground(NativeColor::Red),
            Command::MoveTo(1, 1),
            Command::Print(Glyph::Space),
            Command::Print(Glyph::Space),
        ],
    );
}

#[test]
fn fill_solid_with_even_bottom_edge_preserves_lower_halves() {
    let mut d = TerminalDisplay::new();
    d.fill_solid(4, 4, &rect(0, 0, 1, 3), Color::Red);
    assert_eq!(d.cell_at(0, 0), cell(Color::Red, Color::Red));
    assert_eq!(d.cell_at(1, 0), cell(Color::Red, Color::BgColor));
    assert_eq!(
        d.take_commands(),
        vec![
            Command::SetBackground(NativeColor::Red),
            Command::MoveTo(0, 0),
            Command::Print(Glyph::Space),
            Command::MoveTo(0, 1),
            Command::SetBackground(NativeColor::Reset),
            Command::SetForeground(NativeColor::Red),
            Command::Print(Glyph::UpperHalf),
        ],
    );
}

#[test]
fn fill_solid_outside_bounds_is_clipped_silently() {
    let mut d = TerminalDisplay::new();
    d.fill_solid(2, 2, &rect(-10, -10, 5, 5), Color::Red);
    assert_eq!(d.take_commands(), vec![]);
    d.fill_solid(2, 2, &rect(1, 2, 100, 100), Color::Red);
    assert_eq!(d.cell_at(0, 0), cell(Color::BgColor, Color::BgColor));
    assert_eq!(d.cell_at(1, 1), cell(Color::Red, Color::Red));
    assert_eq!(d.cell_at(1, 0), cell(Color::BgColor, Color::BgColor));
}

#[test]
fn scenario_fill_solid_twice_repeats_the_same_commands() {
    let mut d = TerminalDisplay::new();
    d.fill_solid(4, 4, &rect(1, 1, 2, 3), Color::Red);
    let first = d.take_commands();
    let cells_first: Vec<Cell> = (0..4).flat_map(|r| (0..4).map(move |c| (r, c))).map(
        |(r, c)| d.cell_at(r, c),
    ).collect();
    d.fill_solid(4, 4, &rect(1, 1, 2, 3), Color::Red);
    let second = d.take_commands();
    let cells_second: Vec<Cell> = (0..4).flat_map(|r| (0..4).map(move |c| (r, c))).map(
        |(r, c)| d.cell_at(r, c),
    ).collect();
    assert_eq!(first, second);
    assert_eq!(cells_first, cells_second);
}

#[test]
fn scenario_clear_twice_repeats_the_same_commands() {
    let mut d = TerminalDisplay::new();
    d.clear(3, 3, Color::Blue);
    let first = d.take_commands();
    d.clear(3, 3, Color::Blue);
    let second = d.take_commands();
    assert_eq!(first, second);
    for r in 0..3 {
        for c in 0..3 {
            assert_eq!(d.cell_at(r, c), cell(Color::Blue, Color::Blue));
        }
    }
}

#[test]
fn scenario_shrink_then_grow_resets_the_lost_region() {
    let mut d = TerminalDisplay::new();
    d.clear(3, 3, Color::Red);
    d.take_commands();
    d.resize(2, 2);
    d.resize(3, 3);
    for r in 0..3 {
        for c in 0..3 {
            let expected = if r < 2 && c < 2 {
                cell(Color::Red, Color::Red)
            } else {
                cell(Color::BgColor, Color::BgColor)
            };
            assert_eq!(d.cell_at(r, c), expected);
        }
    }
}

#[test]
fn resize_to_same_size_is_a_no_op() {
    let mut d = TerminalDisplay::new();
    d.clear(3, 2, Color::Red);
    d.take_commands();
    d.resize(3, 2);
    assert_eq!(d.dimensions(), (2, 3));
    assert_eq!(d.cell_at(1, 2), cell(Color::Red, Color::Red));
    assert_eq!(d.take_commands(), vec![]);
}

#[test]
fn fill_contiguous_with_huge_area_consumes_only_what_exists() {
    // The area's logical size does not fit in 32 bits; the skip accounting
    // must not wrap. Elements 0 and 1 land on the two visible pixels of the
    // first row; the rest of the sequence is swallowed by the clipped
    // margin.
    let mut d = TerminalDisplay::new();
    let colors = vec![Color::Red; 3];
    let consumed = d.fill_contiguous(2, 2, &rect(0, 0, u32::MAX, u32::MAX), &colors);
    assert_eq!(consumed, 3);
    assert_eq!(d.cell_at(0, 0), cell(Color::Red, Color::BgColor));
    assert_eq!(d.cell_at(0, 1), cell(Color::Red, Color::BgColor));
}

#[test]
fn operations_on_zero_sized_terminal() {
    let mut d = TerminalDisplay::new();
    d.clear(0, 0, Color::Red);
    assert_eq!(d.dimensions(), (0, 0));
    assert_eq!(
        d.take_commands(),
        vec![Command::SetBackground(NativeColor::Red)],
    );
    let consumed = d.fill_contiguous(0, 0, &rect(0, 0, 4, 4), &vec![Color::Red; 16]);
    assert_eq!(consumed, 0);
    d.draw_points(0, 0, &vec![px(0, 0, Color::Red)]);
    assert_eq!(d.take_commands(), vec![]);
}

#[test]
fn size_helpers_double_the_height() {
    assert_eq!(terminal_display::size(4, 4), Size::new(4, 8));
    assert_eq!(
        terminal_display::bounding_box(3, 5),
        rect(0, 0, 3, 10),
    );
    assert_eq!(terminal_display::size(0, 0), Size::new(0, 0));
}
