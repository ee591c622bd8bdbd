use jetem::cell::{Cell, Color, BOLD, REVERSE};
use jetem::grid::Grid;
use jetem::pane::Rect;
use jetem::render::{
    blend, cell_colors, draw_border, draw_glyph, fill, fill_rect, pack, paint, resolve, xterm_256,
    CellMetrics, GlyphBitmap,
};
use jetem::selection::Selection;
use jetem::theme::{Col, Terminal, Theme};

#[test]
fn xterm_cube_and_greys() {
    assert_eq!(xterm_256(16), (0, 0, 0));
    assert_eq!(xterm_256(21), (0, 0, 255));
    assert_eq!(xterm_256(196), (255, 0, 0));
    assert_eq!(xterm_256(232), (8, 8, 8));
    assert_eq!(xterm_256(255), (238, 238, 238));
}

#[test]
fn resolve_uses_default_palette_and_cube() {
    let t = Terminal::default();
    assert_eq!(resolve(Color::Default, (1, 2, 3), &t.palette), (1, 2, 3));
    assert_eq!(resolve(Color::Indexed(1), (0, 0, 0), &t.palette), (0xaa, 0, 0));
    assert_eq!(resolve(Color::Indexed(46), (0, 0, 0), &t.palette), (0, 255, 0));
    assert_eq!(resolve(Color::Rgb(9, 8, 7), (0, 0, 0), &t.palette), (9, 8, 7));
}

#[test]
fn pack_and_blend() {
    assert_eq!(pack((0x12, 0x34, 0x56)), 0x0012_3456);
    assert_eq!(blend((255, 255, 255), 0x0000_0000, 255), 0x00ff_ffff);
    assert_eq!(blend((255, 255, 255), 0x0010_2030, 0), 0x0010_2030);
    assert_eq!(blend((200, 100, 0), 0x0000_0000, 128), 0x0064_3200);
}

#[test]
fn fill_rect_clips_to_the_framebuffer() {
    let mut buf = vec![0u32; 4 * 3];
    fill_rect(&mut buf, 4, 3, 2, 1, 5, 5, 7);
    assert_eq!(buf, vec![0, 0, 0, 0, 0, 0, 7, 7, 0, 0, 7, 7]);
    fill(&mut buf, 4, 3, Rect::new(0, 0, 1, 1), (0, 0, 9));
    assert_eq!(buf[0], 9);
}

#[test]
fn border_draws_inside_the_rect() {
    let mut buf = vec![0u32; 5 * 4];
    draw_border(&mut buf, 5, 4, Rect::new(0, 0, 4, 3), 1, 1);
    assert_eq!(
        buf,
        vec![1, 1, 1, 1, 0, 1, 0, 0, 1, 0, 1, 1, 1, 1, 0, 0, 0, 0, 0, 0]
    );
}

#[test]
fn glyph_blends_nonzero_coverage_only() {
    let mut buf = vec![0u32; 4 * 4];
    let g = GlyphBitmap { width: 2, height: 2, xmin: 1, ymin: 0, coverage: vec![255, 0, 0, 255] };
    draw_glyph(&mut buf, 4, 4, &g, 0, 0, 3, (255, 0, 0));
    // origin: x = 0 + 1, y = 0 + 3 - 0 - 2 = 1
    assert_eq!(buf[1 * 4 + 1], 0x00ff_0000);
    assert_eq!(buf[1 * 4 + 2], 0);
    assert_eq!(buf[2 * 4 + 2], 0x00ff_0000);
    assert_eq!(buf.iter().filter(|p| **p != 0).count(), 2);
}

#[test]
fn cell_colors_bold_reverse_cursor_and_highlight() {
    let t = Terminal::default();
    let bold_red = Cell { ch: 'x', fg: Color::Indexed(1), bg: Color::Default, attrs: BOLD };
    assert_eq!(cell_colors(bold_red, false, &t, None), ((0xff, 0x55, 0x55), (0x10, 0x12, 0x18)));
    let rev = Cell { ch: 'x', fg: Color::Default, bg: Color::Default, attrs: REVERSE };
    assert_eq!(cell_colors(rev, false, &t, None), ((0x10, 0x12, 0x18), (0xcc, 0xcc, 0xcc)));
    assert_eq!(cell_colors(rev, true, &t, None), ((0xcc, 0xcc, 0xcc), (0x10, 0x12, 0x18)));
    let plain = Cell::default();
    assert_eq!(cell_colors(plain, false, &t, Some(Col(1, 2, 3))), ((0xcc, 0xcc, 0xcc), (1, 2, 3)));
}

#[test]
fn paint_fills_cells_cursor_and_selection() {
    let mut g = Grid::new(1, 2);
    g.print('a');
    let theme = Theme::default();
    let mut buf = vec![0u32; 4 * 2];
    let m = CellMetrics { cw: 2, ch: 2, baseline: 2 };
    let glyphs = vec![('a', GlyphBitmap { width: 1, height: 1, xmin: 0, ymin: 1, coverage: vec![255] })];
    let sel = Selection::new(0, (0, 1));
    paint(&mut buf, 4, 2, Rect::new(0, 0, 4, 2), &g, &glyphs, m, true, Some(&sel), None, &theme);
    let bg = theme.terminal.bg.packed();
    let fg = theme.terminal.fg.packed();
    let selbg = theme.terminal.selection.packed();
    // Cell (0, 0) holds 'a' on the default background; its glyph pixel is at
    // (0, 2 - 1 - 1) = (0, 0).
    assert_eq!(buf[0], fg);
    assert_eq!(buf[1], bg);
    assert_eq!(buf[4], bg);
    // Cell (0, 1) is under the cursor and selected: the selection tint wins.
    assert_eq!(buf[2], selbg);
    assert_eq!(buf[7], selbg);
}

#[test]
fn border_may_end_one_pixel_past_the_right_edge() {
    // A 3x3 box starting at x = 2 in a 4-wide buffer: its right column falls
    // just outside and is clipped.
    let mut buf = vec![0u32; 4 * 3];
    draw_border(&mut buf, 4, 3, Rect::new(2, 0, 3, 3), 7, 1);
    assert_eq!(buf, vec![0, 0, 7, 7, 0, 0, 7, 0, 0, 0, 7, 7]);
}
