use jetem::grid::Grid;

fn print_str(g: &mut Grid, s: &str) {
    for ch in s.chars() {
        g.print(ch);
    }
}

fn visible_row(g: &Grid, row: usize, n: usize) -> String {
    (0..n).map(|c| g.visible_cell(row, c).ch).collect()
}

#[test]
fn print_advances_and_wraps() {
    let mut g = Grid::new(3, 4);
    print_str(&mut g, "abcde");
    assert_eq!(g.cell(0, 0).ch, 'a');
    assert_eq!(g.cell(0, 3).ch, 'd');
    assert_eq!(g.cell(1, 0).ch, 'e');
    assert_eq!((g.cursor_row, g.cursor_col), (1, 1));
}

#[test]
fn carriage_return_and_line_feed() {
    let mut g = Grid::new(3, 8);
    print_str(&mut g, "hi");
    g.carriage_return();
    g.line_feed();
    assert_eq!((g.cursor_row, g.cursor_col), (1, 0));
}

#[test]
fn move_to_clamps() {
    let mut g = Grid::new(3, 4);
    g.move_to(99, 99);
    assert_eq!((g.cursor_row, g.cursor_col), (2, 3));
}

#[test]
fn erase_line_to_end() {
    let mut g = Grid::new(1, 5);
    print_str(&mut g, "hello");
    g.move_to(0, 2);
    g.erase_in_line(0);
    assert_eq!(g.to_text(), "he   ");
}

#[test]
fn scroll_on_overflow() {
    let mut g = Grid::new(2, 3);
    print_str(&mut g, "abcdef");
    g.carriage_return();
    g.line_feed();
    assert_eq!(g.cell(0, 0).ch, 'd');
}

#[test]
fn scrollback_archives_and_views() {
    let mut g = Grid::new(2, 3);
    for line in ["aaa", "bbb", "ccc"] {
        print_str(&mut g, line);
        g.carriage_return();
        g.line_feed();
    }
    assert_eq!(g.view_offset(), 0);
    assert_eq!(visible_row(&g, 0, 3), "ccc");
    g.scroll_view(1);
    assert_eq!(g.view_offset(), 1);
    let row0 = visible_row(&g, 0, 3);
    let row1 = visible_row(&g, 1, 3);
    assert_eq!((row0.as_str(), row1.as_str()), ("bbb", "ccc"));
    g.scroll_view(1);
    assert_eq!(g.view_offset(), 2);
    assert_eq!(visible_row(&g, 0, 3), "aaa");
}

#[test]
fn scroll_view_clamps() {
    let mut g = Grid::new(2, 3);
    g.scroll_view(10);
    assert_eq!(g.view_offset(), 0);
    g.scroll_view(-10);
    assert_eq!(g.view_offset(), 0);
}

#[test]
fn cursor_visibility_toggles() {
    let mut g = Grid::new(2, 2);
    assert!(g.cursor_visible());
    g.set_cursor_visible(false);
    assert!(!g.cursor_visible());
}

#[test]
fn resize_grow_preserves_content() {
    let mut g = Grid::new(2, 3);
    print_str(&mut g, "abc");
    g.resize(4, 5);
    assert_eq!(g.rows, 4);
    assert_eq!(g.cols, 5);
    let row0: String = (0..3).map(|c| g.cell(0, c).ch).collect();
    assert_eq!(row0, "abc");
}

#[test]
fn resize_shrink_clamps_cursor() {
    let mut g = Grid::new(5, 5);
    g.move_to(4, 4);
    g.resize(2, 2);
    assert_eq!((g.cursor_row, g.cursor_col), (1, 1));
}

#[test]
fn visible_cell_safe_after_width_change() {
    let mut g = Grid::new(2, 6);
    print_str(&mut g, "wwwwww");
    g.carriage_return();
    g.line_feed();
    print_str(&mut g, "xxxxxx");
    g.carriage_return();
    g.line_feed();
    g.resize(2, 3);
    g.scroll_view(1);
    assert_eq!(visible_row(&g, 0, 3), "www");
}

#[test]
fn all_lines_text_lists_history_then_screen() {
    let mut g = Grid::new(2, 3);
    for line in ["aaa", "bbb", "ccc"] {
        print_str(&mut g, line);
        g.carriage_return();
        g.line_feed();
    }
    let lines = g.all_lines_text();
    assert_eq!(lines, vec!["aaa", "bbb", "ccc", "   "]);
}

#[test]
fn scroll_to_line_brings_history_to_top() {
    let mut g = Grid::new(2, 3);
    for line in ["aaa", "bbb", "ccc"] {
        print_str(&mut g, line);
        g.carriage_return();
        g.line_feed();
    }
    g.scroll_to_line(0);
    assert_eq!(g.view_offset(), 2);
    assert_eq!(visible_row(&g, 0, 3), "aaa");
    g.scroll_to_line(3);
    assert_eq!(g.view_offset(), 0);
}

#[test]
fn text_between_spans_rows_and_trims() {
    let mut g = Grid::new(3, 4);
    print_str(&mut g, "ab");
    g.carriage_return();
    g.line_feed();
    print_str(&mut g, "cd");
    assert_eq!(g.text_between((0, 0), (1, 2)), "ab  \ncd");
    assert_eq!(g.text_between((0, 1), (0, 4)), "b");
}

#[test]
fn lowering_the_cap_keeps_the_newest_lines_and_clamps_the_view() {
    let mut g = Grid::new(2, 4);
    for c in ['a', 'b', 'c', 'd', 'e'] {
        g.print(c);
        g.carriage_return();
        g.line_feed();
    }
    assert_eq!(g.scrollback_len(), 4);
    g.scroll_view(4);
    assert_eq!(g.view_offset(), 4);
    g.set_max_scrollback(2);
    assert_eq!(g.scrollback_len(), 2);
    assert_eq!(g.view_offset(), 2);
    // The two newest archived lines remain: 'c' then 'd'.
    assert_eq!(g.visible_cell(0, 0).ch, 'c');
    assert_eq!(g.visible_cell(1, 0).ch, 'd');
    g.set_max_scrollback(0);
    assert_eq!((g.scrollback_len(), g.view_offset()), (0, 0));
    g.scroll_view(3);
    assert_eq!(g.view_offset(), 0);
}
