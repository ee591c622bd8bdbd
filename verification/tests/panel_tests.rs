use jetem::panel::{pad_trunc, render_table, tree_lines, wrap, Band, TextPanel, Tree, FOOTER_HINT};

fn panel(body: &str) -> TextPanel {
    TextPanel::new("t".into(), body, 40, false, 0)
}

#[test]
fn wraps_long_lines_and_keeps_newlines() {
    assert_eq!(wrap("hello world foo\nbar", 9), vec!["hello", "world foo", "bar"]);
}

#[test]
fn hard_splits_overlong_word() {
    assert_eq!(wrap("abcdefghij", 4), vec!["abcd", "efgh", "ij"]);
}

#[test]
fn copy_selection_within_line() {
    let mut p = panel("hello world");
    p.begin_select((0, 0));
    p.extend_select((0, 5));
    assert_eq!(p.copy_text(), "hello");
}

#[test]
fn copy_all_when_no_selection() {
    let p = panel("a\nb");
    assert_eq!(p.copy_text(), "a\nb");
}

#[test]
fn copy_selection_across_lines() {
    let mut p = panel("foo\nbar\nbaz");
    p.begin_select((0, 1));
    p.extend_select((2, 2));
    assert_eq!(p.copy_text(), "oo\nbar\nba");
}

#[test]
fn table_renders_header_then_rows() {
    let p = TextPanel::new_table(
        "t".into(),
        vec!["NAME".into(), "AGE".into()],
        vec![vec!["alice".into(), "30".into()], vec!["bob".into(), "7".into()]],
        80,
        0,
    );
    assert_eq!(p.lines().len(), 3);
    assert!(p.lines()[0].starts_with("NAME"));
    assert!(p.lines()[1].starts_with("alice"));
}

#[test]
fn table_copies_as_tsv() {
    let p = TextPanel::new_table("t".into(), vec!["a".into(), "b".into()], vec![vec!["1".into(), "2".into()]], 80, 0);
    assert_eq!(p.copy_text(), "a\tb\n1\t2");
}

#[test]
fn table_truncates_overlong_cell() {
    let (lines, _w) = render_table(&vec!["h".to_string()], &vec![vec!["abcdefghij".to_string()]], 5);
    assert_eq!(lines[1].chars().count(), 5);
    assert!(lines[1].ends_with('…'));
}

#[test]
fn table_pads_columns_to_widest_cell() {
    let (lines, w) = render_table(
        &vec!["NAME".to_string(), "AGE".to_string()],
        &vec![vec!["alice".to_string(), "30".to_string()], vec!["bob".to_string()]],
        80,
    );
    assert_eq!(lines, vec!["NAME   AGE", "alice  30 ", "bob       "]);
    assert_eq!(w, 10);
}

#[test]
fn table_shrinks_the_widest_column_first() {
    let (lines, w) = render_table(&vec!["abcdef".to_string(), "xy".to_string()], &vec![], 7);
    assert_eq!(w, 8);
    assert_eq!(lines, vec!["abc…  xy"]);
}

#[test]
fn wrap_keeps_every_line_within_width() {
    let lines = wrap("a bb ccc dddd eeeee ffffff", 5);
    assert!(lines.iter().all(|l| l.chars().count() <= 5));
    assert_eq!(lines, vec!["a bb", "ccc", "dddd", "eeeee", "fffff", "f"]);
}

#[test]
fn pad_trunc_pads_and_cuts() {
    assert_eq!(pad_trunc("ab", 4), "ab  ");
    assert_eq!(pad_trunc("abcdef", 4), "abc…");
    assert_eq!(pad_trunc("abc", 0), "");
}

#[test]
fn input_line_takes_non_blank_text() {
    let mut p = TextPanel::new("chat".into(), "hi", 40, true, 9);
    p.on_char(' ');
    assert_eq!(p.take_input(), None);
    p.on_char('o');
    p.on_char('k');
    p.on_backspace();
    assert_eq!(p.take_input().as_deref(), Some(" o"));
    assert_eq!(p.input(), "");
    assert_eq!(p.owner, 9);
}

#[test]
fn scroll_clamps_to_the_body() {
    let body: String = (0..30).map(|i| format!("line{i}\n")).collect();
    let mut p = panel(&body);
    assert_eq!(p.page(), 21);
    p.scroll(100);
    assert_eq!(p.scroll_pos(), 31 - 22);
    p.scroll(-100);
    assert_eq!(p.scroll_pos(), 0);
}

#[test]
fn cell_at_maps_pixels_to_text() {
    let p = panel("hello\nworld");
    let g = p.geo(1000, 600, 10, 20);
    assert_eq!(p.cell_at(g.content_x + 25, g.content_y + 25, 1000, 600, 10, 20), Some((1, 2)));
    assert_eq!(p.cell_at(g.content_x + 500, g.content_y + 1, 1000, 600, 10, 20), Some((0, 5)));
    assert_eq!(p.cell_at(0, 0, 1000, 600, 10, 20), None);
}

#[test]
fn sel_cols_clamps_to_the_line() {
    let mut p = panel("abc\ndefgh");
    p.begin_select((0, 1));
    p.extend_select((1, 3));
    assert_eq!(p.sel_cols(0, 3), Some((1, 3)));
    assert_eq!(p.sel_cols(1, 5), Some((0, 3)));
    assert_eq!(p.sel_cols(2, 5), None);
}

#[test]
fn table_rows_are_banded_and_text_is_plain() {
    let t = TextPanel::new_table(
        "t".into(),
        vec!["h".into()],
        vec![vec!["a".into()], vec!["b".into()], vec!["c".into()]],
        40,
        0,
    );
    assert_eq!(t.band(0), Band::Header);
    assert_eq!(t.band(1), Band::Plain);
    assert_eq!(t.band(2), Band::Stripe);
    assert_eq!(t.band(3), Band::Plain);
    let p = panel("x");
    assert_eq!(p.band(0), Band::Plain);
    assert_eq!(p.band(2), Band::Plain);
}

#[test]
fn footer_shows_input_or_hints() {
    let mut p = TextPanel::new("chat".into(), "hi", 40, true, 3);
    p.on_char('o');
    p.on_char('k');
    assert_eq!(p.footer(), "> ok");
    assert_eq!(panel("x").footer(), FOOTER_HINT);
}

#[test]
fn trees_flatten_in_pre_order() {
    let leaf = |l: &str| Tree::Node { label: l.to_string(), children: Vec::new() };
    let t = Tree::List(vec![
        Tree::Node { label: "a".into(), children: vec![leaf("b"), Tree::List(vec![leaf("c")])] },
        leaf("d"),
    ]);
    assert_eq!(tree_lines(&t), vec!["a", "  b", "  c", "d"]);
    assert_eq!(tree_lines(&Tree::List(Vec::new())), Vec::<String>::new());
}
