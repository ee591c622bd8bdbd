use jetem::block::Block;
use jetem::pane::Rect;
use jetem::recall::{truncate, Recall};

fn block(cmd: &str) -> Block {
    Block { command: cmd.to_string(), output: format!("out of {cmd}"), exit_code: Some(0), cwd: None, started_at_ms: 0 }
}

fn recall_with(cmds: &[&str]) -> Recall {
    Recall::open(cmds.iter().map(|c| block(c)).collect(), Vec::new())
}

#[test]
fn dedup_keeps_most_recent_order() {
    let r = recall_with(&["git", "ls", "git"]);
    assert_eq!(r.entries().len(), 2);
    assert_eq!(r.entries()[0].command, "git");
    assert_eq!(r.entries()[1].command, "ls");
}

#[test]
fn substring_filter_is_case_insensitive() {
    let mut r = recall_with(&["GIT status", "ls", "cargo build"]);
    for c in "git".chars() {
        r.on_char(c);
    }
    assert_eq!(r.selected_command().as_deref(), Some("GIT status"));
    assert_eq!(r.results().len(), 1);
}

#[test]
fn selection_clamps_at_ends() {
    let mut r = recall_with(&["a", "b", "c"]);
    r.move_sel(-5);
    assert_eq!(r.selected(), 0);
    r.move_sel(99);
    assert_eq!(r.selected(), r.results().len() - 1);
}

#[test]
fn session_blocks_are_the_most_recent() {
    let r = Recall::open(vec![block("old"), block("both")], vec![block("both"), block("new")]);
    let cmds: Vec<&str> = r.entries().iter().map(|b| b.command.as_str()).collect();
    assert_eq!(cmds, vec!["new", "both", "old"]);
}

#[test]
fn selected_output_and_backspace() {
    let mut r = recall_with(&["make", "ls"]);
    r.on_char('m');
    assert_eq!(r.selected_output().as_deref(), Some("out of make"));
    r.on_char('z');
    assert_eq!(r.selected_command(), None);
    r.on_backspace();
    assert_eq!(r.query(), "m");
    assert_eq!(r.results().len(), 1);
}

#[test]
fn scrolling_keeps_the_selection_visible() {
    let cmds: Vec<String> = (0..20).map(|i| format!("cmd{i}")).collect();
    let refs: Vec<&str> = cmds.iter().map(|s| s.as_str()).collect();
    let mut r = recall_with(&refs);
    r.move_sel(15);
    assert_eq!(r.selected(), 15);
    assert_eq!(r.scroll(), 4);
    r.move_sel(-14);
    assert_eq!(r.scroll(), 1);
}

#[test]
fn truncate_marks_the_cut() {
    assert_eq!(truncate("hello", 5), "hello");
    assert_eq!(truncate("hello world", 5), "hell…");
    assert_eq!(truncate("abc", 0), "…");
}

#[test]
fn overlay_geometry_centres_the_box() {
    let r = recall_with(&["a", "b", "c"]);
    // 800 px wide, 10 px cells: 80 cells less 4, capped at 70 columns.
    let g = r.geo(800, 600, 10, 20);
    assert_eq!(g.cols, 70);
    assert_eq!(g.rows, 3);
    assert_eq!(g.rect, Rect::new((800 - 716) / 2, 100, 716, 4 * 20 + 16));
    assert_eq!((g.text_x, g.text_y), (42 + 8, 108));
    // A narrow window still gets ten columns, and no results still one row.
    let empty = recall_with(&[]);
    let g = empty.geo(50, 60, 10, 10);
    assert_eq!((g.cols, g.rows), (10, 1));
    assert_eq!(g.rect.x, 0);
}

#[test]
fn shown_rows_window_and_mark_the_selection() {
    let cmds: Vec<String> = (0..20).map(|i| format!("command number {i}")).collect();
    let refs: Vec<&str> = cmds.iter().map(|s| s.as_str()).collect();
    let mut r = recall_with(&refs);
    r.move_sel(13);
    let rows = r.shown(12, 10);
    assert_eq!(rows.len(), 12);
    assert_eq!(r.scroll(), 2);
    assert_eq!(rows[0], ("command n…".to_string(), false));
    assert!(rows[11].1);
    assert_eq!(rows.iter().filter(|(_, sel)| *sel).count(), 1);
    // Fewer results than rows: only the results are shown.
    let r = recall_with(&["x", "y"]);
    assert_eq!(r.shown(12, 10), vec![("y".to_string(), true), ("x".to_string(), false)]);
    assert_eq!(r.prompt(10), "> ");
}

#[test]
fn backspace_undoes_typing() {
    let mut r = recall_with(&["git status", "ls", "git log"]);
    r.on_char('g');
    let (q, res) = (r.query().to_string(), r.results().clone());
    r.on_char('x');
    assert!(r.results().is_empty());
    r.on_backspace();
    assert_eq!(r.query(), q);
    assert_eq!(r.results(), &res);
}
