use jetem::block::BlockTracker;
use jetem::cell::{Color, BOLD, DIM, STRIKETHROUGH, UNDERLINE};
use jetem::parser::Performer;
use jetem::screen::{MouseTracking, Screen};

/// Feeds the byte-stream parser's callbacks to a `Performer`.
struct Feed<'a>(&'a mut Performer);

impl vte::Perform for Feed<'_> {
    fn print(&mut self, c: char) {
        self.0.print(c);
    }

    fn execute(&mut self, byte: u8) {
        self.0.execute(byte);
    }

    fn csi_dispatch(&mut self, params: &vte::Params, intermediates: &[u8], _ignore: bool, action: char) {
        let groups: Vec<Vec<u16>> = params.iter().map(|g| g.to_vec()).collect();
        self.0.csi_dispatch(&groups, intermediates, action);
    }

    fn esc_dispatch(&mut self, _intermediates: &[u8], _ignore: bool, byte: u8) {
        self.0.esc_dispatch(byte);
    }

    fn osc_dispatch(&mut self, params: &[&[u8]], _bell_terminated: bool) {
        let ps: Vec<Vec<u8>> = params.iter().map(|p| p.to_vec()).collect();
        self.0.osc_dispatch(&ps);
    }
}

fn feed(bytes: &[u8], rows: usize, cols: usize) -> Performer {
    let mut perf = Performer::new(rows, cols);
    let mut parser = vte::Parser::new();
    parser.advance(&mut Feed(&mut perf), bytes);
    perf
}

fn run(bytes: &[u8], rows: usize, cols: usize) -> Screen {
    feed(bytes, rows, cols).screen
}

fn run_blocks(bytes: &[u8], rows: usize, cols: usize) -> BlockTracker {
    feed(bytes, rows, cols).blocks
}

fn row(s: &Screen, n: usize) -> String {
    (0..n).map(|c| s.active().cell(0, c).ch).collect()
}

#[test]
fn plain_text_lands_in_grid() {
    let s = run(b"hi", 1, 8);
    assert_eq!(s.active().cell(0, 0).ch, 'h');
    assert_eq!(s.active().cell(0, 1).ch, 'i');
}

#[test]
fn cup_moves_cursor_absolute() {
    let s = run(b"\x1b[2;3H", 5, 5);
    let g = s.active();
    assert_eq!((g.cursor_row, g.cursor_col), (1, 2));
}

#[test]
fn sgr_sets_color_and_resets() {
    let s = run(b"\x1b[31ma\x1b[0mb", 1, 4);
    assert_eq!(s.active().cell(0, 0).fg, Color::Indexed(1));
    assert_eq!(s.active().cell(0, 1).fg, Color::Default);
}

#[test]
fn sgr_truecolor() {
    let s = run(b"\x1b[38;2;10;20;30mx", 1, 4);
    assert_eq!(s.active().cell(0, 0).fg, Color::Rgb(10, 20, 30));
}

#[test]
fn erase_display_clears_screen() {
    let s = run(b"abc\x1b[2J", 1, 3);
    assert_eq!(s.active().to_text(), "   ");
}

#[test]
fn carriage_return_overwrites() {
    let s = run(b"hello\rH", 1, 5);
    assert_eq!(s.active().to_text(), "Hello");
}

#[test]
fn private_mode_hides_and_shows_cursor() {
    let s = run(b"\x1b[?25l", 1, 3);
    assert!(!s.active().cursor_visible());
    let s = run(b"\x1b[?25l\x1b[?25h", 1, 3);
    assert!(s.active().cursor_visible());
}

#[test]
fn cursor_absolute_column_move() {
    let s = run(b"abcdef\x1b[3Gxy", 1, 6);
    assert_eq!(row(&s, 6), "abxyef");
}

#[test]
fn delete_and_erase_chars() {
    let s = run(b"abcdef\x1b[2G\x1b[2P", 1, 6);
    assert_eq!(row(&s, 6), "adef  ");
    let s = run(b"abcdef\x1b[3G\x1b[3X", 1, 6);
    assert_eq!(row(&s, 6), "ab   f");
}

#[test]
fn save_restore_cursor_both_forms() {
    let s = run(b"\x1b7XYZ\x1b8A", 1, 6);
    assert_eq!(s.active().cell(0, 0).ch, 'A');
    assert_eq!(s.active().cell(0, 1).ch, 'Y');
    let s = run(b"\x1b[shi\x1b[uJ", 1, 6);
    assert_eq!(s.active().cell(0, 0).ch, 'J');
}

#[test]
fn sgr_new_attributes() {
    let s = run(b"\x1b[2;4;9mx", 1, 4);
    let a = s.active().cell(0, 0).attrs;
    assert!(a & DIM != 0);
    assert!(a & UNDERLINE != 0);
    assert!(a & STRIKETHROUGH != 0);
    let s = run(b"\x1b[1;2mx\x1b[22my", 1, 4);
    assert_eq!(s.active().cell(0, 1).attrs & (BOLD | DIM), 0);
}

#[test]
fn mouse_and_paste_modes_toggle() {
    assert_eq!(run(b"\x1b[?1000h", 1, 3).modes().mouse, MouseTracking::Normal);
    assert_eq!(run(b"\x1b[?1002h", 1, 3).modes().mouse, MouseTracking::ButtonEvent);
    assert_eq!(run(b"\x1b[?1003h", 1, 3).modes().mouse, MouseTracking::AnyEvent);
    assert_eq!(run(b"\x1b[?1000h\x1b[?1000l", 1, 3).modes().mouse, MouseTracking::Off);
    assert!(run(b"\x1b[?1006h", 1, 3).modes().mouse_sgr);
    assert!(run(b"\x1b[?2004h", 1, 3).modes().bracketed_paste);
    assert!(!run(b"\x1b[?2004h\x1b[?2004l", 1, 3).modes().bracketed_paste);
}

#[test]
fn alt_screen_switch_preserves_primary() {
    let s = run(b"AB\x1b[?1049hZZ\x1b[?1049l", 1, 4);
    assert_eq!(s.active().cell(0, 0).ch, 'A');
    assert_eq!(s.active().cell(0, 1).ch, 'B');
}

#[test]
fn osc133_captures_command_block() {
    let bytes = b"\x1b]133;A\x07\x1b]133;B\x07ls\x1b]133;C\x07out\x1b]133;D;0\x07";
    let blocks = run_blocks(bytes, 4, 20);
    let b = blocks.last().expect("a block was captured");
    assert_eq!(b.command, "ls");
    assert_eq!(b.output, "out");
    assert_eq!(b.exit_code, Some(0));
}

#[test]
fn osc133_explicit_command_from_payload() {
    let bytes = b"PROMPT$ \x1b]133;C;Z2l0IHB1c2g=\x07out\x1b]133;D;0\x07";
    let blocks = run_blocks(bytes, 4, 40);
    assert_eq!(blocks.last().unwrap().command, "git push");
}

#[test]
fn osc133_command_excludes_prompt() {
    let bytes = b"\x1b]133;A\x07PROMPT$ \x1b]133;B\x07ls -l\x1b]133;C\x07out\x1b]133;D;0\x07";
    let blocks = run_blocks(bytes, 4, 40);
    assert_eq!(blocks.last().unwrap().command, "ls -l");
}

#[test]
fn osc133_captures_nonzero_exit() {
    let bytes = b"\x1b]133;B\x07false\x1b]133;C\x07\x1b]133;D;1\x07";
    let blocks = run_blocks(bytes, 4, 20);
    assert_eq!(blocks.last().unwrap().exit_code, Some(1));
    assert_eq!(blocks.last().unwrap().command, "false");
}

#[test]
fn osc7_sets_block_cwd() {
    let bytes = b"\x1b]7;file://host/home/me\x07\x1b]133;B\x07ls\x1b]133;C\x07\x1b]133;D;0\x07";
    let blocks = run_blocks(bytes, 2, 20);
    assert_eq!(blocks.last().unwrap().cwd.as_deref(), Some("/home/me"));
}

#[test]
fn sgr_indexed_256_background() {
    let s = run(b"\x1b[48;5;200mz", 1, 2);
    assert_eq!(s.active().cell(0, 0).bg, Color::Indexed(200));
}
