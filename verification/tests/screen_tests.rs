use jetem::grid::Grid;
use jetem::screen::Screen;

fn type_line(g: &mut Grid, s: &str) {
    for ch in s.chars() {
        g.print(ch);
    }
}

#[test]
fn alt_preserves_primary() {
    let mut screen = Screen::new(2, 5);
    type_line(screen.active_mut(), "shell");
    screen.enter_alt();
    type_line(screen.active_mut(), "vimUI");
    let alt0: String = (0..5).map(|c| screen.active().cell(0, c).ch).collect();
    assert_eq!(alt0, "vimUI");
    screen.leave_alt();
    let prim0: String = (0..5).map(|c| screen.active().cell(0, c).ch).collect();
    assert_eq!(prim0, "shell");
}

#[test]
fn alt_has_no_scrollback() {
    let mut screen = Screen::new(2, 3);
    screen.enter_alt();
    for line in ["aaa", "bbb", "ccc", "ddd"] {
        type_line(screen.active_mut(), line);
        screen.active_mut().carriage_return();
        screen.active_mut().line_feed();
    }
    screen.active_mut().scroll_view(5);
    assert_eq!(screen.active().view_offset(), 0);
}

#[test]
fn resize_affects_both_buffers() {
    let mut screen = Screen::new(2, 3);
    screen.resize(4, 6);
    assert_eq!((screen.rows(), screen.cols()), (4, 6));
    screen.enter_alt();
    assert_eq!((screen.rows(), screen.cols()), (4, 6));
}

#[test]
fn entering_alt_starts_blank() {
    let mut screen = Screen::new(1, 3);
    type_line(screen.active_mut(), "abc");
    screen.enter_alt();
    assert_eq!(screen.active().to_text(), "   ");
    screen.leave_alt();
    assert_eq!(screen.active().to_text(), "abc");
}
