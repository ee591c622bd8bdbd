use jetem::keys::{CoreAction, KeyInput, Mods, NamedKey};
use jetem::layout::SplitDir;
use jetem::pane::Rect;
use jetem::plugin::Registry;
use jetem::screen::MouseTracking;
use jetem::window::{
    cell_at, encode_key, encode_mouse, host_command, is_modifier_key, nearest_pane, overlay_key,
    panel_key, route_key, search_key, search_prompt, should_report, wrap_paste, FocusDir, HostCommand,
    HostRequest, KeyRoute, Modal, ModalKey, MouseKind, PaneGeom,
};

fn none() -> Mods {
    Mods::default()
}

#[test]
fn sgr_mouse_encoding() {
    assert_eq!(encode_mouse(MouseKind::Press, 0, 0, 0, true, none()), b"\x1b[<0;1;1M");
    assert_eq!(encode_mouse(MouseKind::Release, 0, 4, 2, true, none()), b"\x1b[<0;5;3m");
    assert_eq!(encode_mouse(MouseKind::WheelUp, 0, 0, 0, true, none()), b"\x1b[<64;1;1M");
    let ctrl = Mods { ctrl: true, ..Mods::default() };
    assert_eq!(encode_mouse(MouseKind::Press, 0, 0, 0, true, ctrl), b"\x1b[<16;1;1M");
    assert_eq!(encode_mouse(MouseKind::Motion, 0, 0, 0, true, none()), b"\x1b[<32;1;1M");
}

#[test]
fn legacy_mouse_encoding() {
    assert_eq!(encode_mouse(MouseKind::Press, 0, 0, 0, false, none()), b"\x1b[M \x21\x21");
    assert_eq!(encode_mouse(MouseKind::Release, 2, 0, 0, false, none()), b"\x1b[M#\x21\x21");
}

#[test]
fn bracketed_paste_wraps_and_sanitizes() {
    assert_eq!(wrap_paste("ls\n", false), b"ls\n");
    assert_eq!(wrap_paste("ls", true), b"\x1b[200~ls\x1b[201~");
    assert_eq!(wrap_paste("a\x1b[201~rm -rf /", true), b"\x1b[200~arm -rf /\x1b[201~");
}

#[test]
fn mouse_encoding_large_coordinates() {
    assert_eq!(encode_mouse(MouseKind::Press, 1, 299, 41, true, none()), b"\x1b[<1;300;42M");
    assert_eq!(encode_mouse(MouseKind::Press, 0, 300, 0, false, none()), b"\x1b[M \xff\x21");
    let all = Mods { ctrl: true, alt: true, shift: true, sup: false };
    assert_eq!(encode_mouse(MouseKind::WheelDown, 0, 0, 0, true, all), b"\x1b[<93;1;1M");
}

#[test]
fn keys_encode_to_terminal_bytes() {
    let ctrl = Mods { ctrl: true, ..Mods::default() };
    assert_eq!(encode_key(&KeyInput::Character("C".into()), ctrl), Some(vec![0x03]));
    assert_eq!(encode_key(&KeyInput::Character("é".into()), none()), Some("é".as_bytes().to_vec()));
    assert_eq!(encode_key(&KeyInput::Character("1".into()), ctrl), Some(b"1".to_vec()));
    assert_eq!(encode_key(&KeyInput::Named(NamedKey::ArrowUp), none()), Some(b"\x1b[A".to_vec()));
    assert_eq!(encode_key(&KeyInput::Named(NamedKey::Enter), none()), Some(vec![b'\r']));
    assert_eq!(encode_key(&KeyInput::Named(NamedKey::Backspace), none()), Some(vec![0x7f]));
    assert_eq!(encode_key(&KeyInput::Named(NamedKey::PageUp), none()), None);
    assert_eq!(encode_key(&KeyInput::Character(String::new()), ctrl), None);
    assert!(is_modifier_key(&KeyInput::Named(NamedKey::Shift)));
    assert!(!is_modifier_key(&KeyInput::Named(NamedKey::Tab)));
}

#[test]
fn mouse_reports_only_at_the_requested_level() {
    assert!(!should_report(true, MouseTracking::AnyEvent, MouseKind::Press, 0));
    assert!(!should_report(false, MouseTracking::Off, MouseKind::Press, 0));
    assert!(should_report(false, MouseTracking::Normal, MouseKind::Press, 0));
    assert!(!should_report(false, MouseTracking::Normal, MouseKind::Motion, 0));
    assert!(should_report(false, MouseTracking::ButtonEvent, MouseKind::Motion, 0));
    assert!(!should_report(false, MouseTracking::ButtonEvent, MouseKind::Motion, 3));
    assert!(should_report(false, MouseTracking::AnyEvent, MouseKind::Motion, 3));
}

#[test]
fn keys_route_by_mode() {
    let reg = Registry::default();
    let ctrl = Mods { ctrl: true, ..Mods::default() };
    let ctrl_shift = Mods { ctrl: true, shift: true, ..Mods::default() };
    let closed = Modal { panel: false, overlay: false, search: false };
    let a = KeyInput::Character("a".into());
    assert_eq!(route_key(&KeyInput::Named(NamedKey::Shift), ctrl, &reg, closed, false), KeyRoute::Ignore);
    assert_eq!(route_key(&a, ctrl, &reg, closed, false), KeyRoute::StartPrefix);
    assert_eq!(route_key(&a, none(), &reg, closed, true), KeyRoute::PrefixCommand);
    assert_eq!(route_key(&a, none(), &reg, closed, false), KeyRoute::Type);
    let c = KeyInput::Character("C".into());
    let open = Modal { panel: true, overlay: false, search: false };
    assert_eq!(route_key(&c, ctrl_shift, &reg, open, false), KeyRoute::Clipboard(CoreAction::Copy));
    assert_eq!(route_key(&a, none(), &reg, open, false), KeyRoute::Panel);
    let up = KeyInput::Named(NamedKey::PageUp);
    let shift = Mods { shift: true, ..Mods::default() };
    assert_eq!(route_key(&up, shift, &reg, closed, false), KeyRoute::Chord("shift+pageup".into()));
    let searching = Modal { panel: false, overlay: false, search: true };
    assert_eq!(route_key(&up, shift, &reg, searching, false), KeyRoute::Search);
}

fn request(method: &str) -> HostRequest {
    HostRequest {
        method: method.into(),
        dir: None,
        text: None,
        level: None,
        title: None,
        body: None,
        input: None,
        preset: None,
        has_patch: false,
    }
}

#[test]
fn host_requests_decide_actions() {
    assert_eq!(host_command(&request("host/splitPane")), HostCommand::SplitPane(SplitDir::LeftRight));
    let mut r = request("host/splitPane");
    r.dir = Some("topbottom".into());
    assert_eq!(host_command(&r), HostCommand::SplitPane(SplitDir::TopBottom));
    let mut r = request("host/focusPane");
    r.dir = Some("up".into());
    assert_eq!(host_command(&r), HostCommand::FocusPane(FocusDir::Up));
    r.dir = Some("sideways".into());
    assert_eq!(host_command(&r), HostCommand::Refuse);
    assert_eq!(host_command(&request("host/writeToFocusedPane")), HostCommand::Refuse);
    let mut r = request("host/log");
    r.text = Some("hi".into());
    assert_eq!(host_command(&r), HostCommand::Log { level: "info".into(), text: "hi".into() });
    let mut r = request("host/showPanel");
    r.body = Some("b".into());
    assert_eq!(
        host_command(&r),
        HostCommand::ShowPanel { title: String::new(), body: "b".into(), interactive: false }
    );
    assert_eq!(host_command(&request("host/nope")), HostCommand::Refuse);
    let mut r = request("host/setTheme");
    r.has_patch = true;
    assert_eq!(host_command(&r), HostCommand::SetTheme { preset: None, patch: true });
}

#[test]
fn focus_moves_to_the_nearest_pane_that_way() {
    let panes = vec![
        (0, Rect::new(0, 0, 100, 100)),
        (1, Rect::new(100, 0, 100, 50)),
        (2, Rect::new(100, 50, 100, 50)),
    ];
    assert_eq!(nearest_pane(&panes, 0, FocusDir::Right), Some(1));
    assert_eq!(nearest_pane(&panes, 0, FocusDir::Left), None);
    assert_eq!(nearest_pane(&panes, 2, FocusDir::Up), Some(1));
    assert_eq!(nearest_pane(&panes, 1, FocusDir::Left), Some(0));
    assert_eq!(nearest_pane(&panes, 9, FocusDir::Left), None);
}

#[test]
fn pointer_maps_to_pane_cells() {
    let panes = vec![
        PaneGeom { id: 0, rect: Rect::new(0, 0, 100, 100), rows: 5, cols: 10 },
        PaneGeom { id: 1, rect: Rect::new(102, 0, 100, 100), rows: 5, cols: 10 },
    ];
    assert_eq!(cell_at(&panes, 25, 45, 10, 20), Some((0, 2, 2)));
    assert_eq!(cell_at(&panes, 199, 99, 10, 20), Some((1, 4, 9)));
    assert_eq!(cell_at(&panes, 101, 10, 10, 20), None);
}

#[test]
fn search_prompt_shows_counts() {
    assert_eq!(search_prompt("foo", 2, 7), "/foo   (2/7)");
    assert_eq!(search_prompt("x", 0, 0), "/x   (no matches)");
    assert_eq!(search_prompt("", 10, 120), "/   (10/120)");
}

#[test]
fn paste_cannot_rebuild_an_end_bracket() {
    // Removing the inner end bracket brings `ESC[20` and `1~` together into a
    // new one; that one goes too.
    assert_eq!(wrap_paste("\x1b[20\x1b[201~1~", true), b"\x1b[200~\x1b[201~");
    assert_eq!(
        wrap_paste("x\x1b[2\x1b[20\x1b[201~1~01~y", true),
        b"\x1b[200~xy\x1b[201~"
    );
}

#[test]
fn modal_surfaces_map_keys() {
    let named = |k| KeyInput::Named(k);
    let ch = |s: &str| KeyInput::Character(s.to_string());
    assert_eq!(overlay_key(&named(NamedKey::Enter)), ModalKey::Accept);
    assert_eq!(overlay_key(&named(NamedKey::ArrowUp)), ModalKey::Move(-1));
    assert_eq!(overlay_key(&ch("gi")), ModalKey::Type("gi".into()));
    assert_eq!(overlay_key(&named(NamedKey::PageUp)), ModalKey::Nothing);
    assert_eq!(search_key(&named(NamedKey::Enter)), ModalKey::Move(1));
    assert_eq!(search_key(&named(NamedKey::Escape)), ModalKey::Close);
    assert_eq!(panel_key(&named(NamedKey::Enter), true), ModalKey::Accept);
    assert_eq!(panel_key(&named(NamedKey::Enter), false), ModalKey::Nothing);
    assert_eq!(panel_key(&named(NamedKey::Space), true), ModalKey::Type(" ".into()));
    assert_eq!(panel_key(&named(NamedKey::PageDown), false), ModalKey::Page(1));
    assert_eq!(panel_key(&ch("q"), false), ModalKey::Close);
    assert_eq!(panel_key(&ch("q"), true), ModalKey::Type("q".into()));
    assert_eq!(panel_key(&ch("x"), false), ModalKey::Nothing);
}
