use jetem::theme::{parse_hex, Col, PanelPatch, TerminalPatch, Theme, ThemePatch};

#[test]
fn parses_hex_with_and_without_hash() {
    assert_eq!(parse_hex("#1a1a22"), Some(Col(26, 26, 34)));
    assert_eq!(parse_hex("ffffff"), Some(Col(255, 255, 255)));
    assert_eq!(parse_hex("#zzzzzz"), None);
    assert_eq!(parse_hex("#fff"), None);
}

#[test]
fn col_packs() {
    assert_eq!(Col(0x5a, 0x9c, 0xe6).packed(), 0x00_5a_9c_e6);
}

#[test]
fn preset_known_and_unknown() {
    assert!(Theme::builtin("default").is_some());
    assert!(Theme::builtin("light").is_some());
    assert!(Theme::builtin("solarized-dark").is_some());
    assert!(Theme::builtin("nope").is_none());
}

#[test]
fn parse_hex_trims_and_takes_sign_like_from_str_radix() {
    assert_eq!(parse_hex("  #A0b1C2 \n"), Some(Col(0xa0, 0xb1, 0xc2)));
    assert_eq!(parse_hex("+f+f+f"), Some(Col(15, 15, 15)));
    assert_eq!(parse_hex("#-f0000"), None);
    assert_eq!(parse_hex("#ééé"), None);
}

#[test]
fn presets_differ_from_the_default() {
    let d = Theme::default();
    let l = Theme::light();
    let s = Theme::solarized_dark();
    assert_ne!(d.terminal.bg, l.terminal.bg);
    assert_eq!(s.terminal.bg, Col(0x00, 0x2b, 0x36));
    assert_eq!(s.terminal.palette[15], Col(0xfd, 0xf6, 0xe3));
    assert_eq!(l.search, d.search);
    assert_eq!(d.terminal.palette[9], Col(0xff, 0x55, 0x55));
    assert_eq!(Col(1, 2, 3).rgb(), (1, 2, 3));
}

#[test]
fn hex_writes_lowercase_and_reads_back() {
    assert_eq!(Col(0x12, 0xab, 0xff).hex(), "#12abff");
    assert_eq!(Col(0, 0, 0).hex(), "#000000");
    for c in [Col(0x12, 0xab, 0xff), Col(0, 9, 10), Col(255, 254, 16)] {
        assert_eq!(parse_hex(&c.hex()), Some(c));
    }
    let t = Theme::solarized_dark();
    for c in t.terminal.palette {
        assert_eq!(parse_hex(&c.hex()), Some(c));
    }
}

#[test]
fn patched_merges_onto_current_not_default() {
    // Start from a non-default theme, patch only panel.title. The patched color
    // must change while an unrelated field keeps the current value.
    let base = Theme::light();
    assert_ne!(base.terminal.bg, Theme::default().terminal.bg);
    let patch = ThemePatch {
        panel: PanelPatch { title: parse_hex("#ff0000"), ..PanelPatch::default() },
        ..ThemePatch::default()
    };
    let t = base.patched(&patch);
    assert_eq!(t.panel.title, Col(0xff, 0x00, 0x00));
    assert_eq!(t.terminal.bg, base.terminal.bg);
    assert_eq!(t.panel.bg, base.panel.bg);
}

#[test]
fn bad_patch_falls_back_to_self() {
    // A color that does not parse makes no patch, and the theme stays as it is.
    let base = Theme::default();
    let t = match parse_hex("not-a-color") {
        Some(c) => base.patched(&ThemePatch {
            panel: PanelPatch { title: Some(c), ..PanelPatch::default() },
            ..ThemePatch::default()
        }),
        None => base,
    };
    assert_eq!(t, base);
}

#[test]
fn patch_replaces_the_palette_whole() {
    let base = Theme::default();
    let pal = Theme::solarized_dark().terminal.palette;
    let t = base.patched(&ThemePatch {
        terminal: TerminalPatch { palette: Some(pal), ..TerminalPatch::default() },
        ..ThemePatch::default()
    });
    assert_eq!(t.terminal.palette, pal);
    assert_eq!(t.terminal.fg, base.terminal.fg);
    assert_eq!(base.patched(&ThemePatch::default()), base);
}
