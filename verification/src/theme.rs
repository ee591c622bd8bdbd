//! The color theme: every paint color in one place, with the original look as
//! the built-in default and two named presets. Colors are written as hex
//! strings in theme files (`fg = "#cccccc"`); reading files and merging partial
//! themes happens where the files are read.

use vstd::prelude::*;
use crate::text::{chars_of, is_white_space, trim_end_seq, trim_seq, trim_start_seq, trim_string};

verus! {

/// An RGB color.
#[derive(Clone, Copy, Debug, PartialEq, Eq, Structural)]
pub struct Col(pub u8, pub u8, pub u8);

impl Col {
    /// The packed `0x00RRGGBB` pixel of a color.
    pub open spec fn packed_spec(self) -> u32 {
        ((self.0 as u32) * 0x10000 + (self.1 as u32) * 0x100 + (self.2 as u32)) as u32
    }

    /// As an `(r, g, b)` tuple — the form the render primitives take.
    pub fn rgb(self) -> (t: (u8, u8, u8))
        ensures
            t == (self.0, self.1, self.2),
    {
        (self.0, self.1, self.2)
    }

    /// As a packed `0x00RRGGBB` pixel — for `fill`/`draw_border`.
    pub fn packed(self) -> (p: u32)
        ensures
            p == self.packed_spec(),
    {
        let (r, g, b) = (self.0, self.1, self.2);
        let p = ((r as u32) << 16) | ((g as u32) << 8) | (b as u32);
        assert(((r as u32) << 16) | ((g as u32) << 8) | (b as u32) == ((r as u32) * 0x10000 + (g as u32)
            * 0x100 + (b as u32)) as u32) by (bit_vector);
        p
    }
}

/// The value of a hex digit.
pub open spec fn hex_digit(c: char) -> Option<u8> {
    if '0' <= c && c <= '9' {
        Some((c as u32 - '0' as u32) as u8)
    } else if 'a' <= c && c <= 'f' {
        Some((c as u32 - 'a' as u32 + 10) as u8)
    } else if 'A' <= c && c <= 'F' {
        Some((c as u32 - 'A' as u32 + 10) as u8)
    } else {
        None
    }
}

/// A two-char hex byte as `u8::from_str_radix` reads it: two hex digits, or a
/// `+` sign and one digit.
pub open spec fn hex_pair(a: char, b: char) -> Option<u8> {
    match (hex_digit(a), hex_digit(b)) {
        (Some(x), Some(y)) => Some((x * 16 + y) as u8),
        (None, Some(y)) => if a == '+' { Some(y) } else { None },
        _ => None,
    }
}

/// The color a hex string denotes: `#rrggbb` or `rrggbb`, surrounding white
/// space ignored.
pub open spec fn parse_hex_spec(s: Seq<char>) -> Option<Col> {
    let t = trim_seq(s);
    let u = if t.len() > 0 && t[0] == '#' { t.drop_first() } else { t };
    if u.len() != 6 {
        None
    } else {
        match (hex_pair(u[0], u[1]), hex_pair(u[2], u[3]), hex_pair(u[4], u[5])) {
            (Some(r), Some(g), Some(b)) => Some(Col(r, g, b)),
            _ => None,
        }
    }
}

fn hex_digit_exec(c: char) -> (d: Option<u8>)
    ensures
        d == hex_digit(c),
{
    if '0' <= c && c <= '9' {
        Some((c as u32 - '0' as u32) as u8)
    } else if 'a' <= c && c <= 'f' {
        Some((c as u32 - 'a' as u32 + 10) as u8)
    } else if 'A' <= c && c <= 'F' {
        Some((c as u32 - 'A' as u32 + 10) as u8)
    } else {
        None
    }
}

fn hex_pair_exec(a: char, b: char) -> (v: Option<u8>)
    ensures
        v == hex_pair(a, b),
{
    match (hex_digit_exec(a), hex_digit_exec(b)) {
        (Some(x), Some(y)) => Some(x * 16 + y),
        (None, Some(y)) => if a == '+' { Some(y) } else { None },
        _ => None,
    }
}

/// Parse `#rrggbb` (or bare `rrggbb`), surrounding white space ignored.
pub fn parse_hex(s: &str) -> (c: Option<Col>)
    ensures
        c == parse_hex_spec(s@),
{
    let t = trim_string(s);
    let v = chars_of(t.as_str());
    let start: usize = if v.len() > 0 && v[0] == '#' { 1 } else { 0 };
    let ghost u = if v@.len() > 0 && v@[0] == '#' { v@.drop_first() } else { v@ };
    assert(u =~= v@.subrange(start as int, v@.len() as int));
    if v.len() - start != 6 {
        return None;
    }
    let r = hex_pair_exec(v[start], v[start + 1]);
    let g = hex_pair_exec(v[start + 2], v[start + 3]);
    let b = hex_pair_exec(v[start + 4], v[start + 5]);
    match (r, g, b) {
        (Some(r), Some(g), Some(b)) => Some(Col(r, g, b)),
        _ => None,
    }
}

/// The lowercase hex digit for a value below 16.
pub open spec fn hex_char(d: u8) -> char {
    if d < 10 {
        ((48 + d) as u8) as char
    } else {
        ((87 + d) as u8) as char
    }
}

fn hex_char_exec(d: u8) -> (c: char)
    requires
        d < 16,
    ensures
        c == hex_char(d),
{
    if d < 10 {
        (48 + d) as char
    } else {
        (87 + d) as char
    }
}

impl Col {
    /// The `#rrggbb` form of a color, in lowercase hex.
    pub open spec fn hex_spec(self) -> Seq<char> {
        seq![
            '#',
            hex_char(self.0 / 16),
            hex_char(self.0 % 16),
            hex_char(self.1 / 16),
            hex_char(self.1 % 16),
            hex_char(self.2 / 16),
            hex_char(self.2 % 16),
        ]
    }

    /// The `#rrggbb` form of a color, in lowercase hex: the form `parse_hex`
    /// reads back.
    pub fn hex(self) -> (s: String)
        ensures
            s@ == self.hex_spec(),
    {
        let mut s = String::new();
        s.push('#');
        s.push(hex_char_exec(self.0 / 16));
        s.push(hex_char_exec(self.0 % 16));
        s.push(hex_char_exec(self.1 / 16));
        s.push(hex_char_exec(self.1 % 16));
        s.push(hex_char_exec(self.2 / 16));
        s.push(hex_char_exec(self.2 % 16));
        assert(s@ =~= self.hex_spec());
        s
    }
}

proof fn lemma_hex_pair_of(v: u8)
    ensures
        hex_pair(hex_char(v / 16), hex_char(v % 16)) == Some(v),
{
    assert(hex_digit(hex_char(v / 16)) == Some(v / 16));
    assert(hex_digit(hex_char(v % 16)) == Some(v % 16));
    assert((v / 16) * 16 + v % 16 == v);
}

/// A color written in hex reads back as the same color, so a theme round-trips
/// through its text form unchanged.
pub proof fn law_hex_round_trips(c: Col)
    ensures
        parse_hex_spec(c.hex_spec()) == Some(c),
{
    let h = c.hex_spec();
    lemma_hex_pair_of(c.0);
    lemma_hex_pair_of(c.1);
    lemma_hex_pair_of(c.2);
    assert(!is_white_space(h[0]));
    assert(trim_start_seq(h) == h);
    assert(!is_white_space(h.last()));
    assert(trim_end_seq(h) == h);
    assert(h.drop_first() =~= seq![h[1], h[2], h[3], h[4], h[5], h[6]]);
}

#[derive(Clone, Copy, Debug, PartialEq, Eq)]
pub struct Terminal {
    pub fg: Col,
    pub bg: Col,
    pub selection: Col,
    pub palette: [Col; 16],
}

#[derive(Clone, Copy, Debug, PartialEq, Eq)]
pub struct Ui {
    pub divider: Col,
    pub focus_border: Col,
}

#[derive(Clone, Copy, Debug, PartialEq, Eq)]
pub struct Panel {
    pub bg: Col,
    pub title: Col,
    pub text: Col,
    pub hint: Col,
    pub sel: Col,
    pub input: Col,
    pub border: Col,
    pub header_fg: Col,
    pub header_bg: Col,
    pub stripe: Col,
}

#[derive(Clone, Copy, Debug, PartialEq, Eq)]
pub struct Recall {
    pub bg: Col,
    pub text: Col,
    pub dim: Col,
    pub sel_bg: Col,
    pub sel_fg: Col,
}

#[derive(Clone, Copy, Debug, PartialEq, Eq)]
pub struct Search {
    /// Background tint of every scrollback-search match.
    pub match_bg: Col,
    /// Background tint of the current (focused) match — brighter.
    pub current_bg: Col,
    /// Foreground of the `/query (n/total)` prompt bar.
    pub prompt: Col,
}

#[derive(Clone, Copy, Debug, PartialEq, Eq)]
pub struct Theme {
    pub terminal: Terminal,
    pub ui: Ui,
    pub panel: Panel,
    pub recall: Recall,
    pub search: Search,
}

pub open spec fn default_terminal() -> Terminal {
    Terminal {
        fg: Col(0xcc, 0xcc, 0xcc),
        bg: Col(0x10, 0x12, 0x18),
        selection: Col(38, 64, 102),
        palette: [
            Col(0x00, 0x00, 0x00),
            Col(0xaa, 0x00, 0x00),
            Col(0x00, 0xaa, 0x00),
            Col(0xaa, 0x55, 0x00),
            Col(0x00, 0x00, 0xaa),
            Col(0xaa, 0x00, 0xaa),
            Col(0x00, 0xaa, 0xaa),
            Col(0xaa, 0xaa, 0xaa),
            Col(0x55, 0x55, 0x55),
            Col(0xff, 0x55, 0x55),
            Col(0x55, 0xff, 0x55),
            Col(0xff, 0xff, 0x55),
            Col(0x55, 0x55, 0xff),
            Col(0xff, 0x55, 0xff),
            Col(0x55, 0xff, 0xff),
            Col(0xff, 0xff, 0xff),
        ],
    }
}

impl Default for Terminal {
    fn default() -> (t: Self)
        ensures
            t == default_terminal(),
    {
        Terminal {
            fg: Col(0xcc, 0xcc, 0xcc),
            bg: Col(0x10, 0x12, 0x18),
            selection: Col(38, 64, 102),
            palette: [
                Col(0x00, 0x00, 0x00),
                Col(0xaa, 0x00, 0x00),
                Col(0x00, 0xaa, 0x00),
                Col(0xaa, 0x55, 0x00),
                Col(0x00, 0x00, 0xaa),
                Col(0xaa, 0x00, 0xaa),
                Col(0x00, 0xaa, 0xaa),
                Col(0xaa, 0xaa, 0xaa),
                Col(0x55, 0x55, 0x55),
                Col(0xff, 0x55, 0x55),
                Col(0x55, 0xff, 0x55),
                Col(0xff, 0xff, 0x55),
                Col(0x55, 0x55, 0xff),
                Col(0xff, 0x55, 0xff),
                Col(0x55, 0xff, 0xff),
                Col(0xff, 0xff, 0xff),
            ],
        }
    }
}


pub open spec fn default_ui() -> Ui {
    Ui { divider: Col(0x1a, 0x1a, 0x22), focus_border: Col(0x5a, 0x9c, 0xe6) }
}

impl Default for Ui {
    fn default() -> (u: Self)
        ensures
            u == default_ui(),
    {
        Ui { divider: Col(0x1a, 0x1a, 0x22), focus_border: Col(0x5a, 0x9c, 0xe6) }
    }
}

pub open spec fn default_panel() -> Panel {
    Panel {
        bg: Col(24, 26, 34),
        title: Col(120, 180, 250),
        text: Col(210, 210, 220),
        hint: Col(120, 120, 135),
        sel: Col(50, 82, 122),
        input: Col(235, 235, 245),
        border: Col(0x5a, 0x9c, 0xe6),
        header_fg: Col(150, 200, 255),
        header_bg: Col(38, 44, 60),
        stripe: Col(30, 33, 43),
    }
}

impl Default for Panel {
    fn default() -> (p: Self)
        ensures
            p == default_panel(),
    {
        Panel {
            bg: Col(24, 26, 34),
            title: Col(120, 180, 250),
            text: Col(210, 210, 220),
            hint: Col(120, 120, 135),
            sel: Col(50, 82, 122),
            input: Col(235, 235, 245),
            border: Col(0x5a, 0x9c, 0xe6),
            header_fg: Col(150, 200, 255),
            header_bg: Col(38, 44, 60),
            stripe: Col(30, 33, 43),
        }
    }
}

pub open spec fn default_recall() -> Recall {
    Recall {
        bg: Col(28, 28, 36),
        text: Col(205, 205, 215),
        dim: Col(120, 120, 135),
        sel_bg: Col(90, 156, 230),
        sel_fg: Col(16, 18, 24),
    }
}

impl Default for Recall {
    fn default() -> (r: Self)
        ensures
            r == default_recall(),
    {
        Recall {
            bg: Col(28, 28, 36),
            text: Col(205, 205, 215),
            dim: Col(120, 120, 135),
            sel_bg: Col(90, 156, 230),
            sel_fg: Col(16, 18, 24),
        }
    }
}

pub open spec fn default_search() -> Search {
    Search {
        match_bg: Col(90, 74, 20),
        current_bg: Col(200, 160, 40),
        prompt: Col(235, 200, 120),
    }
}

impl Default for Search {
    fn default() -> (s: Self)
        ensures
            s == default_search(),
    {
        Search {
            match_bg: Col(90, 74, 20),  // dim amber
            current_bg: Col(200, 160, 40),  // bright amber
            prompt: Col(235, 200, 120),
        }
    }
}

/// The built-in default theme (the original look).
pub open spec fn default_theme() -> Theme {
    Theme {
        terminal: default_terminal(),
        ui: default_ui(),
        panel: default_panel(),
        recall: default_recall(),
        search: default_search(),
    }
}

impl Default for Theme {
    fn default() -> (t: Self)
        ensures
            t == default_theme(),
    {
        Theme {
            terminal: Terminal::default(),
            ui: Ui::default(),
            panel: Panel::default(),
            recall: Recall::default(),
            search: Search::default(),
        }
    }
}

/// The light preset: dark text on a near-white background, the ANSI palette
/// darkened to stay legible on light, every UI region re-tinted.
pub open spec fn light_theme() -> Theme {
    Theme {
        terminal: Terminal {
            fg: Col(0x2b, 0x2b, 0x2b),
            bg: Col(0xf7, 0xf7, 0xf2),
            selection: Col(0xbe, 0xd6, 0xff),
            palette: [
                Col(0x00, 0x00, 0x00),
                Col(0xc0, 0x1c, 0x28),
                Col(0x26, 0xa2, 0x69),
                Col(0xa2, 0x73, 0x4c),
                Col(0x12, 0x48, 0x8b),
                Col(0xa3, 0x47, 0xba),
                Col(0x0b, 0x8a, 0x8f),
                Col(0x50, 0x50, 0x50),
                Col(0x80, 0x80, 0x80),
                Col(0xe0, 0x1b, 0x24),
                Col(0x2e, 0xc2, 0x7e),
                Col(0xb5, 0x89, 0x00),
                Col(0x1a, 0x5f, 0xb4),
                Col(0xc0, 0x61, 0xcb),
                Col(0x10, 0xa4, 0xa8),
                Col(0x1a, 0x1a, 0x1a),
            ],
        },
        ui: Ui { divider: Col(0xd8, 0xd8, 0xd0), focus_border: Col(0x1a, 0x5f, 0xb4) },
        panel: Panel {
            bg: Col(0xff, 0xff, 0xfa),
            title: Col(0x12, 0x48, 0x8b),
            text: Col(0x2b, 0x2b, 0x2b),
            hint: Col(0x8a, 0x8a, 0x8a),
            sel: Col(0xbe, 0xd6, 0xff),
            input: Col(0x10, 0x10, 0x10),
            border: Col(0x1a, 0x5f, 0xb4),
            header_fg: Col(0x0d, 0x3a, 0x73),
            header_bg: Col(0xe6, 0xe9, 0xf0),
            stripe: Col(0xef, 0xef, 0xe8),
        },
        recall: Recall {
            bg: Col(0xff, 0xff, 0xfa),
            text: Col(0x2b, 0x2b, 0x2b),
            dim: Col(0x8a, 0x8a, 0x8a),
            sel_bg: Col(0x1a, 0x5f, 0xb4),
            sel_fg: Col(0xf7, 0xf7, 0xf2),
        },
        search: default_search(),
    }
}

/// Solarized Dark: the base03 background with the signature accent palette.
pub open spec fn solarized_dark_theme() -> Theme {
    let base03 = Col(0x00, 0x2b, 0x36);
    let base02 = Col(0x07, 0x36, 0x42);
    let base01 = Col(0x58, 0x6e, 0x75);
    let base0 = Col(0x83, 0x94, 0x96);
    let base1 = Col(0x93, 0xa1, 0xa1);
    let yellow = Col(0xb5, 0x89, 0x00);
    let orange = Col(0xcb, 0x4b, 0x16);
    let red = Col(0xdc, 0x32, 0x2f);
    let magenta = Col(0xd3, 0x36, 0x82);
    let violet = Col(0x6c, 0x71, 0xc4);
    let blue = Col(0x26, 0x8b, 0xd2);
    let cyan = Col(0x2a, 0xa1, 0x98);
    let green = Col(0x85, 0x99, 0x00);
    Theme {
        terminal: Terminal {
            fg: base0,
            bg: base03,
            selection: base02,
            palette: [
                base02,
                red,
                green,
                yellow,
                blue,
                magenta,
                cyan,
                base1,
                base01,
                orange,
                base01,
                base0,
                base0,
                violet,
                base1,
                Col(0xfd, 0xf6, 0xe3),
            ],
        },
        ui: Ui { divider: base02, focus_border: blue },
        panel: Panel {
            bg: base02,
            title: blue,
            text: base1,
            hint: base01,
            sel: Col(0x0e, 0x4b, 0x5a),
            input: Col(0xfd, 0xf6, 0xe3),
            border: blue,
            header_fg: cyan,
            header_bg: base03,
            stripe: base03,
        },
        recall: Recall { bg: base02, text: base1, dim: base01, sel_bg: blue, sel_fg: base03 },
        search: default_search(),
    }
}

impl Theme {
    /// The light preset.
    pub fn light() -> (t: Self)
        ensures
            t == light_theme(),
    {
        Theme {
            terminal: Terminal {
                fg: Col(0x2b, 0x2b, 0x2b),
                bg: Col(0xf7, 0xf7, 0xf2),
                selection: Col(0xbe, 0xd6, 0xff),
                palette: [
                    Col(0x00, 0x00, 0x00),
                    Col(0xc0, 0x1c, 0x28),
                    Col(0x26, 0xa2, 0x69),
                    Col(0xa2, 0x73, 0x4c),
                    Col(0x12, 0x48, 0x8b),
                    Col(0xa3, 0x47, 0xba),
                    Col(0x0b, 0x8a, 0x8f),
                    Col(0x50, 0x50, 0x50),
                    Col(0x80, 0x80, 0x80),
                    Col(0xe0, 0x1b, 0x24),
                    Col(0x2e, 0xc2, 0x7e),
                    Col(0xb5, 0x89, 0x00),
                    Col(0x1a, 0x5f, 0xb4),
                    Col(0xc0, 0x61, 0xcb),
                    Col(0x10, 0xa4, 0xa8),
                    Col(0x1a, 0x1a, 0x1a),
                ],
            },
            ui: Ui { divider: Col(0xd8, 0xd8, 0xd0), focus_border: Col(0x1a, 0x5f, 0xb4) },
            panel: Panel {
                bg: Col(0xff, 0xff, 0xfa),
                title: Col(0x12, 0x48, 0x8b),
                text: Col(0x2b, 0x2b, 0x2b),
                hint: Col(0x8a, 0x8a, 0x8a),
                sel: Col(0xbe, 0xd6, 0xff),
                input: Col(0x10, 0x10, 0x10),
                border: Col(0x1a, 0x5f, 0xb4),
                header_fg: Col(0x0d, 0x3a, 0x73),
                header_bg: Col(0xe6, 0xe9, 0xf0),
                stripe: Col(0xef, 0xef, 0xe8),
            },
            recall: Recall {
                bg: Col(0xff, 0xff, 0xfa),
                text: Col(0x2b, 0x2b, 0x2b),
                dim: Col(0x8a, 0x8a, 0x8a),
                sel_bg: Col(0x1a, 0x5f, 0xb4),
                sel_fg: Col(0xf7, 0xf7, 0xf2),
            },
            search: Search::default(),
        }
    }

    /// The Solarized Dark preset.
    pub fn solarized_dark() -> (t: Self)
        ensures
            t == solarized_dark_theme(),
    {
        let base03 = Col(0x00, 0x2b, 0x36);
        let base02 = Col(0x07, 0x36, 0x42);
        let base01 = Col(0x58, 0x6e, 0x75);
        let base0 = Col(0x83, 0x94, 0x96);
        let base1 = Col(0x93, 0xa1, 0xa1);
        let yellow = Col(0xb5, 0x89, 0x00);
        let orange = Col(0xcb, 0x4b, 0x16);
        let red = Col(0xdc, 0x32, 0x2f);
        let magenta = Col(0xd3, 0x36, 0x82);
        let violet = Col(0x6c, 0x71, 0xc4);
        let blue = Col(0x26, 0x8b, 0xd2);
        let cyan = Col(0x2a, 0xa1, 0x98);
        let green = Col(0x85, 0x99, 0x00);
        Theme {
            terminal: Terminal {
                fg: base0,
                bg: base03,
                selection: base02,
                palette: [
                    base02,
                    red,
                    green,
                    yellow,
                    blue,
                    magenta,
                    cyan,
                    base1,
                    base01,
                    orange,
                    base01,
                    base0,
                    base0,
                    violet,
                    base1,
                    Col(0xfd, 0xf6, 0xe3),
                ],
            },
            ui: Ui { divider: base02, focus_border: blue },
            panel: Panel {
                bg: base02,
                title: blue,
                text: base1,
                hint: base01,
                sel: Col(0x0e, 0x4b, 0x5a),
                input: Col(0xfd, 0xf6, 0xe3),
                border: blue,
                header_fg: cyan,
                header_bg: base03,
                stripe: base03,
            },
            recall: Recall { bg: base02, text: base1, dim: base01, sel_bg: blue, sel_fg: base03 },
            search: Search::default(),
        }
    }

    /// The built-in preset of a name: `default`, `light` or `solarized-dark`.
    pub fn builtin(name: &str) -> (t: Option<Self>)
        ensures
            t == (if name@ == "default"@ {
                Some(default_theme())
            } else if name@ == "light"@ {
                Some(light_theme())
            } else if name@ == "solarized-dark"@ {
                Some(solarized_dark_theme())
            } else {
                None
            }),
    {
        if crate::text::str_eq(name, "default") {
            Some(Theme::default())
        } else if crate::text::str_eq(name, "light") {
            Some(Theme::light())
        } else if crate::text::str_eq(name, "solarized-dark") {
            Some(Theme::solarized_dark())
        } else {
            None
        }
    }
}

// --- partial themes ---------------------------------------------------------

/// A partial terminal section: each color the patch names, `None` for the
/// ones it leaves alone.
#[derive(Clone, Copy, Debug, Default)]
pub struct TerminalPatch {
    pub fg: Option<Col>,
    pub bg: Option<Col>,
    pub selection: Option<Col>,
    pub palette: Option<[Col; 16]>,
}

#[derive(Clone, Copy, Debug, Default)]
pub struct UiPatch {
    pub divider: Option<Col>,
    pub focus_border: Option<Col>,
}

#[derive(Clone, Copy, Debug, Default)]
pub struct PanelPatch {
    pub bg: Option<Col>,
    pub title: Option<Col>,
    pub text: Option<Col>,
    pub hint: Option<Col>,
    pub sel: Option<Col>,
    pub input: Option<Col>,
    pub border: Option<Col>,
    pub header_fg: Option<Col>,
    pub header_bg: Option<Col>,
    pub stripe: Option<Col>,
}

#[derive(Clone, Copy, Debug, Default)]
pub struct RecallPatch {
    pub bg: Option<Col>,
    pub text: Option<Col>,
    pub dim: Option<Col>,
    pub sel_bg: Option<Col>,
    pub sel_fg: Option<Col>,
}

#[derive(Clone, Copy, Debug, Default)]
pub struct SearchPatch {
    pub match_bg: Option<Col>,
    pub current_bg: Option<Col>,
    pub prompt: Option<Col>,
}

/// A partial theme, as a live theme change names it: every color optional.
#[derive(Clone, Copy, Debug, Default)]
pub struct ThemePatch {
    pub terminal: TerminalPatch,
    pub ui: UiPatch,
    pub panel: PanelPatch,
    pub recall: RecallPatch,
    pub search: SearchPatch,
}

/// The patch's value where it names one, else the current one.
pub open spec fn pick<T>(p: Option<T>, cur: T) -> T {
    match p {
        Some(x) => x,
        None => cur,
    }
}

/// `t` with every color the patch names replaced, every other kept.
pub open spec fn patched_spec(t: Theme, p: ThemePatch) -> Theme {
    Theme {
        terminal: Terminal {
            fg: pick(p.terminal.fg, t.terminal.fg),
            bg: pick(p.terminal.bg, t.terminal.bg),
            selection: pick(p.terminal.selection, t.terminal.selection),
            palette: pick(p.terminal.palette, t.terminal.palette),
        },
        ui: Ui {
            divider: pick(p.ui.divider, t.ui.divider),
            focus_border: pick(p.ui.focus_border, t.ui.focus_border),
        },
        panel: Panel {
            bg: pick(p.panel.bg, t.panel.bg),
            title: pick(p.panel.title, t.panel.title),
            text: pick(p.panel.text, t.panel.text),
            hint: pick(p.panel.hint, t.panel.hint),
            sel: pick(p.panel.sel, t.panel.sel),
            input: pick(p.panel.input, t.panel.input),
            border: pick(p.panel.border, t.panel.border),
            header_fg: pick(p.panel.header_fg, t.panel.header_fg),
            header_bg: pick(p.panel.header_bg, t.panel.header_bg),
            stripe: pick(p.panel.stripe, t.panel.stripe),
        },
        recall: Recall {
            bg: pick(p.recall.bg, t.recall.bg),
            text: pick(p.recall.text, t.recall.text),
            dim: pick(p.recall.dim, t.recall.dim),
            sel_bg: pick(p.recall.sel_bg, t.recall.sel_bg),
            sel_fg: pick(p.recall.sel_fg, t.recall.sel_fg),
        },
        search: Search {
            match_bg: pick(p.search.match_bg, t.search.match_bg),
            current_bg: pick(p.search.current_bg, t.search.current_bg),
            prompt: pick(p.search.prompt, t.search.prompt),
        },
    }
}

fn pick_col(p: Option<Col>, cur: Col) -> (c: Col)
    ensures
        c == pick(p, cur),
{
    match p {
        Some(x) => x,
        None => cur,
    }
}

impl Theme {
    /// This theme with a partial theme merged onto it: the colors the patch
    /// names change, every other keeps its current value (not the default's).
    pub fn patched(&self, patch: &ThemePatch) -> (t: Theme)
        ensures
            t == patched_spec(*self, *patch),
    {
        let p = patch;
        Theme {
            terminal: Terminal {
                fg: pick_col(p.terminal.fg, self.terminal.fg),
                bg: pick_col(p.terminal.bg, self.terminal.bg),
                selection: pick_col(p.terminal.selection, self.terminal.selection),
                palette: match p.terminal.palette {
                    Some(pal) => pal,
                    None => self.terminal.palette,
                },
            },
            ui: Ui {
                divider: pick_col(p.ui.divider, self.ui.divider),
                focus_border: pick_col(p.ui.focus_border, self.ui.focus_border),
            },
            panel: Panel {
                bg: pick_col(p.panel.bg, self.panel.bg),
                title: pick_col(p.panel.title, self.panel.title),
                text: pick_col(p.panel.text, self.panel.text),
                hint: pick_col(p.panel.hint, self.panel.hint),
                sel: pick_col(p.panel.sel, self.panel.sel),
                input: pick_col(p.panel.input, self.panel.input),
                border: pick_col(p.panel.border, self.panel.border),
                header_fg: pick_col(p.panel.header_fg, self.panel.header_fg),
                header_bg: pick_col(p.panel.header_bg, self.panel.header_bg),
                stripe: pick_col(p.panel.stripe, self.panel.stripe),
            },
            recall: Recall {
                bg: pick_col(p.recall.bg, self.recall.bg),
                text: pick_col(p.recall.text, self.recall.text),
                dim: pick_col(p.recall.dim, self.recall.dim),
                sel_bg: pick_col(p.recall.sel_bg, self.recall.sel_bg),
                sel_fg: pick_col(p.recall.sel_fg, self.recall.sel_fg),
            },
            search: Search {
                match_bg: pick_col(p.search.match_bg, self.search.match_bg),
                current_bg: pick_col(p.search.current_bg, self.search.current_bg),
                prompt: pick_col(p.search.prompt, self.search.prompt),
            },
        }
    }
}

/// Applying the same patch twice changes nothing more than applying it once,
/// and a patch that names no color leaves the theme as it is.
pub proof fn law_patch_settles(t: Theme, p: ThemePatch)
    ensures
        patched_spec(patched_spec(t, p), p) == patched_spec(t, p),
        patched_spec(t, (ThemePatch {
            terminal: TerminalPatch { fg: None, bg: None, selection: None, palette: None },
            ui: UiPatch { divider: None, focus_border: None },
            panel: PanelPatch {
                bg: None,
                title: None,
                text: None,
                hint: None,
                sel: None,
                input: None,
                border: None,
                header_fg: None,
                header_bg: None,
                stripe: None,
            },
            recall: RecallPatch { bg: None, text: None, dim: None, sel_bg: None, sel_fg: None },
            search: SearchPatch { match_bg: None, current_bg: None, prompt: None },
        })) == t,
{
}

} // verus!