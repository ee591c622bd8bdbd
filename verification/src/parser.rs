//! Gives meaning to the escape-sequence callbacks that the byte-level
//! tokenizer produces (print this char, execute this control byte, dispatch this
//! CSI / ESC / OSC sequence) by mutating the screen and the block tracker.
//!
//! Parameters arrive as plain values: a CSI sequence's parameters are its
//! `;`-separated groups, each group the `:`-separated sub-parameters (never
//! empty); an OSC string's parameters are its `;`-separated byte strings.

use vstd::prelude::*;

use crate::block::{decode_command, BlockTracker};
use crate::cell::{Cell, Color, BLINK, BOLD, DIM, HIDDEN, ITALIC, REVERSE, STRIKETHROUGH, UNDERLINE};
use crate::grid::GridState;
use crate::screen::{Modes, MouseTracking, Screen, ScreenState};

verus! {

/// The screen (and the block tracker fed from the same stream) that escape
/// sequences act on.
pub struct Performer {
    pub screen: Screen,
    pub blocks: BlockTracker,
}

// --- CSI parameters ---------------------------------------------------------

/// Every parameter group has at least one sub-parameter.
pub open spec fn groups_wf(groups: Seq<Seq<u16>>) -> bool {
    forall|i: int| 0 <= i < groups.len() ==> #[trigger] groups[i].len() > 0
}

/// The first sub-parameter of group `i`, with 0 or absence meaning `default`.
pub open spec fn nth_param(groups: Seq<Seq<u16>>, i: int, default: nat) -> nat {
    if 0 <= i < groups.len() && groups[i][0] != 0 {
        groups[i][0] as nat
    } else {
        default
    }
}

/// A spec view of the groups as sequences.
pub open spec fn groups_view(groups: Seq<Vec<u16>>) -> Seq<Seq<u16>> {
    groups.map_values(|g: Vec<u16>| g@)
}

// --- SGR ----------------------------------------------------------------

/// Decode a `38`/`48` extended color starting at group `i`: the colon form
/// (`38:5:n`, `38:2:r:g:b` inside one group) or the semicolon form (`38;5;n`,
/// `38;2;r;g;b` across groups). Returns the color (if well-formed) and the
/// index of the last group consumed.
pub open spec fn ext_color(groups: Seq<Seq<u16>>, i: int) -> (Option<Color>, int) {
    let g = groups[i];
    if g.len() >= 3 && g[1] == 5 {
        (Some(Color::Indexed(g[2] as u8)), i)
    } else if g.len() >= 5 && g[1] == 2 {
        (Some(Color::Rgb(g[2] as u8, g[3] as u8, g[4] as u8)), i)
    } else if i + 1 >= groups.len() {
        (None, i)
    } else if groups[i + 1][0] == 5 {
        if i + 2 >= groups.len() {
            (None, i)
        } else {
            (Some(Color::Indexed(groups[i + 2][0] as u8)), i + 2)
        }
    } else if groups[i + 1][0] == 2 {
        if i + 4 >= groups.len() {
            (None, i)
        } else {
            (
                Some(
                    Color::Rgb(
                        groups[i + 2][0] as u8,
                        groups[i + 3][0] as u8,
                        groups[i + 4][0] as u8,
                    ),
                ),
                i + 4,
            )
        }
    } else {
        (None, i)
    }
}

/// The pen after applying one SGR code `code` (not 38/48).
pub open spec fn sgr_simple(pen: Cell, code: u16) -> Cell {
    if code == 0 {
        Cell { fg: Color::Default, bg: Color::Default, attrs: 0, ..pen }
    } else if code == 1 {
        Cell { attrs: pen.attrs | BOLD, ..pen }
    } else if code == 2 {
        Cell { attrs: pen.attrs | DIM, ..pen }
    } else if code == 3 {
        Cell { attrs: pen.attrs | ITALIC, ..pen }
    } else if code == 4 {
        Cell { attrs: pen.attrs | UNDERLINE, ..pen }
    } else if code == 5 {
        Cell { attrs: pen.attrs | BLINK, ..pen }
    } else if code == 7 {
        Cell { attrs: pen.attrs | REVERSE, ..pen }
    } else if code == 8 {
        Cell { attrs: pen.attrs | HIDDEN, ..pen }
    } else if code == 9 {
        Cell { attrs: pen.attrs | STRIKETHROUGH, ..pen }
    } else if code == 22 {
        Cell { attrs: pen.attrs & !(BOLD | DIM), ..pen }
    } else if code == 23 {
        Cell { attrs: pen.attrs & !ITALIC, ..pen }
    } else if code == 24 {
        Cell { attrs: pen.attrs & !UNDERLINE, ..pen }
    } else if code == 25 {
        Cell { attrs: pen.attrs & !BLINK, ..pen }
    } else if code == 27 {
        Cell { attrs: pen.attrs & !REVERSE, ..pen }
    } else if code == 28 {
        Cell { attrs: pen.attrs & !HIDDEN, ..pen }
    } else if code == 29 {
        Cell { attrs: pen.attrs & !STRIKETHROUGH, ..pen }
    } else if 30 <= code <= 37 {
        Cell { fg: Color::Indexed((code - 30) as u8), ..pen }
    } else if code == 39 {
        Cell { fg: Color::Default, ..pen }
    } else if 40 <= code <= 47 {
        Cell { bg: Color::Indexed((code - 40) as u8), ..pen }
    } else if code == 49 {
        Cell { bg: Color::Default, ..pen }
    } else if 90 <= code <= 97 {
        Cell { fg: Color::Indexed((code - 90 + 8) as u8), ..pen }
    } else if 100 <= code <= 107 {
        Cell { bg: Color::Indexed((code - 100 + 8) as u8), ..pen }
    } else {
        pen
    }
}

/// The pen after applying the SGR groups from `i` on.
pub open spec fn sgr_from(pen: Cell, groups: Seq<Seq<u16>>, i: int) -> Cell
    decreases groups.len() - i,
{
    if i < 0 || i >= groups.len() {
        pen
    } else {
        let code = groups[i][0];
        if code == 38 || code == 48 {
            let (c, last) = ext_color(groups, i);
            let pen2 = match c {
                Some(col) => if code == 38 {
                    Cell { fg: col, ..pen }
                } else {
                    Cell { bg: col, ..pen }
                },
                None => pen,
            };
            if last >= i {
                sgr_from(pen2, groups, last + 1)
            } else {
                pen2
            }
        } else {
            sgr_from(sgr_simple(pen, code), groups, i + 1)
        }
    }
}

/// SGR: no groups resets the pen, otherwise the groups apply left to right.
pub open spec fn sgr_pen(pen: Cell, groups: Seq<Seq<u16>>) -> Cell {
    if groups.len() == 0 {
        Cell { fg: Color::Default, bg: Color::Default, attrs: 0, ..pen }
    } else {
        sgr_from(pen, groups, 0)
    }
}

// --- CSI ----------------------------------------------------------------

/// The screen after a private-mode (`?`) CSI: `h` sets, anything else resets,
/// mode `25` cursor visibility, `47/1047/1049` the alternate screen,
/// `1000/1002/1003` the mouse tracking level, `1006` SGR mouse encoding,
/// `2004` bracketed paste. Other modes are ignored.
pub open spec fn private_mode_effect(s: ScreenState, groups: Seq<Seq<u16>>, action: char) -> ScreenState {
    let mode: u16 = if groups.len() > 0 { groups[0][0] } else { 0 };
    let set = action == 'h';
    if mode == 25 {
        s.with_active(GridState { cursor_visible: set, ..s.active() })
    } else if mode == 47 || mode == 1047 || mode == 1049 {
        if set {
            s.entered_alt()
        } else {
            s.left_alt()
        }
    } else if mode == 1000 || mode == 1002 || mode == 1003 {
        let level = if !set {
            MouseTracking::Off
        } else if mode == 1000 {
            MouseTracking::Normal
        } else if mode == 1002 {
            MouseTracking::ButtonEvent
        } else {
            MouseTracking::AnyEvent
        };
        ScreenState { modes: Modes { mouse: level, ..s.modes }, ..s }
    } else if mode == 1006 {
        ScreenState { modes: Modes { mouse_sgr: set, ..s.modes }, ..s }
    } else if mode == 2004 {
        ScreenState { modes: Modes { bracketed_paste: set, ..s.modes }, ..s }
    } else {
        s
    }
}

/// The active grid after an ordinary CSI sequence with final byte `action`.
/// Counts default to 1 and positions are 1-based on the wire.
pub open spec fn csi_grid_effect(g: GridState, groups: Seq<Seq<u16>>, action: char) -> GridState {
    let n = nth_param(groups, 0, 1);
    if action == 'A' {
        g.moved_to(g.cursor_row - n, g.cursor_col as int)
    } else if action == 'B' || action == 'e' {
        g.moved_to((g.cursor_row + n) as int, g.cursor_col as int)
    } else if action == 'C' || action == 'a' {
        g.moved_to(g.cursor_row as int, (g.cursor_col + n) as int)
    } else if action == 'D' {
        g.moved_to(g.cursor_row as int, g.cursor_col - n)
    } else if action == 'E' {
        g.moved_to((g.cursor_row + n) as int, 0)
    } else if action == 'F' {
        g.moved_to(if g.cursor_row >= n { g.cursor_row - n } else { 0 }, 0)
    } else if action == 'G' || action == '`' {
        g.moved_to(g.cursor_row as int, n - 1)
    } else if action == 'd' {
        g.moved_to(n - 1, g.cursor_col as int)
    } else if action == 'H' || action == 'f' {
        g.moved_to(n - 1, nth_param(groups, 1, 1) - 1)
    } else if action == 'J' {
        g.erased_in_display(nth_param(groups, 0, 0) as u16)
    } else if action == 'K' {
        g.erased_in_line(nth_param(groups, 0, 0) as u16)
    } else if action == '@' {
        g.chars_inserted(n)
    } else if action == 'P' {
        g.chars_deleted(n)
    } else if action == 'X' {
        g.chars_erased(n)
    } else if action == 's' {
        GridState { saved_cursor: Some((g.cursor_row, g.cursor_col)), ..g }
    } else if action == 'u' {
        match g.saved_cursor {
            Some((r, c)) => g.moved_to(r as int, c as int),
            None => g.moved_to(0, 0),
        }
    } else if action == 'm' {
        GridState { pen: sgr_pen(g.pen, groups), ..g }
    } else {
        g
    }
}

/// The screen after a CSI sequence.
pub open spec fn csi_effect(
    s: ScreenState,
    groups: Seq<Seq<u16>>,
    intermediates: Seq<u8>,
    action: char,
) -> ScreenState {
    if intermediates.len() > 0 && intermediates[0] == 63 {
        private_mode_effect(s, groups, action)
    } else {
        s.with_active(csi_grid_effect(s.active(), groups, action))
    }
}

/// The screen after a C0 control byte: LF/VT/FF line feed, CR, TAB, BS.
pub open spec fn execute_effect(s: ScreenState, byte: u8) -> ScreenState {
    let g = s.active();
    if byte == 10 || byte == 11 || byte == 12 {
        s.with_active(g.line_fed())
    } else if byte == 13 {
        s.with_active(g.carriage_returned())
    } else if byte == 9 {
        s.with_active(g.tabbed())
    } else if byte == 8 {
        s.with_active(g.backspaced())
    } else {
        s
    }
}

// --- OSC ----------------------------------------------------------------

/// Decimal value of an all-digit byte string.
pub open spec fn digits_value(d: Seq<u8>) -> nat
    decreases d.len(),
{
    if d.len() == 0 {
        0
    } else {
        digits_value(d.drop_last()) * 10 + (d.last() - 48) as nat
    }
}

pub open spec fn all_digits(d: Seq<u8>) -> bool {
    forall|i: int| 0 <= i < d.len() ==> 48 <= #[trigger] d[i] <= 57
}

/// What `str::parse::<i32>` gives for the text `b`: an optional `+`/`-` sign
/// then at least one ASCII digit, with the value in `i32` range.
pub open spec fn parse_i32_spec(b: Seq<u8>) -> Option<i32> {
    let neg = b.len() > 0 && b[0] == 45;
    let d = if b.len() > 0 && (b[0] == 45 || b[0] == 43) { b.drop_first() } else { b };
    if d.len() == 0 || !all_digits(d) {
        None
    } else {
        let v: int = if neg { -(digits_value(d) as int) } else { digits_value(d) as int };
        if i32::MIN <= v <= i32::MAX {
            Some(v as i32)
        } else {
            None
        }
    }
}

/// What an OSC string asks of the block tracker.
pub enum OscAction {
    PromptStart,
    CommandStart,
    /// `133;C;<base64>` with a decodable command.
    OutputStartWith(Seq<char>),
    /// `133;C` without a usable payload: read the command off the grid.
    OutputStartFromGrid,
    CommandEnd(Option<i32>),
    SetCwd(Seq<u8>),
    Ignore,
}

pub open spec fn osc_action(params: Seq<Seq<u8>>) -> OscAction {
    if params.len() > 0 && params[0] == seq![49u8, 51u8, 51u8] {
        if params.len() > 1 && params[1] == seq![65u8] {
            OscAction::PromptStart
        } else if params.len() > 1 && params[1] == seq![66u8] {
            OscAction::CommandStart
        } else if params.len() > 1 && params[1] == seq![67u8] {
            if params.len() > 2 {
                match crate::block::b64_decode(params[2]) {
                    Some(b) => if vstd::utf8::valid_utf8(b) {
                        OscAction::OutputStartWith(vstd::utf8::decode_utf8(b))
                    } else {
                        OscAction::OutputStartFromGrid
                    },
                    None => OscAction::OutputStartFromGrid,
                }
            } else {
                OscAction::OutputStartFromGrid
            }
        } else if params.len() > 1 && params[1] == seq![68u8] {
            OscAction::CommandEnd(if params.len() > 2 { parse_i32_spec(params[2]) } else { None })
        } else {
            OscAction::Ignore
        }
    } else if params.len() > 1 && params[0] == seq![55u8] {
        OscAction::SetCwd(params[1])
    } else {
        OscAction::Ignore
    }
}

/// Parse an OSC exit-code payload like `str::parse::<i32>` does.
pub fn parse_i32(b: &[u8]) -> (r: Option<i32>)
    ensures
        r == parse_i32_spec(b@),
{
    let neg = b.len() > 0 && b[0] == 45;
    let start: usize = if b.len() > 0 && (b[0] == 45 || b[0] == 43) { 1 } else { 0 };
    let ghost d = if b@.len() > 0 && (b@[0] == 45 || b@[0] == 43) { b@.drop_first() } else { b@ };
    assert(d =~= b@.subrange(start as int, b@.len() as int));
    if start >= b.len() {
        return None;
    }
    let limit: u64 = 2147483648;
    let mut acc: u64 = 0;
    let mut i = start;
    while i < b.len()
        invariant
            start <= i <= b@.len(),
            d =~= b@.subrange(start as int, b@.len() as int),
            d == (if b@.len() > 0 && (b@[0] == 45 || b@[0] == 43) { b@.drop_first() } else { b@ }),
            d.len() > 0,
            neg == (b@.len() > 0 && b@[0] == 45),
            all_digits(b@.subrange(start as int, i as int)),
            acc == digits_value(b@.subrange(start as int, i as int)),
            acc <= limit,
            limit == 2147483648,
        decreases b.len() - i,
    {
        let c = b[i];
        assert(b@.subrange(start as int, i + 1).drop_last() =~= b@.subrange(start as int, i as int));
        if c < 48 || c > 57 {
            assert(d[i - start] == c);
            assert(!all_digits(d));
            assert(parse_i32_spec(b@) is None);
            return None;
        }
        acc = acc * 10 + (c - 48) as u64;
        i += 1;
        if acc > limit {
            proof {
                lemma_digits_monotone(d, i - start);
                assert(d.subrange(0, i - start) =~= b@.subrange(start as int, i as int));
                if all_digits(d) {
                    assert(digits_value(d) > 2147483648);
                }
                assert(parse_i32_spec(b@) is None);
            }
            return None;
        }
    }
    assert(b@.subrange(start as int, i as int) =~= d);
    if neg {
        Some((0 - acc as i64) as i32)
    } else if acc < limit {
        Some(acc as i32)
    } else {
        None
    }
}

/// A longer digit string is worth at least as much as its prefix.
proof fn lemma_digits_monotone(d: Seq<u8>, k: int)
    requires
        0 <= k <= d.len(),
    ensures
        all_digits(d) ==> digits_value(d.subrange(0, k)) <= digits_value(d),
    decreases d.len() - k,
{
    if k < d.len() {
        lemma_digits_monotone(d, k + 1);
        assert(d.subrange(0, k + 1).drop_last() =~= d.subrange(0, k));
    } else {
        assert(d.subrange(0, k) =~= d);
    }
}

fn bytes_eq(a: &[u8], b: &[u8]) -> (r: bool)
    ensures
        r == (a@ == b@),
{
    if a.len() != b.len() {
        return false;
    }
    let mut i: usize = 0;
    while i < a.len()
        invariant
            i <= a@.len(),
            a@.len() == b@.len(),
            forall|j: int| 0 <= j < i ==> a@[j] == b@[j],
        decreases a.len() - i,
    {
        if a[i] != b[i] {
            return false;
        }
        i += 1;
    }
    assert(a@ =~= b@);
    true
}

/// A spec view of OSC parameters.
pub open spec fn osc_view(params: Seq<Vec<u8>>) -> Seq<Seq<u8>> {
    params.map_values(|p: Vec<u8>| p@)
}

impl Performer {
    pub open spec fn wf(&self) -> bool {
        self.screen.wf()
    }

    /// A fresh `rows`×`cols` screen and an empty block tracker.
    pub fn new(rows: usize, cols: usize) -> (p: Self)
        requires
            rows >= 1,
            cols >= 1,
        ensures
            p.wf(),
            !p.screen@.alt_active,
            p.screen@.primary == crate::grid::Grid::new_state(rows, cols),
            p.blocks.open_block() is None,
            p.blocks.history_view() == Seq::<crate::block::Block>::empty(),
    {
        Performer { screen: Screen::new(rows, cols), blocks: BlockTracker::new_in_memory() }
    }

    /// A printable character arrived: print it and capture it as block output.
    pub fn print(&mut self, c: char)
        requires
            old(self).wf(),
        ensures
            final(self).wf(),
            final(self).screen@ == old(self).screen@.with_active(old(self).screen@.active().printed(c)),
            BlockTracker::feed_output_post(&old(self).blocks, &final(self).blocks, c),
    {
        self.screen.active_mut().print(c);
        self.blocks.feed_output(c);
    }

    /// A C0 control byte (newline, tab, …). A line feed is also captured as
    /// block output.
    pub fn execute(&mut self, byte: u8)
        requires
            old(self).wf(),
        ensures
            final(self).wf(),
            final(self).screen@ == execute_effect(old(self).screen@, byte),
            byte == 10 || byte == 11 || byte == 12 ==> BlockTracker::feed_output_post(
                &old(self).blocks,
                &final(self).blocks,
                '\n',
            ),
            !(byte == 10 || byte == 11 || byte == 12) ==> final(self).blocks == old(self).blocks,
    {
        if byte == 10 || byte == 11 || byte == 12 {
            self.screen.active_mut().line_feed();
            self.blocks.feed_output('\n');
        } else if byte == 13 {
            self.screen.active_mut().carriage_return();
        } else if byte == 9 {
            self.screen.active_mut().tab();
        } else if byte == 8 {
            self.screen.active_mut().backspace();
        }
    }

    /// A bare escape sequence `ESC <byte>`: `7` saves and `8` restores the
    /// cursor; anything else (charset/keypad designations) is a no-op.
    pub fn esc_dispatch(&mut self, byte: u8)
        requires
            old(self).wf(),
        ensures
            final(self).wf(),
            final(self).blocks == old(self).blocks,
            final(self).screen@ == if byte == 55 {
                csi_effect(old(self).screen@, Seq::empty(), Seq::empty(), 's')
            } else if byte == 56 {
                csi_effect(old(self).screen@, Seq::empty(), Seq::empty(), 'u')
            } else {
                old(self).screen@
            },
    {
        if byte == 55 {
            self.screen.active_mut().save_cursor();
        } else if byte == 56 {
            self.screen.active_mut().restore_cursor();
        }
    }

    /// The first sub-parameter of the `i`th group, 0 or absent meaning `default`.
    fn nth(groups: &[Vec<u16>], i: usize, default: usize) -> (n: usize)
        requires
            groups_wf(groups_view(groups@)),
        ensures
            n == nth_param(groups_view(groups@), i as int, default as nat),
    {
        if i < groups.len() {
            assert(groups_view(groups@)[i as int] == groups@[i as int]@);
            assert(groups@[i as int]@.len() > 0);
            if groups[i][0] != 0 {
                return groups[i][0] as usize;
            }
        }
        default
    }

    /// A complete CSI sequence: `ESC [ params… action`.
    pub fn csi_dispatch(&mut self, groups: &[Vec<u16>], intermediates: &[u8], action: char)
        requires
            old(self).wf(),
            groups_wf(groups_view(groups@)),
        ensures
            final(self).wf(),
            final(self).blocks == old(self).blocks,
            final(self).screen@ == csi_effect(old(self).screen@, groups_view(groups@), intermediates@, action),
    {
        let ghost gv = groups_view(groups@);
        if intermediates.len() > 0 && intermediates[0] == 63 {
            let mode: u16 = if groups.len() > 0 {
                assert(gv[0] == groups@[0]@);
                groups[0][0]
            } else {
                0
            };
            let set = action == 'h';
            if mode == 25 {
                self.screen.active_mut().set_cursor_visible(set);
            } else if mode == 47 || mode == 1047 || mode == 1049 {
                if set {
                    self.screen.enter_alt();
                } else {
                    self.screen.leave_alt();
                }
            } else if mode == 1000 || mode == 1002 || mode == 1003 {
                let level = if !set {
                    MouseTracking::Off
                } else if mode == 1000 {
                    MouseTracking::Normal
                } else if mode == 1002 {
                    MouseTracking::ButtonEvent
                } else {
                    MouseTracking::AnyEvent
                };
                let m = self.screen.modes();
                self.screen.set_modes(Modes { mouse: level, ..m });
            } else if mode == 1006 {
                let m = self.screen.modes();
                self.screen.set_modes(Modes { mouse_sgr: set, ..m });
            } else if mode == 2004 {
                let m = self.screen.modes();
                self.screen.set_modes(Modes { bracketed_paste: set, ..m });
            }
            return;
        }
        let n = Self::nth(groups, 0, 1);
        if action == 'A' {
            self.screen.active_mut().move_up(n);
        } else if action == 'B' || action == 'e' {
            self.screen.active_mut().move_down(n);
        } else if action == 'C' || action == 'a' {
            self.screen.active_mut().move_right(n);
        } else if action == 'D' {
            self.screen.active_mut().move_left(n);
        } else if action == 'E' {
            self.screen.active_mut().cursor_next_line(n);
        } else if action == 'F' {
            self.screen.active_mut().cursor_prev_line(n);
        } else if action == 'G' || action == '`' {
            self.screen.active_mut().move_to_col(n - 1);
        } else if action == 'd' {
            self.screen.active_mut().move_to_row(n - 1);
        } else if action == 'H' || action == 'f' {
            let c = Self::nth(groups, 1, 1);
            self.screen.active_mut().move_to(n - 1, c - 1);
        } else if action == 'J' {
            let m = Self::nth(groups, 0, 0);
            self.screen.active_mut().erase_in_display(m as u16);
        } else if action == 'K' {
            let m = Self::nth(groups, 0, 0);
            self.screen.active_mut().erase_in_line(m as u16);
        } else if action == '@' {
            self.screen.active_mut().insert_chars(n);
        } else if action == 'P' {
            self.screen.active_mut().delete_chars(n);
        } else if action == 'X' {
            self.screen.active_mut().erase_chars(n);
        } else if action == 's' {
            self.screen.active_mut().save_cursor();
        } else if action == 'u' {
            self.screen.active_mut().restore_cursor();
        } else if action == 'm' {
            self.sgr(groups);
        }
    }

    /// SGR — Select Graphic Rendition: update the active pen's colors and
    /// attributes.
    fn sgr(&mut self, groups: &[Vec<u16>])
        requires
            old(self).wf(),
            groups_wf(groups_view(groups@)),
        ensures
            final(self).wf(),
            final(self).blocks == old(self).blocks,
            final(self).screen@ == old(self).screen@.with_active(
                GridState {
                    pen: sgr_pen(old(self).screen@.active().pen, groups_view(groups@)),
                    ..old(self).screen@.active()
                },
            ),
    {
        if groups.len() == 0 {
            self.reset_pen();
            return;
        }
        let ghost gv = groups_view(groups@);
        let pen0 = self.screen.active().pen();
        let mut pen = pen0;
        let mut i: usize = 0;
        while i < groups.len()
            invariant
                0 <= i <= groups@.len(),
                gv == groups_view(groups@),
                groups_wf(gv),
                sgr_from(pen0, gv, 0) == sgr_from(pen, gv, i as int),
            decreases groups.len() - i,
        {
            assert(gv[i as int] == groups@[i as int]@);
            let code = groups[i][0];
            if code == 38 || code == 48 {
                let (c, last) = extended_color(groups, i);
                match c {
                    Some(col) => {
                        if code == 38 {
                            pen = Cell { fg: col, ..pen };
                        } else {
                            pen = Cell { bg: col, ..pen };
                        }
                    },
                    None => {},
                }
                i = last;
            } else {
                pen = sgr_code(pen, code);
            }
            i += 1;
        }
        self.screen.active_mut().set_pen(pen);
    }

    /// Reset the active pen's colors and attributes.
    fn reset_pen(&mut self)
        requires
            old(self).wf(),
        ensures
            final(self).wf(),
            final(self).blocks == old(self).blocks,
            final(self).screen@ == old(self).screen@.with_active(
                GridState {
                    pen: Cell {
                        fg: Color::Default,
                        bg: Color::Default,
                        attrs: 0,
                        ..old(self).screen@.active().pen
                    },
                    ..old(self).screen@.active()
                },
            ),
    {
        let pen = self.screen.active().pen();
        self.screen.active_mut().set_pen(Cell { fg: Color::Default, bg: Color::Default, attrs: 0, ..pen });
    }

    /// OSC strings: `133` semantic-prompt marks drive the block tracker, `7`
    /// reports the working directory; everything else is ignored. The screen is
    /// never changed.
    pub fn osc_dispatch(&mut self, params: &[Vec<u8>])
        requires
            old(self).wf(),
        ensures
            final(self).wf(),
            final(self).screen@ == old(self).screen@,
            match osc_action(osc_view(params@)) {
                OscAction::PromptStart => BlockTracker::prompt_start_post(&old(self).blocks, &final(self).blocks),
                OscAction::CommandStart => BlockTracker::command_start_post(
                    &old(self).blocks,
                    &final(self).blocks,
                    old(self).screen@.active().cursor_row as usize,
                    old(self).screen@.active().cursor_col as usize,
                ),
                OscAction::OutputStartWith(cmd) => BlockTracker::output_start_post(
                    &old(self).blocks,
                    &final(self).blocks,
                    cmd,
                ),
                OscAction::OutputStartFromGrid => BlockTracker::output_start_post(
                    &old(self).blocks,
                    &final(self).blocks,
                    match old(self).blocks.command_mark() {
                        Some((r, c)) => old(self).screen@.active().text_between(
                            (r as nat, c as nat),
                            (old(self).screen@.active().cursor_row, old(self).screen@.active().cursor_col),
                        ),
                        None => Seq::<char>::empty(),
                    },
                ),
                OscAction::CommandEnd(code) => BlockTracker::command_end_post(
                    &old(self).blocks,
                    &final(self).blocks,
                    code,
                ),
                OscAction::SetCwd(uri) => BlockTracker::set_cwd_post(&old(self).blocks, &final(self).blocks, uri),
                OscAction::Ignore => final(self).blocks == old(self).blocks,
            },
    {
        let ghost pv = osc_view(params@);
        if params.len() == 0 {
            return;
        }
        assert(pv[0] == params@[0]@);
        let osc133: [u8; 3] = [49u8, 51u8, 51u8];
        let mark_a: [u8; 1] = [65u8];
        let mark_b: [u8; 1] = [66u8];
        let mark_c: [u8; 1] = [67u8];
        let mark_d: [u8; 1] = [68u8];
        let osc7: [u8; 1] = [55u8];
        assert(osc133@ =~= seq![49u8, 51u8, 51u8]);
        assert(mark_a@ =~= seq![65u8]);
        assert(mark_b@ =~= seq![66u8]);
        assert(mark_c@ =~= seq![67u8]);
        assert(mark_d@ =~= seq![68u8]);
        assert(osc7@ =~= seq![55u8]);
        if bytes_eq(params[0].as_slice(), &osc133) {
            if params.len() < 2 {
                return;
            }
            assert(pv[1] == params@[1]@);
            let second = params[1].as_slice();
            if bytes_eq(second, &mark_a) {
                self.blocks.prompt_start();
            } else if bytes_eq(second, &mark_b) {
                let g = self.screen.active();
                let (r, c) = (g.cursor_row(), g.cursor_col());
                self.blocks.command_start(r, c);
            } else if bytes_eq(second, &mark_c) {
                let decoded = if params.len() > 2 {
                    assert(pv[2] == params@[2]@);
                    decode_command(params[2].as_slice())
                } else {
                    None
                };
                match decoded {
                    Some(cmd) => self.blocks.output_start_with_command(cmd),
                    None => self.blocks.output_start(self.screen.active()),
                }
            } else if bytes_eq(second, &mark_d) {
                let code = if params.len() > 2 {
                    assert(pv[2] == params@[2]@);
                    parse_i32(params[2].as_slice())
                } else {
                    None
                };
                self.blocks.command_end(code);
            }
        } else if bytes_eq(params[0].as_slice(), &osc7) {
            if params.len() > 1 {
                assert(pv[1] == params@[1]@);
                self.blocks.set_cwd_from_uri(params[1].as_slice());
            }
        }
    }
}

/// The pen after one SGR code (not 38/48).
fn sgr_code(pen: Cell, code: u16) -> (p: Cell)
    ensures
        p == sgr_simple(pen, code),
{
    if code == 0 {
        Cell { fg: Color::Default, bg: Color::Default, attrs: 0, ..pen }
    } else if code == 1 {
        Cell { attrs: pen.attrs | BOLD, ..pen }
    } else if code == 2 {
        Cell { attrs: pen.attrs | DIM, ..pen }
    } else if code == 3 {
        Cell { attrs: pen.attrs | ITALIC, ..pen }
    } else if code == 4 {
        Cell { attrs: pen.attrs | UNDERLINE, ..pen }
    } else if code == 5 {
        Cell { attrs: pen.attrs | BLINK, ..pen }
    } else if code == 7 {
        Cell { attrs: pen.attrs | REVERSE, ..pen }
    } else if code == 8 {
        Cell { attrs: pen.attrs | HIDDEN, ..pen }
    } else if code == 9 {
        Cell { attrs: pen.attrs | STRIKETHROUGH, ..pen }
    } else if code == 22 {
        Cell { attrs: pen.attrs & !(BOLD | DIM), ..pen }
    } else if code == 23 {
        Cell { attrs: pen.attrs & !ITALIC, ..pen }
    } else if code == 24 {
        Cell { attrs: pen.attrs & !UNDERLINE, ..pen }
    } else if code == 25 {
        Cell { attrs: pen.attrs & !BLINK, ..pen }
    } else if code == 27 {
        Cell { attrs: pen.attrs & !REVERSE, ..pen }
    } else if code == 28 {
        Cell { attrs: pen.attrs & !HIDDEN, ..pen }
    } else if code == 29 {
        Cell { attrs: pen.attrs & !STRIKETHROUGH, ..pen }
    } else if 30 <= code && code <= 37 {
        Cell { fg: Color::Indexed((code - 30) as u8), ..pen }
    } else if code == 39 {
        Cell { fg: Color::Default, ..pen }
    } else if 40 <= code && code <= 47 {
        Cell { bg: Color::Indexed((code - 40) as u8), ..pen }
    } else if code == 49 {
        Cell { bg: Color::Default, ..pen }
    } else if 90 <= code && code <= 97 {
        Cell { fg: Color::Indexed((code - 90 + 8) as u8), ..pen }
    } else if 100 <= code && code <= 107 {
        Cell { bg: Color::Indexed((code - 100 + 8) as u8), ..pen }
    } else {
        pen
    }
}

/// Decode a `38`/`48` extended color at group `i` (see [`ext_color`]).
pub fn extended_color(groups: &[Vec<u16>], i: usize) -> (r: (Option<Color>, usize))
    requires
        i < groups@.len(),
        groups_wf(groups_view(groups@)),
    ensures
        r.0 == ext_color(groups_view(groups@), i as int).0,
        r.1 as int == ext_color(groups_view(groups@), i as int).1,
{
    let ghost gv = groups_view(groups@);
    assert(gv[i as int] == groups@[i as int]@);
    let g = &groups[i];
    if g.len() >= 3 && g[1] == 5 {
        return (Some(Color::Indexed(g[2] as u8)), i);
    }
    if g.len() >= 5 && g[1] == 2 {
        return (Some(Color::Rgb(g[2] as u8, g[3] as u8, g[4] as u8)), i);
    }
    if groups.len() - i <= 1 {
        return (None, i);
    }
    assert(gv[i + 1] == groups@[i + 1]@);
    assert(groups@[i + 1]@.len() > 0);
    let mode = groups[i + 1][0];
    if mode == 5 {
        if groups.len() - i <= 2 {
            return (None, i);
        }
        assert(gv[i + 2] == groups@[i + 2]@);
        assert(groups@[i + 2]@.len() > 0);
        (Some(Color::Indexed(groups[i + 2][0] as u8)), i + 2)
    } else if mode == 2 {
        if groups.len() - i <= 4 {
            return (None, i);
        }
        assert(gv[i + 2] == groups@[i + 2]@);
        assert(gv[i + 3] == groups@[i + 3]@);
        assert(gv[i + 4] == groups@[i + 4]@);
        assert(groups@[i + 2]@.len() > 0);
        assert(groups@[i + 3]@.len() > 0);
        assert(groups@[i + 4]@.len() > 0);
        (
            Some(Color::Rgb(groups[i + 2][0] as u8, groups[i + 3][0] as u8, groups[i + 4][0] as u8)),
            i + 4,
        )
    } else {
        (None, i)
    }
}

/// The count a cursor sequence carries: its first parameter, with 0 or none
/// meaning 1.
pub open spec fn move_count(groups: Seq<Seq<u16>>, i: int) -> nat {
    if 0 <= i < groups.len() && groups[i].len() > 0 && groups[i][0] > 0 {
        groups[i][0] as nat
    } else {
        1
    }
}

/// Cursor-movement sequences move the cursor of the shown buffer as their
/// names say, stopping at the screen's edges, and change nothing else of it:
/// `CSI n A` up n rows, `CSI n B` down, `CSI n C` right, `CSI n D` left (the
/// other coordinate kept), and `CSI r;c H` to row r, column c (1-based).
pub proof fn law_cursor_sequences_move_as_named(s: ScreenState, groups: Seq<Seq<u16>>)
    requires
        s.wf(),
        groups_wf(groups),
    ensures
        ({
            let g = s.active();
            let k = move_count(groups, 0);
            let last_row = (g.rows - 1) as nat;
            let last_col = (g.cols - 1) as nat;
            let up = csi_effect(s, groups, Seq::empty(), 'A').active();
            let down = csi_effect(s, groups, Seq::empty(), 'B').active();
            let right = csi_effect(s, groups, Seq::empty(), 'C').active();
            let left = csi_effect(s, groups, Seq::empty(), 'D').active();
            let to = csi_effect(s, groups, Seq::empty(), 'H').active();
            &&& up.cursor_row == (if g.cursor_row >= k { g.cursor_row - k } else { 0 })
            &&& up.cursor_row <= g.cursor_row
            &&& up.cursor_col == g.cursor_col
            &&& down.cursor_row == (if g.cursor_row + k <= last_row { g.cursor_row + k } else { last_row })
            &&& down.cursor_row >= g.cursor_row
            &&& down.cursor_col == g.cursor_col
            &&& right.cursor_col == (if g.cursor_col + k <= last_col { g.cursor_col + k } else { last_col })
            &&& right.cursor_row == g.cursor_row
            &&& left.cursor_col == (if g.cursor_col >= k { g.cursor_col - k } else { 0 })
            &&& left.cursor_row == g.cursor_row
            &&& to.cursor_row == (if move_count(groups, 0) - 1 <= last_row {
                (move_count(groups, 0) - 1) as nat
            } else {
                last_row
            })
            &&& to.cursor_col == (if move_count(groups, 1) - 1 <= last_col {
                (move_count(groups, 1) - 1) as nat
            } else {
                last_col
            })
            &&& up.lines == g.lines && down.lines == g.lines && right.lines == g.lines
            &&& left.lines == g.lines && to.lines == g.lines
            &&& up.scrollback == g.scrollback && down.scrollback == g.scrollback
        }),
{
    assert(Seq::<u8>::empty().len() == 0);
}

/// The control bytes move the cursor as they are named: CR to column 0 of
/// the same row; BS one column left, stopping at column 0; HT to the next tab
/// stop (a column that is a multiple of 8 with none skipped, or the last
/// column); LF one row down, or at the bottom row the rows scroll up by one:
/// the top row goes to the end of the history, each other row moves up, and
/// the cursor stays on the bottom row. The column is kept by all but CR, BS
/// and HT.
pub proof fn law_control_bytes_move_as_named(s: ScreenState)
    requires
        s.wf(),
    ensures
        ({
            let g = s.active();
            let cr = execute_effect(s, 13).active();
            let bs = execute_effect(s, 8).active();
            let ht = execute_effect(s, 9).active();
            let lf = execute_effect(s, 10).active();
            &&& cr.cursor_col == 0 && cr.cursor_row == g.cursor_row && cr.lines == g.lines
            &&& bs.cursor_col == (if g.cursor_col > 0 { g.cursor_col - 1 } else { 0 })
            &&& bs.cursor_row == g.cursor_row && bs.lines == g.lines
            &&& ht.cursor_row == g.cursor_row && ht.lines == g.lines
            &&& g.cursor_col < ht.cursor_col || g.cursor_col == ht.cursor_col == g.cols - 1
            &&& ht.cursor_col == g.cols - 1 || crate::grid::tab_stop(ht.cursor_col)
            &&& forall|m: nat| g.cursor_col < m < ht.cursor_col ==> !#[trigger] crate::grid::tab_stop(m)
            &&& lf.cursor_col == g.cursor_col
            &&& g.cursor_row + 1 < g.rows ==> lf.cursor_row == g.cursor_row + 1 && lf.lines == g.lines
            &&& g.cursor_row + 1 == g.rows ==> {
                &&& lf.cursor_row == g.cursor_row
                &&& lf.lines.len() == g.lines.len()
                &&& forall|r: int| 0 <= r < g.rows - 1 ==> #[trigger] lf.lines[r] == g.lines[r + 1]
                &&& (g.max_scrollback > 0 ==> lf.scrollback.last() == g.lines[0])
            }
        }),
{
    crate::grid::law_tab_goes_to_next_stop(s.active());
    let g = s.active();
    if g.cursor_row + 1 == g.rows {
        let sb = g.scrollback.push(g.lines[0]);
        if sb.len() > g.max_scrollback && g.max_scrollback > 0 {
            let k = crate::grid::keep_last(sb, g.max_scrollback);
            assert(k.len() == g.max_scrollback);
            assert(k[k.len() - 1] == sb[sb.len() - 1]);
        }
    }
}

/// `n` differs from `o` only in having the flags `set` on and `clear` off.
pub open spec fn flags_changed(o: u8, n: u8, set: u8, clear: u8) -> bool {
    &&& n & set == set
    &&& n & clear == 0
    &&& n & !(set | clear) == o & !(set | clear)
}

proof fn lemma_flag_set(x: u8, f: u8)
    ensures
        flags_changed(x, x | f, f, 0),
{
    assert((x | f) & f == f && (x | f) & 0 == 0 && (x | f) & !(f | 0) == x & !(f | 0)) by (bit_vector);
}

proof fn lemma_flag_clear(x: u8, f: u8)
    ensures
        flags_changed(x, x & !f, 0, f),
{
    assert((x & !f) & 0 == 0 && (x & !f) & f == 0 && (x & !f) & !(0 | f) == x & !(0 | f)) by (bit_vector);
}

/// One SGR code applied alone.
pub open spec fn sgr_one(pen: Cell, code: u16) -> Cell {
    sgr_pen(pen, seq![seq![code]])
}

/// Each SGR attribute code turns on its own attribute (1 bold, 2 dim,
/// 3 italic, 4 underline, 5 blink, 7 reverse, 8 hidden, 9 strike-through) and
/// its reset turns it off (22 bold and dim, 23, 24, 25, 27, 28, 29), leaving
/// every other attribute, both colors and the glyph as they were.
pub proof fn law_sgr_attributes(pen: Cell)
    ensures
        flags_changed(pen.attrs, sgr_one(pen, 1).attrs, BOLD, 0),
        flags_changed(pen.attrs, sgr_one(pen, 2).attrs, DIM, 0),
        flags_changed(pen.attrs, sgr_one(pen, 3).attrs, ITALIC, 0),
        flags_changed(pen.attrs, sgr_one(pen, 4).attrs, UNDERLINE, 0),
        flags_changed(pen.attrs, sgr_one(pen, 5).attrs, BLINK, 0),
        flags_changed(pen.attrs, sgr_one(pen, 7).attrs, REVERSE, 0),
        flags_changed(pen.attrs, sgr_one(pen, 8).attrs, HIDDEN, 0),
        flags_changed(pen.attrs, sgr_one(pen, 9).attrs, STRIKETHROUGH, 0),
        flags_changed(pen.attrs, sgr_one(pen, 22).attrs, 0, BOLD | DIM),
        flags_changed(pen.attrs, sgr_one(pen, 23).attrs, 0, ITALIC),
        flags_changed(pen.attrs, sgr_one(pen, 24).attrs, 0, UNDERLINE),
        flags_changed(pen.attrs, sgr_one(pen, 25).attrs, 0, BLINK),
        flags_changed(pen.attrs, sgr_one(pen, 27).attrs, 0, REVERSE),
        flags_changed(pen.attrs, sgr_one(pen, 28).attrs, 0, HIDDEN),
        flags_changed(pen.attrs, sgr_one(pen, 29).attrs, 0, STRIKETHROUGH),
        forall|c: u16|
            (1 <= c <= 9 && c != 6) || (22 <= c <= 29 && c != 26) ==> (#[trigger] sgr_one(pen, c)).fg
                == pen.fg && sgr_one(pen, c).bg == pen.bg && sgr_one(pen, c).ch == pen.ch,
{
    reveal_with_fuel(sgr_from, 2);
    let x = pen.attrs;
    lemma_flag_set(x, BOLD);
    lemma_flag_set(x, DIM);
    lemma_flag_set(x, ITALIC);
    lemma_flag_set(x, UNDERLINE);
    lemma_flag_set(x, BLINK);
    lemma_flag_set(x, REVERSE);
    lemma_flag_set(x, HIDDEN);
    lemma_flag_set(x, STRIKETHROUGH);
    lemma_flag_clear(x, BOLD | DIM);
    lemma_flag_clear(x, ITALIC);
    lemma_flag_clear(x, UNDERLINE);
    lemma_flag_clear(x, BLINK);
    lemma_flag_clear(x, REVERSE);
    lemma_flag_clear(x, HIDDEN);
    lemma_flag_clear(x, STRIKETHROUGH);
    assert forall|c: u16|
        (1 <= c <= 9 && c != 6) || (22 <= c <= 29 && c != 26) implies (#[trigger] sgr_one(pen, c)).fg
            == pen.fg && sgr_one(pen, c).bg == pen.bg && sgr_one(pen, c).ch == pen.ch by {
        assert(seq![seq![c]].len() == 1 && seq![seq![c]][0][0] == c);
    }
}

/// The color codes: 30–37 and 90–97 set the foreground to ANSI color 0–7 and
/// 8–15, 40–47 and 100–107 the background likewise, 39 and 49 restore the
/// default, 0 (or no code) resets both colors and every attribute;
/// `38;5;n` / `48;5;n` pick 256-color `n` and `38;2;r;g;b` / `48;2;r;g;b`
/// a truecolor, with semicolons or colons. The glyph is kept.
pub proof fn law_sgr_colors(pen: Cell, c: u16, n: u16, r: u16, g: u16, b: u16)
    ensures
        30 <= c <= 37 ==> sgr_one(pen, c) == (Cell { fg: Color::Indexed((c - 30) as u8), ..pen }),
        90 <= c <= 97 ==> sgr_one(pen, c) == (Cell { fg: Color::Indexed((c - 90 + 8) as u8), ..pen }),
        40 <= c <= 47 ==> sgr_one(pen, c) == (Cell { bg: Color::Indexed((c - 40) as u8), ..pen }),
        100 <= c <= 107 ==> sgr_one(pen, c) == (Cell { bg: Color::Indexed((c - 100 + 8) as u8), ..pen }),
        sgr_one(pen, 39) == (Cell { fg: Color::Default, ..pen }),
        sgr_one(pen, 49) == (Cell { bg: Color::Default, ..pen }),
        sgr_one(pen, 0) == (Cell { ch: pen.ch, fg: Color::Default, bg: Color::Default, attrs: 0 }),
        sgr_pen(pen, Seq::empty()) == (Cell { ch: pen.ch, fg: Color::Default, bg: Color::Default, attrs: 0 }),
        sgr_pen(pen, seq![seq![38u16], seq![5u16], seq![n]]) == (Cell { fg: Color::Indexed(n as u8), ..pen }),
        sgr_pen(pen, seq![seq![48u16, 5, n]]) == (Cell { bg: Color::Indexed(n as u8), ..pen }),
        sgr_pen(pen, seq![seq![38u16], seq![2u16], seq![r], seq![g], seq![b]]) == (Cell {
            fg: Color::Rgb(r as u8, g as u8, b as u8),
            ..pen
        }),
        sgr_pen(pen, seq![seq![48u16, 2, r, g, b]]) == (Cell { bg: Color::Rgb(r as u8, g as u8, b as u8), ..pen }),
{
    reveal_with_fuel(sgr_from, 2);
    let s1 = seq![seq![38u16], seq![5u16], seq![n]];
    assert(s1.len() == 3 && s1[0][0] == 38 && s1[1][0] == 5 && s1[2][0] == n && s1[0].len() == 1);
    let s2 = seq![seq![48u16, 5, n]];
    assert(s2[0].len() == 3 && s2[0][1] == 5 && s2[0][2] == n && s2[0][0] == 48);
    let s3 = seq![seq![38u16], seq![2u16], seq![r], seq![g], seq![b]];
    assert(s3.len() == 5 && s3[0][0] == 38 && s3[1][0] == 2 && s3[2][0] == r && s3[3][0] == g
        && s3[4][0] == b && s3[0].len() == 1);
    let s4 = seq![seq![48u16, 2, r, g, b]];
    assert(s4[0].len() == 5 && s4[0][1] == 2 && s4[0][2] == r && s4[0][3] == g && s4[0][4] == b
        && s4[0][0] == 48);
    assert(seq![seq![c]][0][0] == c);
    assert(seq![seq![39u16]][0][0] == 39);
    assert(seq![seq![49u16]][0][0] == 49);
    assert(seq![seq![0u16]][0][0] == 0);
}

/// The screen after the private-mode sequence `CSI ? m h` (`set`) or
/// `CSI ? m l`.
pub open spec fn private_mode(s: ScreenState, m: u16, set: bool) -> ScreenState {
    csi_effect(s, seq![seq![m]], seq![63u8], if set { 'h' } else { 'l' })
}

/// The private modes switch what their numbers name, and nothing else:
/// `?25` shows or hides the cursor; `?47`, `?1047` and `?1049` enter the
/// alternate buffer (fresh and blank, the cursor home, the primary buffer
/// kept; already there, nothing changes) or return to the primary buffer;
/// `?1000`, `?1002` and `?1003` turn mouse reporting on at their own level
/// (presses, drags, all motion) and reset turns it off; `?1006` the SGR
/// mouse encoding and `?2004` bracketed paste on or off. Other modes change
/// nothing.
pub proof fn law_private_modes_switch_as_named(s: ScreenState, set: bool)
    requires
        s.wf(),
    ensures
        ({
            let cur = private_mode(s, 25, set);
            &&& cur.active().cursor_visible == set
            &&& cur.active().lines == s.active().lines
            &&& cur.active().cursor_row == s.active().cursor_row
            &&& cur.active().cursor_col == s.active().cursor_col
            &&& cur.alt_active == s.alt_active && cur.modes == s.modes
        }),
        forall|m: u16|
            (m == 47 || m == 1047 || m == 1049) ==> {
                let r = #[trigger] private_mode(s, m, set);
                &&& r.alt_active == set
                &&& r.primary == s.primary
                &&& r.modes == s.modes
                &&& (!set ==> r.alt == s.alt)
                &&& (set && s.alt_active ==> r == s)
                &&& (set && !s.alt_active ==> {
                    &&& r.alt.cursor_row == 0 && r.alt.cursor_col == 0
                    &&& r.alt.rows == s.alt.rows && r.alt.cols == s.alt.cols
                    &&& r.alt.lines.len() == s.alt.rows
                    &&& forall|i: int, j: int|
                        0 <= i < r.alt.rows && 0 <= j < r.alt.cols ==> #[trigger] r.alt.lines[i][j]
                            == crate::cell::default_cell()
                })
            },
        private_mode(s, 1000, set).modes.mouse == (if set { MouseTracking::Normal } else { MouseTracking::Off }),
        private_mode(s, 1002, set).modes.mouse == (if set { MouseTracking::ButtonEvent } else { MouseTracking::Off }),
        private_mode(s, 1003, set).modes.mouse == (if set { MouseTracking::AnyEvent } else { MouseTracking::Off }),
        forall|m: u16|
            (m == 1000 || m == 1002 || m == 1003) ==> {
                let r = #[trigger] private_mode(s, m, set);
                &&& r.modes.mouse_sgr == s.modes.mouse_sgr
                &&& r.modes.bracketed_paste == s.modes.bracketed_paste
                &&& r.primary == s.primary && r.alt == s.alt && r.alt_active == s.alt_active
            },
        private_mode(s, 1006, set) == (ScreenState { modes: Modes { mouse_sgr: set, ..s.modes }, ..s }),
        private_mode(s, 2004, set) == (ScreenState { modes: Modes { bracketed_paste: set, ..s.modes }, ..s }),
        forall|m: u16|
            !(m == 25 || m == 47 || m == 1047 || m == 1049 || m == 1000 || m == 1002 || m == 1003
                || m == 1006 || m == 2004) ==> #[trigger] private_mode(s, m, set) == s,
{
    assert(seq![63u8].len() > 0 && seq![63u8][0] == 63);
    assert(seq![seq![25u16]][0][0] == 25);
    assert(seq![seq![1000u16]][0][0] == 1000);
    assert(seq![seq![1002u16]][0][0] == 1002);
    assert(seq![seq![1003u16]][0][0] == 1003);
    assert(seq![seq![1006u16]][0][0] == 1006);
    assert(seq![seq![2004u16]][0][0] == 2004);
}

/// The remaining cursor sequences: `CSI n G` goes to column n of the same
/// row, `CSI n d` to row n of the same column (both 1-based), `CSI n E` down
/// n rows and `CSI n F` up n rows, each to column 0; all stop at the edges
/// and leave the cells alone.
pub proof fn law_line_and_column_sequences(s: ScreenState, groups: Seq<Seq<u16>>)
    requires
        s.wf(),
        groups_wf(groups),
    ensures
        ({
            let g = s.active();
            let k = move_count(groups, 0);
            let last_row = (g.rows - 1) as nat;
            let last_col = (g.cols - 1) as nat;
            let col = csi_effect(s, groups, Seq::empty(), 'G').active();
            let row = csi_effect(s, groups, Seq::empty(), 'd').active();
            let next = csi_effect(s, groups, Seq::empty(), 'E').active();
            let prev = csi_effect(s, groups, Seq::empty(), 'F').active();
            &&& col.cursor_col == (if k - 1 <= last_col { (k - 1) as nat } else { last_col })
            &&& col.cursor_row == g.cursor_row && col.lines == g.lines
            &&& row.cursor_row == (if k - 1 <= last_row { (k - 1) as nat } else { last_row })
            &&& row.cursor_col == g.cursor_col && row.lines == g.lines
            &&& next.cursor_row == (if g.cursor_row + k <= last_row { g.cursor_row + k } else { last_row })
            &&& next.cursor_col == 0 && next.lines == g.lines
            &&& prev.cursor_row == (if g.cursor_row >= k { g.cursor_row - k } else { 0 })
            &&& prev.cursor_col == 0 && prev.lines == g.lines
        }),
{
    assert(Seq::<u8>::empty().len() == 0);
}

/// Saving the cursor (`CSI s`, also `ESC 7`) and restoring it later
/// (`CSI u`, also `ESC 8`) brings it back to where it was saved, however it
/// moved in between; restoring with nothing saved sends it home. Neither
/// touches a cell.
pub proof fn law_restore_returns_to_saved(s: ScreenState, groups: Seq<Seq<u16>>, action: char)
    requires
        s.wf(),
        groups_wf(groups),
        action == 'A' || action == 'B' || action == 'C' || action == 'D' || action == 'E'
            || action == 'F' || action == 'G' || action == 'd' || action == 'H',
    ensures
        ({
            let e = Seq::<u8>::empty();
            let saved = csi_effect(s, Seq::empty(), e, 's');
            let moved = csi_effect(saved, groups, e, action);
            let back = csi_effect(moved, Seq::empty(), e, 'u').active();
            &&& back.cursor_row == s.active().cursor_row
            &&& back.cursor_col == s.active().cursor_col
            &&& back.lines == s.active().lines
        }),
        s.active().saved_cursor is None ==> ({
            let home = csi_effect(s, Seq::empty(), Seq::empty(), 'u').active();
            home.cursor_row == 0 && home.cursor_col == 0 && home.lines == s.active().lines
        }),
{
    assert(Seq::<u8>::empty().len() == 0);
}

/// The erase sequences blank what their parameter names (no parameter
/// meaning 0): `CSI p K` on the cursor's row, from the cursor on (0), up to
/// and including it (1) or all of it (2); `CSI p J` on the screen, from the
/// cursor on (0), up to and including it (1) or all of it (2, 3). Erased
/// cells take the pen's background; nothing else changes, not the cursor.
pub proof fn law_erase_sequences_blank_as_named(s: ScreenState, p: u16)
    requires
        s.wf(),
    ensures
        ({
            let g = s.active();
            let (r, c) = (g.cursor_row as int, g.cursor_col as int);
            let line = csi_effect(s, seq![seq![p]], Seq::empty(), 'K').active();
            let line0 = csi_effect(s, Seq::empty(), Seq::empty(), 'K').active();
            let disp = csi_effect(s, seq![seq![p]], Seq::empty(), 'J').active();
            let disp0 = csi_effect(s, Seq::empty(), Seq::empty(), 'J').active();
            &&& (p <= 2 ==> line.cursor_row == g.cursor_row && line.cursor_col == g.cursor_col
                && forall|i: int, j: int|
                0 <= i < g.rows && 0 <= j < g.cols ==> #[trigger] line.lines[i][j] == if i == r && (p == 2
                    || (p == 0 && j >= c) || (p == 1 && j <= c)) {
                    crate::grid::erase_blank(g)
                } else {
                    g.lines[i][j]
                })
            &&& (forall|i: int, j: int|
                0 <= i < g.rows && 0 <= j < g.cols ==> #[trigger] line0.lines[i][j] == if i == r && j >= c {
                    crate::grid::erase_blank(g)
                } else {
                    g.lines[i][j]
                })
            &&& (p <= 3 ==> disp.cursor_row == g.cursor_row && disp.cursor_col == g.cursor_col
                && forall|i: int, j: int|
                0 <= i < g.rows && 0 <= j < g.cols ==> #[trigger] disp.lines[i][j] == if p >= 2 || (p == 0 && (
                i > r || (i == r && j >= c))) || (p == 1 && (i < r || (i == r && j <= c))) {
                    crate::grid::erase_blank(g)
                } else {
                    g.lines[i][j]
                })
            &&& (forall|i: int, j: int|
                0 <= i < g.rows && 0 <= j < g.cols ==> #[trigger] disp0.lines[i][j] == if i > r || (i == r
                    && j >= c) {
                    crate::grid::erase_blank(g)
                } else {
                    g.lines[i][j]
                })
        }),
{
    assert(Seq::<u8>::empty().len() == 0);
    assert(seq![seq![p]][0][0] == p);
    let g = s.active();
    if p <= 2 {
        crate::grid::law_erase_in_line_blanks_its_span(g, p);
    }
    if p <= 3 {
        crate::grid::law_erase_in_display_blanks_its_span(g, p);
    }
    crate::grid::law_erase_in_line_blanks_its_span(g, 0);
    crate::grid::law_erase_in_display_blanks_its_span(g, 0);
}

/// The in-line editing sequences work on the cursor's row from the cursor
/// on, n cells at a time (n from the first parameter, 0 or none meaning 1):
/// `CSI n @` opens n blank cells, pushing the rest right and off the edge;
/// `CSI n P` deletes n cells, pulling the rest left and blanking the end;
/// `CSI n X` blanks n cells in place. Cells left of the cursor, other rows
/// and the cursor itself stay.
pub proof fn law_char_edits_as_named(s: ScreenState, groups: Seq<Seq<u16>>)
    requires
        s.wf(),
        groups_wf(groups),
    ensures
        ({
            let g = s.active();
            let k = move_count(groups, 0) as int;
            let (r, c) = (g.cursor_row as int, g.cursor_col as int);
            let b = crate::grid::erase_blank(g);
            let ins = csi_effect(s, groups, Seq::empty(), '@').active();
            let del = csi_effect(s, groups, Seq::empty(), 'P').active();
            let era = csi_effect(s, groups, Seq::empty(), 'X').active();
            &&& ins.cursor_row == g.cursor_row && ins.cursor_col == g.cursor_col
            &&& del.cursor_row == g.cursor_row && del.cursor_col == g.cursor_col
            &&& era.cursor_row == g.cursor_row && era.cursor_col == g.cursor_col
            &&& forall|i: int, j: int|
                0 <= i < g.rows && 0 <= j < g.cols ==> #[trigger] ins.lines[i][j] == if i != r || j < c {
                    g.lines[i][j]
                } else if j < c + k {
                    b
                } else {
                    g.lines[i][j - k]
                }
            &&& forall|i: int, j: int|
                0 <= i < g.rows && 0 <= j < g.cols ==> #[trigger] del.lines[i][j] == if i != r || j < c {
                    g.lines[i][j]
                } else if j + k < g.cols {
                    g.lines[i][j + k]
                } else {
                    b
                }
            &&& forall|i: int, j: int|
                0 <= i < g.rows && 0 <= j < g.cols ==> #[trigger] era.lines[i][j] == if i == r && c <= j < c
                    + k {
                    b
                } else {
                    g.lines[i][j]
                }
        }),
{
    assert(Seq::<u8>::empty().len() == 0);
}

/// The OSC prefix `133` of the shell-integration marks.
pub open spec fn mark_133() -> Seq<u8> {
    seq![49u8, 51u8, 51u8]
}

/// The shell-integration marks ask for what their letters name, whatever
/// follows: `133;A` a prompt starts, `133;B` the command line starts,
/// `133;C` output starts (with a base64 payload, the command it carries;
/// without one, the command read off the screen), `133;D;code` the command
/// ended with the exit code the text names (none without a code); `7;uri`
/// sets the working directory from the URI. Other OSC strings (a window
/// title, say) are ignored.
pub proof fn law_osc_marks_as_named(rest: Seq<Seq<u8>>, uri: Seq<u8>, code: Seq<u8>, cmd: Seq<char>, p: Seq<u8>)
    ensures
        osc_action(seq![mark_133(), seq![65u8]] + rest) == OscAction::PromptStart,
        osc_action(seq![mark_133(), seq![66u8]] + rest) == OscAction::CommandStart,
        osc_action(seq![mark_133(), seq![67u8]]) == OscAction::OutputStartFromGrid,
        osc_action(seq![mark_133(), seq![67u8], crate::block::b64_encode(vstd::utf8::encode_utf8(cmd))] + rest)
            == OscAction::OutputStartWith(cmd),
        osc_action(seq![mark_133(), seq![68u8], code] + rest) == OscAction::CommandEnd(parse_i32_spec(code)),
        osc_action(seq![mark_133(), seq![68u8]]) == OscAction::CommandEnd(None),
        osc_action(seq![seq![55u8], uri] + rest) == OscAction::SetCwd(uri),
        p != mark_133() && p != seq![55u8] ==> osc_action(seq![p] + rest) == OscAction::Ignore,
{
    broadcast use vstd::utf8::encode_utf8_valid_utf8, vstd::utf8::encode_utf8_decode_utf8;

    let e = crate::block::b64_encode(vstd::utf8::encode_utf8(cmd));
    crate::block::law_base64_round_trip(vstd::utf8::encode_utf8(cmd));
    assert((seq![mark_133(), seq![65u8]] + rest)[0] == mark_133());
    assert((seq![mark_133(), seq![65u8]] + rest)[1] == seq![65u8]);
    assert((seq![mark_133(), seq![66u8]] + rest)[1] == seq![66u8]);
    assert((seq![mark_133(), seq![67u8], e] + rest)[1] == seq![67u8]);
    assert((seq![mark_133(), seq![67u8], e] + rest)[2] == e);
    assert((seq![mark_133(), seq![68u8], code] + rest)[1] == seq![68u8]);
    assert((seq![mark_133(), seq![68u8], code] + rest)[2] == code);
    assert((seq![seq![55u8], uri] + rest)[0] == seq![55u8]);
    assert((seq![seq![55u8], uri] + rest)[1] == uri);
    assert((seq![p] + rest)[0] == p);
    assert(seq![55u8] != mark_133()) by {
        assert(seq![55u8].len() != mark_133().len());
    }
    assert(seq![65u8] != seq![66u8] && seq![65u8] != seq![67u8] && seq![65u8] != seq![68u8]) by {
        assert(seq![65u8][0] != seq![66u8][0]);
        assert(seq![65u8][0] != seq![67u8][0]);
        assert(seq![65u8][0] != seq![68u8][0]);
    }
    assert(seq![66u8] != seq![67u8] && seq![66u8] != seq![68u8] && seq![67u8] != seq![68u8]) by {
        assert(seq![66u8][0] != seq![67u8][0]);
        assert(seq![66u8][0] != seq![68u8][0]);
        assert(seq![67u8][0] != seq![68u8][0]);
    }
}

proof fn lemma_decimal_digits(n: nat)
    ensures
        all_digits(crate::window::decimal(n)),
        digits_value(crate::window::decimal(n)) == n,
        crate::window::decimal(n).len() > 0,
        crate::window::decimal(n)[0] != 43 && crate::window::decimal(n)[0] != 45,
    decreases n,
{
    let d = crate::window::decimal(n);
    if n >= 10 {
        lemma_decimal_digits(n / 10);
        let p = crate::window::decimal(n / 10);
        assert(d == p.push((48 + n % 10) as u8));
        assert(d.drop_last() =~= p);
        assert(d[0] == p[0]);
        vstd::arithmetic::div_mod::lemma_fundamental_div_mod(n as int, 10);
        assert(digits_value(d) == digits_value(p) * 10 + n % 10);
        assert((n / 10) * 10 == 10 * (n / 10)) by (nonlinear_arith);
    } else {
        assert(d.drop_last() =~= Seq::<u8>::empty());
        assert(digits_value(Seq::<u8>::empty()) == 0);
    }
}

/// An exit code reads as the number its decimal digits spell, with an
/// optional `+` or `-` sign in front, over the whole `i32` range; text with
/// no digits, or with anything but digits after the sign, reads as nothing.
pub proof fn law_exit_code_reads_its_digits(n: nat, b: Seq<u8>)
    ensures
        n <= i32::MAX ==> parse_i32_spec(crate::window::decimal(n)) == Some(n as i32),
        n <= i32::MAX ==> parse_i32_spec(seq![43u8] + crate::window::decimal(n)) == Some(n as i32),
        n <= i32::MAX + 1 ==> parse_i32_spec(seq![45u8] + crate::window::decimal(n)) == Some((-n) as i32),
        n > i32::MAX + 1 ==> parse_i32_spec(seq![45u8] + crate::window::decimal(n)) is None,
        n > i32::MAX ==> parse_i32_spec(crate::window::decimal(n)) is None,
        parse_i32_spec(Seq::empty()) is None,
        parse_i32_spec(seq![45u8]) is None,
        (exists|i: int| 0 <= i < b.len() && i > 0 && !(48 <= #[trigger] b[i] <= 57)) ==> parse_i32_spec(b) is None,
{
    lemma_decimal_digits(n);
    let d = crate::window::decimal(n);
    assert((seq![43u8] + d).drop_first() =~= d);
    assert((seq![45u8] + d).drop_first() =~= d);
    assert((seq![45u8]).drop_first() =~= Seq::<u8>::empty());
    if exists|i: int| 0 <= i < b.len() && i > 0 && !(48 <= #[trigger] b[i] <= 57) {
        let i = choose|i: int| 0 <= i < b.len() && i > 0 && !(48 <= #[trigger] b[i] <= 57);
        if b.len() > 0 && (b[0] == 45 || b[0] == 43) {
            assert(b.drop_first()[i - 1] == b[i]);
        }
    }
}

} // verus!
