//! The decisions of the windowing layer: what bytes a key press, a mouse event
//! or a paste sends to the shell, which pane is under the pointer or nearest
//! in a direction, where a key press goes, and what a plugin's `host/*`
//! request asks for. The window itself (event loop, surface, clipboard, PTYs)
//! performs them.

use vstd::prelude::*;
use crate::keys::{event_global_chord, key_name_spec, mods_seq, CoreAction, KeyInput, Mods, NamedKey};
use crate::layout::{PaneId, SplitDir};
use crate::pane::Rect;
use crate::plugin::{Action, Registry};
use crate::screen::MouseTracking;
use crate::text::{chars_of, push_str, str_eq};
use vstd::string::StringSliceAdditionalSpecFns;

verus! {

// --- outgoing bytes ------------------------------------------------------------

/// Ctrl-A, sent as a literal when the prefix is pressed twice.
pub const CTRL_A: u8 = 0x01;
/// Escape; also the start of every CSI sequence.
pub const ESC: u8 = 0x1b;
/// Enter sends carriage return.
pub const CR: u8 = 0x0d;
pub const TAB: u8 = 0x09;
pub const SPACE: u8 = 0x20;
/// Backspace sends DEL, as readline expects.
pub const BACKSPACE: u8 = 0x7f;

/// The bytes of an ASCII escape sequence `ESC [` followed by `tail`.
pub open spec fn csi(tail: Seq<u8>) -> Seq<u8> {
    seq![ESC, 0x5b] + tail
}

/// Bracketed-paste start (`CSI 200~`).
pub open spec fn paste_start() -> Seq<u8> {
    csi(seq![0x32, 0x30, 0x30, 0x7e])
}

/// Bracketed-paste end (`CSI 201~`).
pub open spec fn paste_end() -> Seq<u8> {
    csi(seq![0x32, 0x30, 0x31, 0x7e])
}

fn push_bytes(out: &mut Vec<u8>, b: &[u8])
    ensures
        final(out)@ == old(out)@ + b@,
{
    let mut i: usize = 0;
    while i < b.len()
        invariant
            i <= b@.len(),
            out@ == old(out)@ + b@.subrange(0, i as int),
        decreases b.len() - i,
    {
        out.push(b[i]);
        i += 1;
        assert(b@.subrange(0, i as int) =~= b@.subrange(0, i - 1).push(b@[i - 1]));
    }
    assert(b@.subrange(0, i as int) =~= b@);
}

/// `b` with every occurrence of `pat` removed, scanning left to right from `i`
/// (non-overlapping, as `str::replace` with an empty replacement).
pub open spec fn strip_from(b: Seq<u8>, pat: Seq<u8>, i: int) -> Seq<u8>
    decreases b.len() - i,
{
    if i < 0 || i >= b.len() {
        Seq::empty()
    } else if pat.len() > 0 && i + pat.len() <= b.len() && b.subrange(i, i + pat.len()) == pat {
        strip_from(b, pat, i + pat.len())
    } else {
        seq![b[i]] + strip_from(b, pat, i + 1)
    }
}

/// Whether an end bracket occurs anywhere in `b`.
pub open spec fn has_paste_end(b: Seq<u8>) -> bool {
    exists|k: int| 0 <= k && k + 6 <= b.len() && #[trigger] b.subrange(k, k + 6) == paste_end()
}

/// `b` with end brackets removed pass after pass, until none is left (one
/// removal can bring the bytes around it together into a new one).
pub open spec fn sanitized(b: Seq<u8>) -> Seq<u8>
    decreases b.len(),
{
    if has_paste_end(b) {
        let s = strip_from(b, paste_end(), 0);
        if s.len() < b.len() {
            sanitized(s)
        } else {
            s
        }
    } else {
        b
    }
}

/// The bytes a paste sends: as they are, or with bracketed paste on, wrapped
/// in the paste brackets with every end bracket inside removed.
pub open spec fn wrap_paste_spec(text: Seq<u8>, bracketed: bool) -> Seq<u8> {
    if !bracketed {
        text
    } else {
        paste_start() + sanitized(text) + paste_end()
    }
}

fn paste_end_bytes() -> (v: Vec<u8>)
    ensures
        v@ == paste_end(),
{
    let v = vec![ESC, 0x5b, 0x32, 0x30, 0x31, 0x7e];
    assert(v@ =~= paste_end());
    v
}

/// One left-to-right pass removing the (non-overlapping) end brackets of `b`.
fn strip_once(b: &[u8]) -> (out: Vec<u8>)
    ensures
        out@ == strip_from(b@, paste_end(), 0),
{
    let end = paste_end_bytes();
    let mut out: Vec<u8> = Vec::new();
    let mut i: usize = 0;
    assert(strip_from(b@, end@, 0) == out@ + strip_from(b@, end@, 0));
    while i < b.len()
        invariant
            i <= b@.len(),
            end@ == paste_end(),
            strip_from(b@, end@, 0) == out@ + strip_from(b@, end@, i as int),
        decreases b.len() - i,
    {
        if b.len() - i >= 6 && b[i] == end[0] && b[i + 1] == end[1] && b[i + 2] == end[2] && b[i + 3]
            == end[3] && b[i + 4] == end[4] && b[i + 5] == end[5] {
            assert(b@.subrange(i as int, i + 6) =~= end@);
            i += 6;
        } else {
            proof {
                if i + 6 <= b@.len() {
                    if b@.subrange(i as int, i + 6) == end@ {
                        assert(b@.subrange(i as int, i + 6)[0] == end@[0]);
                        assert(b@.subrange(i as int, i + 6)[1] == end@[1]);
                        assert(b@.subrange(i as int, i + 6)[2] == end@[2]);
                        assert(b@.subrange(i as int, i + 6)[3] == end@[3]);
                        assert(b@.subrange(i as int, i + 6)[4] == end@[4]);
                        assert(b@.subrange(i as int, i + 6)[5] == end@[5]);
                    }
                }
                assert(out@.push(b@[i as int]) + strip_from(b@, end@, i + 1) =~= out@ + (seq![
                    b@[i as int],
                ] + strip_from(b@, end@, i + 1)));
            }
            out.push(b[i]);
            i += 1;
        }
    }
    assert(strip_from(b@, end@, i as int) =~= Seq::<u8>::empty());
    assert(out@ + Seq::<u8>::empty() =~= out@);
    out
}

/// A pass never lengthens the bytes, and shortens them when some end
/// bracket lies at or after where it starts.
proof fn lemma_strip_shortens(b: Seq<u8>, i: int)
    requires
        0 <= i <= b.len(),
    ensures
        strip_from(b, paste_end(), i).len() <= b.len() - i,
        (exists|k: int| i <= k && k + 6 <= b.len() && #[trigger] b.subrange(k, k + 6) == paste_end())
            ==> strip_from(b, paste_end(), i).len() < b.len() - i,
    decreases b.len() - i,
{
    if i < b.len() {
        if i + 6 <= b.len() && b.subrange(i, i + 6) == paste_end() {
            lemma_strip_shortens(b, i + 6);
        } else {
            lemma_strip_shortens(b, i + 1);
            if exists|k: int| i <= k && k + 6 <= b.len() && #[trigger] b.subrange(k, k + 6) == paste_end() {
                let k = choose|k: int| i <= k && k + 6 <= b.len() && #[trigger] b.subrange(k, k + 6) == paste_end();
                assert(k != i);
                assert(i + 1 <= k);
            }
        }
    }
}

/// Prepare clipboard text for the PTY. With bracketed paste on, wrap it in
/// `ESC[200~ … ESC[201~`, removing every `ESC[201~` from the payload, pass
/// after pass, so a crafted clipboard cannot close the bracket early.
pub fn wrap_paste(text: &str, bracketed: bool) -> (out: Vec<u8>)
    ensures
        out@ == wrap_paste_spec(text.spec_bytes(), bracketed),
{
    let b = text.as_bytes();
    if !bracketed {
        let mut out: Vec<u8> = Vec::new();
        push_bytes(&mut out, b);
        return out;
    }
    let mut cur: Vec<u8> = Vec::new();
    push_bytes(&mut cur, b);
    assert(cur@ =~= b@);
    let mut next = strip_once(cur.as_slice());
    while next.len() < cur.len()
        invariant
            sanitized(cur@) == sanitized(b@),
            next@ == strip_from(cur@, paste_end(), 0),
        decreases cur@.len(),
    {
        proof {
            if !has_paste_end(cur@) {
                lemma_strip_clean(cur@, 0);
                assert(cur@.subrange(0, cur@.len() as int) =~= cur@);
            }
        }
        cur = next;
        next = strip_once(cur.as_slice());
    }
    proof {
        lemma_strip_shortens(cur@, 0);
        assert(!has_paste_end(cur@));
    }
    let mut out: Vec<u8> = vec![ESC, 0x5b, 0x32, 0x30, 0x30, 0x7e];
    assert(out@ =~= paste_start());
    push_bytes(&mut out, cur.as_slice());
    let end = paste_end_bytes();
    push_bytes(&mut out, end.as_slice());
    out
}

/// Whatever is pasted, the bytes between the paste brackets hold no end
/// bracket: a pasted payload can never close the bracket early.
pub proof fn law_paste_never_closes_early(text: Seq<u8>)
    ensures
        !has_paste_end(sanitized(text)),
        wrap_paste_spec(text, true) == paste_start() + sanitized(text) + paste_end(),
    decreases text.len(),
{
    if has_paste_end(text) {
        lemma_strip_shortens(text, 0);
        law_paste_never_closes_early(strip_from(text, paste_end(), 0));
    }
}

/// Without bracketed paste a paste is sent as it is, and with it a payload
/// holding no end bracket is sent whole between the brackets.
pub proof fn law_paste_keeps_clean_payload(text: Seq<u8>)
    requires
        !has_paste_end(text),
    ensures
        wrap_paste_spec(text, false) == text,
        wrap_paste_spec(text, true) == paste_start() + text + paste_end(),
{
}

proof fn lemma_strip_clean(text: Seq<u8>, i: int)
    requires
        0 <= i <= text.len(),
        forall|k: int| 0 <= k && k + 6 <= text.len() ==> #[trigger] text.subrange(k, k + 6) != paste_end(),
    ensures
        strip_from(text, paste_end(), i) == text.subrange(i, text.len() as int),
    decreases text.len() - i,
{
    if i < text.len() {
        lemma_strip_clean(text, i + 1);
        assert(text.subrange(i, text.len() as int) =~= seq![text[i]] + text.subrange(i + 1, text.len() as int));
    } else {
        assert(text.subrange(i, text.len() as int) =~= Seq::<u8>::empty());
    }
}

// --- key presses -----------------------------------------------------------------

/// What `char::to_ascii_lowercase` gives: ASCII capitals lowered, anything else
/// unchanged.
pub open spec fn ascii_lower(c: char) -> char {
    if 'A' <= c && c <= 'Z' {
        ((c as u32) + 32) as char
    } else {
        c
    }
}

/// The bytes of a named key, for those the terminal sends.
pub open spec fn named_key_bytes(k: NamedKey) -> Option<Seq<u8>> {
    match k {
        NamedKey::Enter => Some(seq![CR]),
        NamedKey::Backspace => Some(seq![BACKSPACE]),
        NamedKey::Tab => Some(seq![TAB]),
        NamedKey::Escape => Some(seq![ESC]),
        NamedKey::Space => Some(seq![SPACE]),
        NamedKey::ArrowUp => Some(csi(seq![0x41])),
        NamedKey::ArrowDown => Some(csi(seq![0x42])),
        NamedKey::ArrowRight => Some(csi(seq![0x43])),
        NamedKey::ArrowLeft => Some(csi(seq![0x44])),
        NamedKey::Home => Some(csi(seq![0x48])),
        NamedKey::End => Some(csi(seq![0x46])),
        _ => None,
    }
}

/// The bytes a key press sends to the shell: Ctrl with a letter sends its
/// control code; named keys their codes or sequences; text its UTF-8.
pub open spec fn encode_key_spec(key: KeyInput, mods: Mods) -> Option<Seq<u8>> {
    match key {
        KeyInput::Character(s) => if mods.ctrl && s@.len() == 0 {
            None
        } else if mods.ctrl && 'a' <= ascii_lower(s@[0]) && ascii_lower(s@[0]) <= 'z' {
            Some(seq![((ascii_lower(s@[0]) as u32) % 32) as u8])
        } else {
            Some(vstd::utf8::encode_utf8(s@))
        },
        KeyInput::Named(k) => named_key_bytes(k),
        KeyInput::Unidentified => None,
    }
}

/// The keys a terminal sends as they are named: Enter a carriage return,
/// Backspace DEL, Tab, Escape and Space their own codes, and the cursor keys
/// the cursor-movement sequences of their own directions (`ESC [ A` up,
/// `B` down, `C` right, `D` left, `H` home, `F` end), whatever modifiers are
/// held; so the four arrows send four different sequences. Ctrl with a
/// letter sends that letter's control code (1 for `a`, through 26 for `z`).
pub proof fn law_keys_send_their_codes(mods: Mods, s: String)
    ensures
        encode_key_spec(KeyInput::Named(NamedKey::Enter), mods) == Some(seq![0x0du8]),
        encode_key_spec(KeyInput::Named(NamedKey::Backspace), mods) == Some(seq![0x7fu8]),
        encode_key_spec(KeyInput::Named(NamedKey::Tab), mods) == Some(seq![0x09u8]),
        encode_key_spec(KeyInput::Named(NamedKey::Escape), mods) == Some(seq![0x1bu8]),
        encode_key_spec(KeyInput::Named(NamedKey::Space), mods) == Some(seq![0x20u8]),
        encode_key_spec(KeyInput::Named(NamedKey::ArrowUp), mods) == Some(seq![0x1bu8, 0x5b, 0x41]),
        encode_key_spec(KeyInput::Named(NamedKey::ArrowDown), mods) == Some(seq![0x1bu8, 0x5b, 0x42]),
        encode_key_spec(KeyInput::Named(NamedKey::ArrowRight), mods) == Some(seq![0x1bu8, 0x5b, 0x43]),
        encode_key_spec(KeyInput::Named(NamedKey::ArrowLeft), mods) == Some(seq![0x1bu8, 0x5b, 0x44]),
        encode_key_spec(KeyInput::Named(NamedKey::Home), mods) == Some(seq![0x1bu8, 0x5b, 0x48]),
        encode_key_spec(KeyInput::Named(NamedKey::End), mods) == Some(seq![0x1bu8, 0x5b, 0x46]),
        mods.ctrl && s@.len() > 0 && 'a' <= s@[0] <= 'z' ==> encode_key_spec(
            KeyInput::Character(s),
            mods,
        ) == Some(seq![(s@[0] as u32 - 'a' as u32 + 1) as u8]),
        mods.ctrl && s@.len() > 0 && 'A' <= s@[0] <= 'Z' ==> encode_key_spec(
            KeyInput::Character(s),
            mods,
        ) == Some(seq![(s@[0] as u32 - 'A' as u32 + 1) as u8]),
        !mods.ctrl ==> encode_key_spec(KeyInput::Character(s), mods) == Some(
            vstd::utf8::encode_utf8(s@),
        ),
{
    assert(csi(seq![0x41]) =~= seq![0x1bu8, 0x5b, 0x41]);
    assert(csi(seq![0x42]) =~= seq![0x1bu8, 0x5b, 0x42]);
    assert(csi(seq![0x43]) =~= seq![0x1bu8, 0x5b, 0x43]);
    assert(csi(seq![0x44]) =~= seq![0x1bu8, 0x5b, 0x44]);
    assert(csi(seq![0x48]) =~= seq![0x1bu8, 0x5b, 0x48]);
    assert(csi(seq![0x46]) =~= seq![0x1bu8, 0x5b, 0x46]);
}

/// An arrow key sends the very sequence that, written back to the terminal,
/// moves the cursor one cell in the arrow's direction.
pub proof fn law_arrows_send_their_own_moves(s: crate::screen::ScreenState, mods: Mods)
    requires
        s.wf(),
    ensures
        ({
            let g = s.active();
            let moved = |k: NamedKey|
                crate::parser::csi_effect(
                    s,
                    Seq::empty(),
                    Seq::empty(),
                    (encode_key_spec(KeyInput::Named(k), mods)->0[2] as u32) as char,
                ).active();
            &&& moved(NamedKey::ArrowUp).cursor_row == (if g.cursor_row > 0 { g.cursor_row - 1 } else { 0 })
            &&& moved(NamedKey::ArrowUp).cursor_col == g.cursor_col
            &&& moved(NamedKey::ArrowDown).cursor_row == (if g.cursor_row + 1 < g.rows { g.cursor_row + 1 } else { g.cursor_row })
            &&& moved(NamedKey::ArrowDown).cursor_col == g.cursor_col
            &&& moved(NamedKey::ArrowRight).cursor_col == (if g.cursor_col + 1 < g.cols { g.cursor_col + 1 } else { g.cursor_col })
            &&& moved(NamedKey::ArrowRight).cursor_row == g.cursor_row
            &&& moved(NamedKey::ArrowLeft).cursor_col == (if g.cursor_col > 0 { g.cursor_col - 1 } else { 0 })
            &&& moved(NamedKey::ArrowLeft).cursor_row == g.cursor_row
        }),
{
    law_keys_send_their_codes(mods, vstd::pervasive::arbitrary());
    crate::parser::law_cursor_sequences_move_as_named(s, Seq::empty());
    assert((0x41u8 as u32) as char == 'A');
    assert((0x42u8 as u32) as char == 'B');
    assert((0x43u8 as u32) as char == 'C');
    assert((0x44u8 as u32) as char == 'D');
}

/// Translate a key press into the bytes a terminal sends to the shell.
pub fn encode_key(key: &KeyInput, mods: Mods) -> (r: Option<Vec<u8>>)
    ensures
        match r {
            Some(v) => encode_key_spec(*key, mods) == Some(v@),
            None => encode_key_spec(*key, mods) is None,
        },
{
    match key {
        KeyInput::Character(s) => {
            if mods.ctrl {
                let cs = chars_of(s.as_str());
                if cs.len() == 0 {
                    return None;
                }
                let c0 = cs[0];
                let c = if 'A' <= c0 && c0 <= 'Z' { ((c0 as u32) + 32) as u8 as char } else { c0 };
                assert(c == ascii_lower(s@[0]));
                if 'a' <= c && c <= 'z' {
                    let code = ((c as u32) % 32) as u8;
                    return Some(vec![code]);
                }
            }
            let mut out: Vec<u8> = Vec::new();
            push_bytes(&mut out, s.as_str().as_bytes());
            Some(out)
        },
        KeyInput::Named(k) => match k {
            NamedKey::Enter => Some(vec![CR]),
            NamedKey::Backspace => Some(vec![BACKSPACE]),
            NamedKey::Tab => Some(vec![TAB]),
            NamedKey::Escape => Some(vec![ESC]),
            NamedKey::Space => Some(vec![SPACE]),
            NamedKey::ArrowUp => Some(vec![ESC, 0x5b, 0x41]),
            NamedKey::ArrowDown => Some(vec![ESC, 0x5b, 0x42]),
            NamedKey::ArrowRight => Some(vec![ESC, 0x5b, 0x43]),
            NamedKey::ArrowLeft => Some(vec![ESC, 0x5b, 0x44]),
            NamedKey::Home => Some(vec![ESC, 0x5b, 0x48]),
            NamedKey::End => Some(vec![ESC, 0x5b, 0x46]),
            _ => None,
        },
        KeyInput::Unidentified => None,
    }
}

/// A bare modifier key press (Shift, Ctrl, Alt, …), which is never a command.
pub open spec fn is_modifier_spec(key: KeyInput) -> bool {
    match key {
        KeyInput::Named(k) => k == NamedKey::Shift || k == NamedKey::Control || k == NamedKey::Alt
            || k == NamedKey::Super || k == NamedKey::Meta || k == NamedKey::Hyper,
        _ => false,
    }
}

/// Whether a key press is a bare modifier.
pub fn is_modifier_key(key: &KeyInput) -> (b: bool)
    ensures
        b == is_modifier_spec(*key),
{
    match key {
        KeyInput::Named(k) => match k {
            NamedKey::Shift | NamedKey::Control | NamedKey::Alt | NamedKey::Super | NamedKey::Meta
            | NamedKey::Hyper => true,
            _ => false,
        },
        _ => false,
    }
}

// --- mouse reporting ---------------------------------------------------------------

/// The kind of mouse event to report to a program.
#[derive(Clone, Copy, Debug, PartialEq, Eq, Structural)]
pub enum MouseKind {
    Press,
    Release,
    Motion,
    WheelUp,
    WheelDown,
}

/// The decimal digits of `n`, as ASCII bytes.
pub open spec fn decimal(n: nat) -> Seq<u8>
    decreases n,
{
    if n < 10 {
        seq![(48 + n) as u8]
    } else {
        decimal(n / 10).push((48 + n % 10) as u8)
    }
}

/// Append the decimal digits of `n`.
fn push_decimal(out: &mut Vec<u8>, n: u32)
    ensures
        final(out)@ == old(out)@ + decimal(n as nat),
    decreases n,
{
    if n < 10 {
        out.push(48 + n as u8);
    } else {
        push_decimal(out, n / 10);
        out.push(48 + (n % 10) as u8);
    }
}

/// The modifier bits of a mouse button code: shift 4, alt 8, ctrl 16.
pub open spec fn mod_bits(mods: Mods) -> u32 {
    (if mods.shift { 4u32 } else { 0u32 }) | (if mods.alt { 8u32 } else { 0u32 }) | (if mods.ctrl {
        16u32
    } else {
        0u32
    })
}

/// The button code of a mouse event: the button, +32 for motion, 64/65 for
/// the wheel, with the modifier bits.
pub open spec fn button_code(kind: MouseKind, button: u8, mods: Mods) -> u32 {
    (match kind {
        MouseKind::Press | MouseKind::Release => button as u32,
        MouseKind::Motion => (button as u32 + 32) as u32,
        MouseKind::WheelUp => 64u32,
        MouseKind::WheelDown => 65u32,
    }) | mod_bits(mods)
}

/// A legacy-encoded field: the value offset by 32, capped at 255.
pub open spec fn x10_byte(n: int) -> u8 {
    if n + 32 < 255 { (n + 32) as u8 } else { 255 }
}

/// The escape sequence a tracking program expects for a mouse event at 0-based
/// (`col`, `row`): SGR `ESC[<b;x;y` ending `M` (or `m` for a release), or
/// legacy `ESC[M` with three offset bytes (a release always button 3).
pub open spec fn encode_mouse_spec(kind: MouseKind, button: u8, col: usize, row: usize, sgr: bool, mods: Mods) -> Seq<u8> {
    let cb = button_code(kind, button, mods);
    let x = col + 1;
    let y = row + 1;
    if sgr {
        csi(seq![0x3c]) + decimal(cb as nat) + seq![0x3b] + decimal(x as nat) + seq![0x3b] + decimal(
            y as nat,
        ) + seq![if kind == MouseKind::Release { 0x6d } else { 0x4d }]
    } else {
        let cb2 = if kind == MouseKind::Release { 3 | mod_bits(mods) } else { cb };
        csi(seq![0x4d]) + seq![x10_byte(cb2 as int), x10_byte(x), x10_byte(y)]
    }
}

/// Encode a mouse event as the escape sequence a tracking program expects.
/// `col`/`row` are 0-based here and sent 1-based.
#[verifier::spinoff_prover]
#[verifier::rlimit(40)]
pub fn encode_mouse(kind: MouseKind, button: u8, col: usize, row: usize, sgr: bool, mods: Mods) -> (v: Vec<u8>)
    requires
        col < u32::MAX,
        row < u32::MAX,
    ensures
        v@ == encode_mouse_spec(kind, button, col, row, sgr, mods),
{
    let bits: u32 = (if mods.shift { 4u32 } else { 0u32 }) | (if mods.alt { 8u32 } else { 0u32 }) | (
    if mods.ctrl {
        16u32
    } else {
        0u32
    });
    let base: u32 = match kind {
        MouseKind::Press | MouseKind::Release => button as u32,
        MouseKind::Motion => button as u32 + 32,
        MouseKind::WheelUp => 64,
        MouseKind::WheelDown => 65,
    };
    let cb = base | bits;
    let x = col as u32 + 1;
    let y = row as u32 + 1;
    if sgr {
        let mut v: Vec<u8> = vec![ESC, 0x5b, 0x3c];
        push_decimal(&mut v, cb);
        v.push(0x3b);
        push_decimal(&mut v, x);
        v.push(0x3b);
        push_decimal(&mut v, y);
        v.push(if matches!(kind, MouseKind::Release) { 0x6d } else { 0x4d });
        assert(v@ =~= encode_mouse_spec(kind, button, col, row, sgr, mods));
        v
    } else {
        let cb2 = if matches!(kind, MouseKind::Release) { 3 | bits } else { cb };
        let e0: u8 = if cb2 < 223 { (cb2 + 32) as u8 } else { 255 };
        let e1: u8 = if x < 223 { (x + 32) as u8 } else { 255 };
        let e2: u8 = if y < 223 { (y + 32) as u8 } else { 255 };
        let v: Vec<u8> = vec![ESC, 0x5b, 0x4d, e0, e1, e2];
        assert(v@ =~= encode_mouse_spec(kind, button, col, row, sgr, mods));
        v
    }
}

/// Whether a mouse event goes to the program under the pointer: not while
/// Shift is held (local selection), only when the program tracks the mouse,
/// and motion only at the level it asked for (a drag needs button-event
/// tracking, free motion any-event tracking; button 3 means none held).
pub open spec fn should_report_spec(shift: bool, tracking: MouseTracking, kind: MouseKind, button: u8) -> bool {
    !shift && tracking != MouseTracking::Off && (kind != MouseKind::Motion || tracking
        == MouseTracking::AnyEvent || (tracking == MouseTracking::ButtonEvent && button != 3))
}

/// Whether a mouse event goes to the program under the pointer.
pub fn should_report(shift: bool, tracking: MouseTracking, kind: MouseKind, button: u8) -> (b: bool)
    ensures
        b == should_report_spec(shift, tracking, kind, button),
{
    if shift {
        return false;
    }
    if tracking == MouseTracking::Off {
        return false;
    }
    if kind == MouseKind::Motion {
        return match tracking {
            MouseTracking::AnyEvent => true,
            MouseTracking::ButtonEvent => button != 3,
            _ => false,
        };
    }
    true
}

// --- where a key press goes ----------------------------------------------------

/// Which modal surfaces are open, topmost first.
#[derive(Clone, Copy, Debug, PartialEq, Eq, Structural)]
pub struct Modal {
    /// A text panel (captures all input).
    pub panel: bool,
    /// The recall overlay.
    pub overlay: bool,
    /// The scrollback search.
    pub search: bool,
}

/// What a key does on a modal surface: the recall overlay, the search bar or
/// a text panel.
#[derive(Clone, Debug, PartialEq, Eq)]
pub enum ModalKey {
    /// Close the surface.
    Close,
    /// Take the selection or the typed line.
    Accept,
    /// Delete the last typed char.
    Backspace,
    /// Move (select, step or scroll) by a line, up for -1.
    Move(i8),
    /// Scroll by a page, up for -1.
    Page(i8),
    /// Type the text.
    Type(String),
    /// Nothing.
    Nothing,
}

/// What a key does on a modal surface, with typed text as chars.
pub enum ModalKeyView {
    Close,
    Accept,
    Backspace,
    Move(int),
    Page(int),
    Type(Seq<char>),
    Nothing,
}

impl ModalKey {
    pub open spec fn view(self) -> ModalKeyView {
        match self {
            ModalKey::Close => ModalKeyView::Close,
            ModalKey::Accept => ModalKeyView::Accept,
            ModalKey::Backspace => ModalKeyView::Backspace,
            ModalKey::Move(d) => ModalKeyView::Move(d as int),
            ModalKey::Page(d) => ModalKeyView::Page(d as int),
            ModalKey::Type(s) => ModalKeyView::Type(s@),
            ModalKey::Nothing => ModalKeyView::Nothing,
        }
    }
}

/// The recall overlay: Escape closes, Enter takes the selected command,
/// Backspace deletes, the arrows move the selection, text filters.
pub open spec fn overlay_key_spec(k: KeyInput) -> ModalKeyView {
    match k {
        KeyInput::Named(NamedKey::Escape) => ModalKeyView::Close,
        KeyInput::Named(NamedKey::Enter) => ModalKeyView::Accept,
        KeyInput::Named(NamedKey::Backspace) => ModalKeyView::Backspace,
        KeyInput::Named(NamedKey::ArrowUp) => ModalKeyView::Move(-1),
        KeyInput::Named(NamedKey::ArrowDown) => ModalKeyView::Move(1),
        KeyInput::Character(s) => ModalKeyView::Type(s@),
        _ => ModalKeyView::Nothing,
    }
}

/// The search bar: Escape closes, Enter and Down step to the next match, Up
/// to the previous one, Backspace deletes, text extends the query.
pub open spec fn search_key_spec(k: KeyInput) -> ModalKeyView {
    match k {
        KeyInput::Named(NamedKey::Escape) => ModalKeyView::Close,
        KeyInput::Named(NamedKey::Enter) => ModalKeyView::Move(1),
        KeyInput::Named(NamedKey::ArrowDown) => ModalKeyView::Move(1),
        KeyInput::Named(NamedKey::ArrowUp) => ModalKeyView::Move(-1),
        KeyInput::Named(NamedKey::Backspace) => ModalKeyView::Backspace,
        KeyInput::Character(s) => ModalKeyView::Type(s@),
        _ => ModalKeyView::Nothing,
    }
}

/// A text panel: Escape closes; the arrows and Page keys scroll; an
/// interactive panel takes typed text, Space, Backspace and Enter (which
/// sends the line); a read-only one closes on `q`.
pub open spec fn panel_key_spec(k: KeyInput, interactive: bool) -> ModalKeyView {
    match k {
        KeyInput::Named(NamedKey::Escape) => ModalKeyView::Close,
        KeyInput::Named(NamedKey::Enter) => if interactive {
            ModalKeyView::Accept
        } else {
            ModalKeyView::Nothing
        },
        KeyInput::Named(NamedKey::Backspace) => if interactive {
            ModalKeyView::Backspace
        } else {
            ModalKeyView::Nothing
        },
        KeyInput::Named(NamedKey::Space) => if interactive {
            ModalKeyView::Type(seq![' '])
        } else {
            ModalKeyView::Nothing
        },
        KeyInput::Named(NamedKey::ArrowUp) => ModalKeyView::Move(-1),
        KeyInput::Named(NamedKey::ArrowDown) => ModalKeyView::Move(1),
        KeyInput::Named(NamedKey::PageUp) => ModalKeyView::Page(-1),
        KeyInput::Named(NamedKey::PageDown) => ModalKeyView::Page(1),
        KeyInput::Character(s) => if interactive {
            ModalKeyView::Type(s@)
        } else if s@ == seq!['q'] {
            ModalKeyView::Close
        } else {
            ModalKeyView::Nothing
        },
        _ => ModalKeyView::Nothing,
    }
}

/// What a key does on the recall overlay.
pub fn overlay_key(k: &KeyInput) -> (r: ModalKey)
    ensures
        r.view() == overlay_key_spec(*k),
{
    match k {
        KeyInput::Named(NamedKey::Escape) => ModalKey::Close,
        KeyInput::Named(NamedKey::Enter) => ModalKey::Accept,
        KeyInput::Named(NamedKey::Backspace) => ModalKey::Backspace,
        KeyInput::Named(NamedKey::ArrowUp) => ModalKey::Move(-1),
        KeyInput::Named(NamedKey::ArrowDown) => ModalKey::Move(1),
        KeyInput::Character(s) => ModalKey::Type(s.as_str().to_owned()),
        _ => ModalKey::Nothing,
    }
}

/// What a key does on the search bar.
pub fn search_key(k: &KeyInput) -> (r: ModalKey)
    ensures
        r.view() == search_key_spec(*k),
{
    match k {
        KeyInput::Named(NamedKey::Escape) => ModalKey::Close,
        KeyInput::Named(NamedKey::Enter) => ModalKey::Move(1),
        KeyInput::Named(NamedKey::ArrowDown) => ModalKey::Move(1),
        KeyInput::Named(NamedKey::ArrowUp) => ModalKey::Move(-1),
        KeyInput::Named(NamedKey::Backspace) => ModalKey::Backspace,
        KeyInput::Character(s) => ModalKey::Type(s.as_str().to_owned()),
        _ => ModalKey::Nothing,
    }
}

/// What a key does on a text panel.
pub fn panel_key(k: &KeyInput, interactive: bool) -> (r: ModalKey)
    ensures
        r.view() == panel_key_spec(*k, interactive),
{
    proof {
        reveal_strlit(" ");
        reveal_strlit("q");
        assert(" "@ =~= seq![' ']);
        assert("q"@ =~= seq!['q']);
    }
    match k {
        KeyInput::Named(NamedKey::Escape) => ModalKey::Close,
        KeyInput::Named(NamedKey::Enter) => if interactive {
            ModalKey::Accept
        } else {
            ModalKey::Nothing
        },
        KeyInput::Named(NamedKey::Backspace) => if interactive {
            ModalKey::Backspace
        } else {
            ModalKey::Nothing
        },
        KeyInput::Named(NamedKey::Space) => if interactive {
            ModalKey::Type(" ".to_owned())
        } else {
            ModalKey::Nothing
        },
        KeyInput::Named(NamedKey::ArrowUp) => ModalKey::Move(-1),
        KeyInput::Named(NamedKey::ArrowDown) => ModalKey::Move(1),
        KeyInput::Named(NamedKey::PageUp) => ModalKey::Page(-1),
        KeyInput::Named(NamedKey::PageDown) => ModalKey::Page(1),
        KeyInput::Character(s) => if interactive {
            ModalKey::Type(s.as_str().to_owned())
        } else if str_eq(s.as_str(), "q") {
            ModalKey::Close
        } else {
            ModalKey::Nothing
        },
        _ => ModalKey::Nothing,
    }
}

/// Where a key press goes.
#[derive(Clone, Debug, PartialEq, Eq)]
pub enum KeyRoute {
    /// A bare modifier: nothing happens.
    Ignore,
    /// Copy or paste, bound globally: runs even over a modal surface.
    Clipboard(CoreAction),
    /// The open text panel takes it.
    Panel,
    /// The recall overlay takes it.
    Overlay,
    /// The scrollback search takes it.
    Search,
    /// The key after the prefix: look up its prefixed chord.
    PrefixCommand,
    /// The prefix chord itself: wait for the command key.
    StartPrefix,
    /// Another bound global chord: dispatch it.
    Chord(String),
    /// Anything else: snap to the live screen and send it to the shell.
    Type,
}

/// Where a key press goes, with the chord as a char sequence.
pub enum KeyRouteView {
    Ignore,
    Clipboard(CoreAction),
    Panel,
    Overlay,
    Search,
    PrefixCommand,
    StartPrefix,
    Chord(Seq<char>),
    Type,
}

impl KeyRoute {
    pub open spec fn view(self) -> KeyRouteView {
        match self {
            KeyRoute::Ignore => KeyRouteView::Ignore,
            KeyRoute::Clipboard(a) => KeyRouteView::Clipboard(a),
            KeyRoute::Panel => KeyRouteView::Panel,
            KeyRoute::Overlay => KeyRouteView::Overlay,
            KeyRoute::Search => KeyRouteView::Search,
            KeyRoute::PrefixCommand => KeyRouteView::PrefixCommand,
            KeyRoute::StartPrefix => KeyRouteView::StartPrefix,
            KeyRoute::Chord(c) => KeyRouteView::Chord(c@),
            KeyRoute::Type => KeyRouteView::Type,
        }
    }
}

/// Where a key press goes, given the open modal surfaces, whether the prefix
/// was just pressed, and the binding table.
pub open spec fn route_key_spec(key: KeyInput, mods: Mods, reg: Registry, modal: Modal, pending_prefix: bool) -> KeyRouteView {
    let chord = match key_name_spec(key) {
        Some(n) => Some(mods_seq(mods.ctrl, mods.alt, mods.shift, mods.sup) + n),
        None => None,
    };
    let bound = match chord {
        Some(c) => reg.keymap@.contains_key(c),
        None => false,
    };
    let clip = match chord {
        Some(c) => if reg.keymap@.contains_key(c) {
            match reg.keymap@[c] {
                Action::Core(CoreAction::Copy) => Some(CoreAction::Copy),
                Action::Core(CoreAction::Paste) => Some(CoreAction::Paste),
                _ => None,
            }
        } else {
            None
        },
        None => None,
    };
    if is_modifier_spec(key) {
        KeyRouteView::Ignore
    } else if clip is Some {
        KeyRouteView::Clipboard(clip->0)
    } else if modal.panel {
        KeyRouteView::Panel
    } else if modal.overlay {
        KeyRouteView::Overlay
    } else if modal.search {
        KeyRouteView::Search
    } else if pending_prefix {
        KeyRouteView::PrefixCommand
    } else if chord == Some(reg.prefix@) {
        KeyRouteView::StartPrefix
    } else if bound {
        KeyRouteView::Chord(chord->0)
    } else {
        KeyRouteView::Type
    }
}

/// Route a key press: bare modifiers are ignored; a global copy/paste chord
/// runs even over a modal surface; an open panel, overlay or search captures
/// the key; the key after the prefix is a prefixed command; the prefix chord
/// starts one; another bound global chord is dispatched; anything else is
/// typed into the shell.
pub fn route_key(key: &KeyInput, mods: Mods, reg: &Registry, modal: Modal, pending_prefix: bool) -> (r: KeyRoute)
    ensures
        r.view() == route_key_spec(*key, mods, *reg, modal, pending_prefix),
{
    if is_modifier_key(key) {
        return KeyRoute::Ignore;
    }
    let chord = event_global_chord(key, mods);
    let action: Option<&Action> = match &chord {
        Some(c) => reg.action_for_chord(c.as_str()),
        None => None,
    };
    match action {
        Some(Action::Core(CoreAction::Copy)) => return KeyRoute::Clipboard(CoreAction::Copy),
        Some(Action::Core(CoreAction::Paste)) => return KeyRoute::Clipboard(CoreAction::Paste),
        _ => {},
    }
    if modal.panel {
        return KeyRoute::Panel;
    }
    if modal.overlay {
        return KeyRoute::Overlay;
    }
    if modal.search {
        return KeyRoute::Search;
    }
    if pending_prefix {
        return KeyRoute::PrefixCommand;
    }
    match chord {
        Some(c) => {
            if str_eq(c.as_str(), reg.prefix()) {
                KeyRoute::StartPrefix
            } else if action.is_some() {
                KeyRoute::Chord(c)
            } else {
                KeyRoute::Type
            }
        },
        None => KeyRoute::Type,
    }
}

// --- plugin host requests ----------------------------------------------------------

/// A direction to move focus in.
#[derive(Clone, Copy, Debug, PartialEq, Eq, Structural)]
pub enum FocusDir {
    Left,
    Right,
    Up,
    Down,
}

/// The parameters of a `host/*` request that the host reads, taken out of its
/// JSON.
pub struct HostRequest {
    pub method: String,
    /// `params.dir`, when it is a string.
    pub dir: Option<String>,
    /// `params.text`, when it is a string.
    pub text: Option<String>,
    /// `params.level`, when it is a string.
    pub level: Option<String>,
    /// `params.title`, when it is a string.
    pub title: Option<String>,
    /// `params.body`, when it is a string.
    pub body: Option<String>,
    /// `params.input`, when it is a boolean.
    pub input: Option<bool>,
    /// `params.preset`, when it is a string.
    pub preset: Option<String>,
    /// Whether `params.patch` is present.
    pub has_patch: bool,
}

/// What a `host/*` request asks the host to do.
#[derive(Clone, Debug, PartialEq, Eq)]
pub enum HostCommand {
    SplitPane(SplitDir),
    FocusPane(FocusDir),
    ClosePane,
    WriteToFocusedPane(String),
    Log { level: String, text: String },
    Notify(String),
    ShowPanel { title: String, body: String, interactive: bool },
    ShowTable { title: String },
    ShowTree { title: String },
    ClosePanel,
    SetTheme { preset: Option<String>, patch: bool },
    /// An unknown method, or one missing what it needs: answered `ok: false`.
    Refuse,
}

/// An optional string's text, or `dflt`.
pub open spec fn text_or(s: Option<String>, dflt: Seq<char>) -> Seq<char> {
    match s {
        Some(t) => t@,
        None => dflt,
    }
}

/// The view of an optional string.
pub open spec fn opt_text(s: Option<String>) -> Option<Seq<char>> {
    match s {
        Some(t) => Some(t@),
        None => None,
    }
}

/// What a host request asks for, with the strings as char sequences.
pub enum HostCommandView {
    SplitPane(SplitDir),
    FocusPane(FocusDir),
    ClosePane,
    WriteToFocusedPane(Seq<char>),
    Log { level: Seq<char>, text: Seq<char> },
    Notify(Seq<char>),
    ShowPanel { title: Seq<char>, body: Seq<char>, interactive: bool },
    ShowTable { title: Seq<char> },
    ShowTree { title: Seq<char> },
    ClosePanel,
    SetTheme { preset: Option<Seq<char>>, patch: bool },
    Refuse,
}

impl HostCommand {
    pub open spec fn view(self) -> HostCommandView {
        match self {
            HostCommand::SplitPane(d) => HostCommandView::SplitPane(d),
            HostCommand::FocusPane(d) => HostCommandView::FocusPane(d),
            HostCommand::ClosePane => HostCommandView::ClosePane,
            HostCommand::WriteToFocusedPane(t) => HostCommandView::WriteToFocusedPane(t@),
            HostCommand::Log { level, text } => HostCommandView::Log { level: level@, text: text@ },
            HostCommand::Notify(t) => HostCommandView::Notify(t@),
            HostCommand::ShowPanel { title, body, interactive } => HostCommandView::ShowPanel {
                title: title@,
                body: body@,
                interactive,
            },
            HostCommand::ShowTable { title } => HostCommandView::ShowTable { title: title@ },
            HostCommand::ShowTree { title } => HostCommandView::ShowTree { title: title@ },
            HostCommand::ClosePanel => HostCommandView::ClosePanel,
            HostCommand::SetTheme { preset, patch } => HostCommandView::SetTheme {
                preset: opt_text(preset),
                patch,
            },
            HostCommand::Refuse => HostCommandView::Refuse,
        }
    }
}

/// What a `host/*` request asks for: the method picks the action, its
/// parameters fill it in (a split defaults to left/right, an unknown focus
/// direction or a missing text is refused; titles and bodies default to
/// empty, `input` to false, a log level to `info`).
pub open spec fn host_command_spec(req: HostRequest) -> HostCommandView {
    let m = req.method@;
    if m == "host/splitPane"@ {
        HostCommandView::SplitPane(
            if opt_text(req.dir) == Some("topbottom"@) {
                SplitDir::TopBottom
            } else {
                SplitDir::LeftRight
            },
        )
    } else if m == "host/focusPane"@ {
        let d = opt_text(req.dir);
        if d == Some("left"@) {
            HostCommandView::FocusPane(FocusDir::Left)
        } else if d == Some("right"@) {
            HostCommandView::FocusPane(FocusDir::Right)
        } else if d == Some("up"@) {
            HostCommandView::FocusPane(FocusDir::Up)
        } else if d == Some("down"@) {
            HostCommandView::FocusPane(FocusDir::Down)
        } else {
            HostCommandView::Refuse
        }
    } else if m == "host/closePane"@ {
        HostCommandView::ClosePane
    } else if m == "host/writeToFocusedPane"@ {
        match req.text {
            Some(t) => HostCommandView::WriteToFocusedPane(t@),
            None => HostCommandView::Refuse,
        }
    } else if m == "host/log"@ {
        match req.text {
            Some(t) => HostCommandView::Log { level: text_or(req.level, "info"@), text: t@ },
            None => HostCommandView::Refuse,
        }
    } else if m == "host/notify"@ {
        match req.text {
            Some(t) => HostCommandView::Notify(t@),
            None => HostCommandView::Refuse,
        }
    } else if m == "host/showPanel"@ {
        HostCommandView::ShowPanel {
            title: text_or(req.title, Seq::empty()),
            body: text_or(req.body, Seq::empty()),
            interactive: match req.input {
                Some(b) => b,
                None => false,
            },
        }
    } else if m == "host/showTable"@ {
        HostCommandView::ShowTable { title: text_or(req.title, Seq::empty()) }
    } else if m == "host/showTree"@ {
        HostCommandView::ShowTree { title: text_or(req.title, Seq::empty()) }
    } else if m == "host/closePanel"@ {
        HostCommandView::ClosePanel
    } else if m == "host/setTheme"@ {
        HostCommandView::SetTheme { preset: opt_text(req.preset), patch: req.has_patch }
    } else {
        HostCommandView::Refuse
    }
}

fn opt_eq(s: &Option<String>, lit: &str) -> (b: bool)
    ensures
        b == (opt_text(*s) == Some(lit@)),
{
    match s {
        Some(t) => str_eq(t.as_str(), lit),
        None => false,
    }
}

fn text_or_empty(s: &Option<String>) -> (t: String)
    ensures
        t@ == text_or(*s, Seq::empty()),
{
    match s {
        Some(t) => t.clone(),
        None => String::new(),
    }
}

/// A host request does what its method names, in the direction or with the
/// text it carries: `host/focusPane` moves focus the way `dir` says (left,
/// right, up or down, and is refused for any other direction), `host/splitPane`
/// splits top/bottom exactly for `dir` "topbottom" (else left/right),
/// `host/writeToFocusedPane` and `host/notify` carry `text` unchanged,
/// `host/closePane` and `host/closePanel` close, and a method no action is
/// known by is refused.
pub proof fn law_host_requests_do_what_they_name(req: HostRequest)
    ensures
        ({
            let m = req.method@;
            let c = host_command_spec(req);
            let dir_is = |d: Seq<char>| req.dir matches Some(x) && x@ == d;
            &&& m == "host/focusPane"@ && dir_is("left"@) ==> c == HostCommandView::FocusPane(FocusDir::Left)
            &&& m == "host/focusPane"@ && dir_is("right"@) ==> c == HostCommandView::FocusPane(FocusDir::Right)
            &&& m == "host/focusPane"@ && dir_is("up"@) ==> c == HostCommandView::FocusPane(FocusDir::Up)
            &&& m == "host/focusPane"@ && dir_is("down"@) ==> c == HostCommandView::FocusPane(FocusDir::Down)
            &&& m == "host/focusPane"@ && !dir_is("left"@) && !dir_is("right"@) && !dir_is("up"@) && !dir_is(
                "down"@,
            ) ==> c == HostCommandView::Refuse
            &&& m == "host/splitPane"@ ==> c == HostCommandView::SplitPane(
                if dir_is("topbottom"@) {
                    SplitDir::TopBottom
                } else {
                    SplitDir::LeftRight
                },
            )
            &&& m == "host/closePane"@ ==> c == HostCommandView::ClosePane
            &&& m == "host/closePanel"@ ==> c == HostCommandView::ClosePanel
            &&& m == "host/writeToFocusedPane"@ ==> c == (match req.text {
                Some(t) => HostCommandView::WriteToFocusedPane(t@),
                None => HostCommandView::Refuse,
            })
            &&& m == "host/notify"@ ==> c == (match req.text {
                Some(t) => HostCommandView::Notify(t@),
                None => HostCommandView::Refuse,
            })
            &&& m != "host/splitPane"@ && m != "host/focusPane"@ && m != "host/closePane"@ && m
                != "host/writeToFocusedPane"@ && m != "host/log"@ && m != "host/notify"@ && m
                != "host/showPanel"@ && m != "host/showTable"@ && m != "host/showTree"@ && m
                != "host/closePanel"@ && m != "host/setTheme"@ ==> c == HostCommandView::Refuse
        }),
{
    reveal_strlit("host/splitPane");
    reveal_strlit("host/focusPane");
    reveal_strlit("host/closePane");
    reveal_strlit("host/writeToFocusedPane");
    reveal_strlit("host/log");
    reveal_strlit("host/notify");
    reveal_strlit("host/showPanel");
    reveal_strlit("host/showTable");
    reveal_strlit("host/showTree");
    reveal_strlit("host/closePanel");
    reveal_strlit("host/setTheme");
    reveal_strlit("left");
    reveal_strlit("right");
    reveal_strlit("up");
    reveal_strlit("down");
    reveal_strlit("topbottom");
    assert("host/focusPane"@ != "host/splitPane"@) by {
        assert("host/focusPane"@[5] != "host/splitPane"@[5]);
    }
    assert("host/closePane"@ != "host/splitPane"@) by {
        assert("host/closePane"@[5] != "host/splitPane"@[5]);
    }
    assert("host/closePane"@ != "host/focusPane"@) by {
        assert("host/closePane"@[5] != "host/focusPane"@[5]);
    }
    assert("right"@ != "left"@) by {
        assert("right"@.len() != "left"@.len());
    }
    assert("up"@ != "left"@ && "up"@ != "right"@) by {
        assert("up"@.len() == 2);
    }
    assert("down"@ != "left"@ && "down"@ != "right"@ && "down"@ != "up"@) by {
        assert("down"@[0] != "left"@[0]);
        assert("down"@.len() == 4);
    }
    assert("topbottom"@.len() == 9);
    assert("host/closePanel"@.len() == 15);
    assert("host/splitPane"@.len() == 14 && "host/focusPane"@.len() == 14);
    assert("host/closePane"@.len() == 14 && "host/showPanel"@.len() == 14);
    assert("host/showTable"@.len() == 14 && "host/showTree"@.len() == 13);
    assert("host/writeToFocusedPane"@.len() == 23 && "host/log"@.len() == 8);
    assert("host/notify"@.len() == 11 && "host/setTheme"@.len() == 13);
}

/// Decide what a `host/*` request asks the host to do (`Refuse` answers it
/// `ok: false`). `host/getTheme` is a query answered before this.
pub fn host_command(req: &HostRequest) -> (c: HostCommand)
    ensures
        c.view() == host_command_spec(*req),
{
    let m = req.method.as_str();
    if str_eq(m, "host/splitPane") {
        HostCommand::SplitPane(
            if opt_eq(&req.dir, "topbottom") {
                SplitDir::TopBottom
            } else {
                SplitDir::LeftRight
            },
        )
    } else if str_eq(m, "host/focusPane") {
        if opt_eq(&req.dir, "left") {
            HostCommand::FocusPane(FocusDir::Left)
        } else if opt_eq(&req.dir, "right") {
            HostCommand::FocusPane(FocusDir::Right)
        } else if opt_eq(&req.dir, "up") {
            HostCommand::FocusPane(FocusDir::Up)
        } else if opt_eq(&req.dir, "down") {
            HostCommand::FocusPane(FocusDir::Down)
        } else {
            HostCommand::Refuse
        }
    } else if str_eq(m, "host/closePane") {
        HostCommand::ClosePane
    } else if str_eq(m, "host/writeToFocusedPane") {
        match &req.text {
            Some(t) => HostCommand::WriteToFocusedPane(t.clone()),
            None => HostCommand::Refuse,
        }
    } else if str_eq(m, "host/log") {
        match &req.text {
            Some(t) => HostCommand::Log {
                level: match &req.level {
                    Some(l) => l.clone(),
                    None => "info".to_owned(),
                },
                text: t.clone(),
            },
            None => HostCommand::Refuse,
        }
    } else if str_eq(m, "host/notify") {
        match &req.text {
            Some(t) => HostCommand::Notify(t.clone()),
            None => HostCommand::Refuse,
        }
    } else if str_eq(m, "host/showPanel") {
        HostCommand::ShowPanel {
            title: text_or_empty(&req.title),
            body: text_or_empty(&req.body),
            interactive: match req.input {
                Some(b) => b,
                None => false,
            },
        }
    } else if str_eq(m, "host/showTable") {
        HostCommand::ShowTable { title: text_or_empty(&req.title) }
    } else if str_eq(m, "host/showTree") {
        HostCommand::ShowTree { title: text_or_empty(&req.title) }
    } else if str_eq(m, "host/closePanel") {
        HostCommand::ClosePanel
    } else if str_eq(m, "host/setTheme") {
        HostCommand::SetTheme {
            preset: match &req.preset {
                Some(p) => Some(p.clone()),
                None => None,
            },
            patch: req.has_patch,
        }
    } else {
        HostCommand::Refuse
    }
}

// --- pane geometry -------------------------------------------------------------

/// The center of a rect (rounded down).
pub open spec fn center(r: Rect) -> (int, int) {
    (r.x + r.w / 2, r.y + r.h / 2)
}

/// Whether point `p` lies in direction `dir` from point `c`.
pub open spec fn toward(dir: FocusDir, p: (int, int), c: (int, int)) -> bool {
    match dir {
        FocusDir::Left => p.0 < c.0,
        FocusDir::Right => p.0 > c.0,
        FocusDir::Up => p.1 < c.1,
        FocusDir::Down => p.1 > c.1,
    }
}

/// The squared distance between two points.
pub open spec fn dist2(p: (int, int), c: (int, int)) -> int {
    (p.0 - c.0) * (p.0 - c.0) + (p.1 - c.1) * (p.1 - c.1)
}

/// Whether pane `i` is a candidate to move focus to from `cur` in `dir`.
pub open spec fn focus_candidate(panes: Seq<(PaneId, Rect)>, i: int, focused: PaneId, cur: Rect, dir: FocusDir) -> bool {
    panes[i].0 != focused && toward(dir, center(panes[i].1), center(cur))
}

/// Rects small enough that squared center distances fit in 64 bits.
pub open spec fn small_rect(r: Rect) -> bool {
    r.x + r.w < 0x8000_0000 && r.y + r.h < 0x8000_0000
}

/// The rect of the first pane with id `id`.
pub open spec fn rect_of(panes: Seq<(PaneId, Rect)>, id: PaneId) -> Option<Rect>
    decreases panes.len(),
{
    if panes.len() == 0 {
        None
    } else if panes[0].0 == id {
        Some(panes[0].1)
    } else {
        rect_of(panes.drop_first(), id)
    }
}

fn find_rect(panes: &Vec<(PaneId, Rect)>, id: PaneId) -> (r: Option<Rect>)
    ensures
        r == rect_of(panes@, id),
{
    let mut i: usize = 0;
    assert(panes@.skip(0) =~= panes@);
    while i < panes.len()
        invariant
            i <= panes@.len(),
            rect_of(panes@, id) == rect_of(panes@.skip(i as int), id),
        decreases panes.len() - i,
    {
        assert(panes@.skip(i as int).drop_first() =~= panes@.skip(i + 1));
        if panes[i].0 == id {
            return Some(panes[i].1);
        }
        i += 1;
    }
    None
}

/// The pane to move focus to from `focused` in `dir`: among the other panes
/// whose center lies that way from the focused pane's center, the one with
/// the nearest center (the first listed among equals); `None` when there is
/// none, or no focused pane.
pub fn nearest_pane(panes: &Vec<(PaneId, Rect)>, focused: PaneId, dir: FocusDir) -> (r: Option<PaneId>)
    requires
        forall|i: int| 0 <= i < panes@.len() ==> #[trigger] small_rect(panes@[i].1),
    ensures
        match rect_of(panes@, focused) {
            None => r is None,
            Some(cur) => match r {
                None => forall|j: int| 0 <= j < panes@.len() ==> !#[trigger] focus_candidate(panes@, j, focused, cur, dir),
                Some(id) => exists|k: int|
                    0 <= k < panes@.len() && #[trigger] focus_candidate(panes@, k, focused, cur, dir)
                        && panes@[k].0 == id && (forall|j: int|
                        0 <= j < panes@.len() && #[trigger] focus_candidate(panes@, j, focused, cur, dir)
                            ==> dist2(center(panes@[j].1), center(cur)) >= dist2(center(panes@[k].1), center(cur)))
                        && (forall|j: int|
                        0 <= j < k && #[trigger] focus_candidate(panes@, j, focused, cur, dir) ==> dist2(
                            center(panes@[j].1),
                            center(cur),
                        ) > dist2(center(panes@[k].1), center(cur))),
            },
        },
{
    let cur = match find_rect(panes, focused) {
        Some(r) => r,
        None => return None,
    };
    proof {
        lemma_rect_of_in(panes@, focused);
        let k = choose|k: int| 0 <= k < panes@.len() && panes@[k].1 == rect_of(panes@, focused)->0;
        assert(small_rect(panes@[k].1));
    }
    let cx = cur.x + cur.w / 2;
    let cy = cur.y + cur.h / 2;
    let ghost c = center(cur);
    let mut best: Option<usize> = None;
    let mut best_d: u64 = u64::MAX;
    let mut i: usize = 0;
    while i < panes.len()
        invariant
            i <= panes@.len(),
            (cx as int, cy as int) == c,
            c == center(cur),
            small_rect(cur),
            forall|i: int| 0 <= i < panes@.len() ==> #[trigger] small_rect(panes@[i].1),
            match best {
                None => best_d == u64::MAX && forall|j: int| 0 <= j < i ==> !#[trigger] focus_candidate(panes@, j, focused, cur, dir),
                Some(k) => k < i && focus_candidate(panes@, k as int, focused, cur, dir) && best_d == dist2(
                    center(panes@[k as int].1),
                    c,
                ) && (forall|j: int|
                    0 <= j < i && #[trigger] focus_candidate(panes@, j, focused, cur, dir) ==> dist2(
                        center(panes@[j].1),
                        c,
                    ) >= best_d) && (forall|j: int|
                    0 <= j < k && #[trigger] focus_candidate(panes@, j, focused, cur, dir) ==> dist2(
                        center(panes@[j].1),
                        c,
                    ) > best_d),
            },
        decreases panes.len() - i,
    {
        let (id, r) = panes[i];
        assert(small_rect(panes@[i as int].1));
        let px = r.x + r.w / 2;
        let py = r.y + r.h / 2;
        let ok = match dir {
            FocusDir::Left => px < cx,
            FocusDir::Right => px > cx,
            FocusDir::Up => py < cy,
            FocusDir::Down => py > cy,
        };
        if id != focused && ok {
            let dx: u64 = if px > cx { (px - cx) as u64 } else { (cx - px) as u64 };
            let dy: u64 = if py > cy { (py - cy) as u64 } else { (cy - py) as u64 };
            proof {
                assert(dx * dx <= 0x8000_0000u64 * 0x8000_0000u64) by (nonlinear_arith)
                    requires
                        dx <= 0x8000_0000u64,
                ;
                assert(dy * dy <= 0x8000_0000u64 * 0x8000_0000u64) by (nonlinear_arith)
                    requires
                        dy <= 0x8000_0000u64,
                ;
                assert(dx * dx == (px - cx) * (px - cx)) by (nonlinear_arith)
                    requires
                        dx == (if px > cx { px - cx } else { cx - px }),
                ;
                assert(dy * dy == (py - cy) * (py - cy)) by (nonlinear_arith)
                    requires
                        dy == (if py > cy { py - cy } else { cy - py }),
                ;
            }
            let d = dx * dx + dy * dy;
            assert(d == dist2(center(panes@[i as int].1), c));
            if d < best_d {
                best_d = d;
                best = Some(i);
            }
        }
        i += 1;
    }
    match best {
        Some(k) => Some(panes[k].0),
        None => None,
    }
}

proof fn lemma_rect_of_in(panes: Seq<(PaneId, Rect)>, id: PaneId)
    requires
        rect_of(panes, id) is Some,
    ensures
        exists|k: int| 0 <= k < panes.len() && panes[k].1 == rect_of(panes, id)->0,
    decreases panes.len(),
{
    if panes[0].0 != id {
        lemma_rect_of_in(panes.drop_first(), id);
        let k = choose|k: int| 0 <= k < panes.drop_first().len() && panes.drop_first()[k].1 == rect_of(panes, id)->0;
        assert(panes[k + 1].1 == rect_of(panes, id)->0);
    } else {
        assert(panes[0].1 == rect_of(panes, id)->0);
    }
}

/// A pane's place and grid size.
#[derive(Clone, Copy, Debug, PartialEq, Eq, Structural)]
pub struct PaneGeom {
    pub id: PaneId,
    pub rect: Rect,
    pub rows: usize,
    pub cols: usize,
}

/// Whether pixel (`px`, `py`) lies in `r`.
pub open spec fn rect_holds(r: Rect, px: int, py: int) -> bool {
    r.x <= px < r.x + r.w && r.y <= py < r.y + r.h
}

/// The (pane, row, col) of the cell under pixel (`px`, `py`) in the first
/// pane of `panes` (from `i` on) holding it, the row and column clamped to
/// the pane's grid.
pub open spec fn cell_at_spec(panes: Seq<PaneGeom>, px: int, py: int, cw: int, ch: int, i: int) -> Option<(PaneId, usize, usize)>
    decreases panes.len() - i,
{
    if i < 0 || i >= panes.len() {
        None
    } else if rect_holds(panes[i].rect, px, py) {
        let p = panes[i];
        let col = (px - p.rect.x) / cw;
        let row = (py - p.rect.y) / ch;
        let max_row = if p.rows >= 1 { p.rows - 1 } else { 0 };
        let max_col = if p.cols >= 1 { p.cols - 1 } else { 0 };
        Some((p.id, (if row < max_row { row } else { max_row }) as usize, (if col < max_col { col } else { max_col }) as usize))
    } else {
        cell_at_spec(panes, px, py, cw, ch, i + 1)
    }
}

/// Map a pixel to the (pane, row, col) under it, clamped to the pane's grid.
pub fn cell_at(panes: &Vec<PaneGeom>, px: usize, py: usize, cw: usize, ch: usize) -> (r: Option<(PaneId, usize, usize)>)
    requires
        cw >= 1,
        ch >= 1,
    ensures
        r == cell_at_spec(panes@, px as int, py as int, cw as int, ch as int, 0),
{
    let mut i: usize = 0;
    while i < panes.len()
        invariant
            i <= panes@.len(),
            cw >= 1,
            ch >= 1,
            cell_at_spec(panes@, px as int, py as int, cw as int, ch as int, 0) == cell_at_spec(
                panes@,
                px as int,
                py as int,
                cw as int,
                ch as int,
                i as int,
            ),
        decreases panes.len() - i,
    {
        let p = panes[i];
        let r = p.rect;
        if px >= r.x && px - r.x < r.w && py >= r.y && py - r.y < r.h {
            let col = (px - r.x) / cw;
            let row = (py - r.y) / ch;
            let max_row = if p.rows >= 1 { p.rows - 1 } else { 0 };
            let max_col = if p.cols >= 1 { p.cols - 1 } else { 0 };
            return Some((p.id, if row < max_row { row } else { max_row }, if col < max_col { col } else { max_col }));
        }
        i += 1;
    }
    None
}

// --- the search prompt ---------------------------------------------------------------

/// The decimal digits of `n`.
pub open spec fn decimal_chars(n: nat) -> Seq<char>
    decreases n,
{
    if n < 10 {
        seq![((48 + n) as u8) as char]
    } else {
        decimal_chars(n / 10).push(((48 + n % 10) as u8) as char)
    }
}

fn push_decimal_chars(out: &mut String, n: usize)
    ensures
        final(out)@ == old(out)@ + decimal_chars(n as nat),
    decreases n,
{
    if n < 10 {
        out.push((48 + n as u8) as char);
    } else {
        push_decimal_chars(out, n / 10);
        out.push((48 + (n % 10) as u8) as char);
    }
}

/// The search prompt bar's text: `/query   (cur/total)`, or
/// `/query   (no matches)`.
pub open spec fn search_prompt_spec(query: Seq<char>, cur: usize, total: usize) -> Seq<char> {
    seq!['/'] + query + seq![' ', ' ', ' '] + if total == 0 {
        "(no matches)"@
    } else {
        seq!['('] + decimal_chars(cur as nat) + seq!['/'] + decimal_chars(total as nat) + seq![')']
    }
}

/// The search prompt bar's text for a query and its `(current, total)` counts.
pub fn search_prompt(query: &str, cur: usize, total: usize) -> (s: String)
    ensures
        s@ == search_prompt_spec(query@, cur, total),
{
    let mut s = String::new();
    s.push('/');
    push_str(&mut s, query);
    s.push(' ');
    s.push(' ');
    s.push(' ');
    if total == 0 {
        push_str(&mut s, "(no matches)");
    } else {
        s.push('(');
        push_decimal_chars(&mut s, cur);
        s.push('/');
        push_decimal_chars(&mut s, total);
        s.push(')');
    }
    assert(s@ =~= search_prompt_spec(query@, cur, total));
    s
}

/// No modifier held.
pub open spec fn no_mods() -> Mods {
    Mods { ctrl: false, alt: false, shift: false, sup: false }
}

/// What Shift, Alt and Ctrl add to a mouse button code: 4, 8 and 16.
pub open spec fn mods_sum(mods: Mods) -> int {
    (if mods.shift { 4int } else { 0 }) + (if mods.alt { 8int } else { 0 }) + (if mods.ctrl { 16int } else { 0 })
}

proof fn lemma_mod_bits_add(b: u8, mods: Mods)
    requires
        b < 4,
    ensures
        (b as u32 | mod_bits(mods)) == b + mods_sum(mods),
        (b as u32 | mod_bits(no_mods())) == b,
{
    let (sh, al, ct) = (mods.shift, mods.alt, mods.ctrl);
    let bb = b as u32;
    assert((bb | ((if sh { 4u32 } else { 0u32 }) | (if al { 8u32 } else { 0u32 }) | (if ct { 16u32 } else { 0u32 })))
        == bb + (if sh { 4u32 } else { 0u32 }) + (if al { 8u32 } else { 0u32 }) + (if ct { 16u32 } else { 0u32 }))
        by (bit_vector)
        requires
            bb < 4,
    ;
    assert((bb | ((0u32 | 0u32) | 0u32)) == bb) by (bit_vector);
}

/// Mouse events are reported as the xterm protocols lay them out. In the SGR
/// encoding a press of button b at 0-based (col, row) is
/// `ESC [ < b ; col+1 ; row+1 M` and its release the same ending in `m`; in
/// the legacy encoding `ESC [ M` is followed by the button, column and row
/// (1-based) each offset by 32 and capped at 255, and a release is always
/// reported as button 3. In both a wheel step up or down is a press of
/// button 64 or 65, motion is a press of the held button plus 32, and
/// Shift, Alt and Ctrl add 4, 8 and 16 to the button.
pub proof fn law_mouse_reports_as_named(button: u8, col: usize, row: usize, sgr: bool, mods: Mods)
    requires
        button < 4,
        col < u32::MAX,
        row < u32::MAX,
    ensures
        encode_mouse_spec(MouseKind::Press, button, col, row, true, no_mods()) == seq![0x1bu8, 0x5b, 0x3c]
            + decimal(button as nat) + seq![0x3bu8] + decimal((col + 1) as nat) + seq![0x3bu8] + decimal((row + 1) as nat)
            + seq![0x4du8],
        encode_mouse_spec(MouseKind::Release, button, col, row, true, no_mods()) == seq![0x1bu8, 0x5b, 0x3c]
            + decimal(button as nat) + seq![0x3bu8] + decimal((col + 1) as nat) + seq![0x3bu8] + decimal((row + 1) as nat)
            + seq![0x6du8],
        encode_mouse_spec(MouseKind::Press, button, col, row, false, no_mods()) == seq![
            0x1bu8,
            0x5b,
            0x4d,
            (button + 32) as u8,
            (if col + 33 <= 255 { (col + 33) as u8 } else { 255u8 }),
            (if row + 33 <= 255 { (row + 33) as u8 } else { 255u8 }),
        ],
        encode_mouse_spec(MouseKind::Release, button, col, row, false, mods) == encode_mouse_spec(
            MouseKind::Press,
            3,
            col,
            row,
            false,
            mods,
        ),
        encode_mouse_spec(MouseKind::WheelUp, button, col, row, sgr, mods) == encode_mouse_spec(
            MouseKind::Press,
            64,
            col,
            row,
            sgr,
            mods,
        ),
        encode_mouse_spec(MouseKind::WheelDown, button, col, row, sgr, mods) == encode_mouse_spec(
            MouseKind::Press,
            65,
            col,
            row,
            sgr,
            mods,
        ),
        encode_mouse_spec(MouseKind::Motion, button, col, row, sgr, mods) == encode_mouse_spec(
            MouseKind::Press,
            (button + 32) as u8,
            col,
            row,
            sgr,
            mods,
        ),
        encode_mouse_spec(MouseKind::Press, button, col, row, sgr, mods) == encode_mouse_spec(
            MouseKind::Press,
            (button + mods_sum(mods)) as u8,
            col,
            row,
            sgr,
            no_mods(),
        ),
{
    lemma_mod_bits_add(button, mods);
    lemma_mod_bits_add(3, mods);
    let t = (button + mods_sum(mods)) as u8;
    assert(t as u32 == button + mods_sum(mods));
    assert((t as u32 | mod_bits(no_mods())) == t) by {
        let tt = t as u32;
        assert((tt | ((0u32 | 0u32) | 0u32)) == tt) by (bit_vector);
    }
    assert(((button + 32) as u8) as u32 == (button as u32 + 32) as u32);
}

/// A mouse event goes to the program only when it asked for it: never while
/// Shift is held (the terminal selects locally) or with tracking off;
/// presses, releases and wheel steps at every tracking level; motion with a
/// button held from button-event tracking up; motion with no button held
/// (button 3) only under any-event tracking.
pub proof fn law_reporting_follows_tracking(tracking: MouseTracking, kind: MouseKind, button: u8)
    ensures
        !should_report_spec(true, tracking, kind, button),
        !should_report_spec(false, MouseTracking::Off, kind, button),
        kind != MouseKind::Motion && tracking != MouseTracking::Off ==> should_report_spec(
            false,
            tracking,
            kind,
            button,
        ),
        !should_report_spec(false, MouseTracking::Normal, MouseKind::Motion, button),
        should_report_spec(false, MouseTracking::ButtonEvent, MouseKind::Motion, button) == (button != 3),
        should_report_spec(false, MouseTracking::AnyEvent, MouseKind::Motion, button),
{
}

/// The three modal surfaces agree on their common keys: Escape closes each,
/// the Up arrow moves one step back and the Down arrow one step forward,
/// and typed text reaches the recall overlay, the search bar and an
/// interactive panel unchanged. Enter takes the overlay's selection, steps
/// the search to its next match and sends an interactive panel's line. A
/// read-only panel never takes text: `q` closes it and other text does
/// nothing. Page Up and Page Down scroll a panel by a page.
pub proof fn law_modal_keys_agree(s: String, interactive: bool)
    ensures
        overlay_key_spec(KeyInput::Named(NamedKey::Escape)) == ModalKeyView::Close,
        search_key_spec(KeyInput::Named(NamedKey::Escape)) == ModalKeyView::Close,
        panel_key_spec(KeyInput::Named(NamedKey::Escape), interactive) == ModalKeyView::Close,
        overlay_key_spec(KeyInput::Named(NamedKey::ArrowUp)) == ModalKeyView::Move(-1),
        overlay_key_spec(KeyInput::Named(NamedKey::ArrowDown)) == ModalKeyView::Move(1),
        search_key_spec(KeyInput::Named(NamedKey::ArrowUp)) == ModalKeyView::Move(-1),
        search_key_spec(KeyInput::Named(NamedKey::ArrowDown)) == ModalKeyView::Move(1),
        panel_key_spec(KeyInput::Named(NamedKey::ArrowUp), interactive) == ModalKeyView::Move(-1),
        panel_key_spec(KeyInput::Named(NamedKey::ArrowDown), interactive) == ModalKeyView::Move(1),
        panel_key_spec(KeyInput::Named(NamedKey::PageUp), interactive) == ModalKeyView::Page(-1),
        panel_key_spec(KeyInput::Named(NamedKey::PageDown), interactive) == ModalKeyView::Page(1),
        overlay_key_spec(KeyInput::Character(s)) == ModalKeyView::Type(s@),
        search_key_spec(KeyInput::Character(s)) == ModalKeyView::Type(s@),
        panel_key_spec(KeyInput::Character(s), true) == ModalKeyView::Type(s@),
        overlay_key_spec(KeyInput::Named(NamedKey::Enter)) == ModalKeyView::Accept,
        search_key_spec(KeyInput::Named(NamedKey::Enter)) == search_key_spec(KeyInput::Named(NamedKey::ArrowDown)),
        panel_key_spec(KeyInput::Named(NamedKey::Enter), true) == ModalKeyView::Accept,
        overlay_key_spec(KeyInput::Named(NamedKey::Backspace)) == ModalKeyView::Backspace,
        search_key_spec(KeyInput::Named(NamedKey::Backspace)) == ModalKeyView::Backspace,
        panel_key_spec(KeyInput::Named(NamedKey::Backspace), true) == ModalKeyView::Backspace,
        forall|k: KeyInput| !(#[trigger] panel_key_spec(k, false) is Type),
        panel_key_spec(KeyInput::Character(s), false) == (if s@ == seq!['q'] {
            ModalKeyView::Close
        } else {
            ModalKeyView::Nothing
        }),
{
}

/// The global chord a key press makes, if the key has a name.
pub open spec fn chord_of(key: KeyInput, mods: Mods) -> Option<Seq<char>> {
    match key_name_spec(key) {
        Some(n) => Some(mods_seq(mods.ctrl, mods.alt, mods.shift, mods.sup) + n),
        None => None,
    }
}

/// Whether the key's chord is bound to the core action `a`.
pub open spec fn chord_runs(key: KeyInput, mods: Mods, reg: Registry, a: CoreAction) -> bool {
    match chord_of(key, mods) {
        Some(c) => reg.keymap@.contains_key(c) && reg.keymap@[c] == Action::Core(a),
        None => false,
    }
}

/// A key press is routed by priority: a bare modifier is ignored; a chord
/// bound to copy or paste runs whatever is open; otherwise an open panel
/// takes the key before the recall overlay, which takes it before the
/// search bar; with none open, the key after the prefix is a prefixed
/// command, the prefix chord starts one, another bound chord is dispatched,
/// and anything else is typed into the shell.
pub proof fn law_keys_route_by_priority(key: KeyInput, mods: Mods, reg: Registry, modal: Modal, pending_prefix: bool)
    ensures
        ({
            let r = route_key_spec(key, mods, reg, modal, pending_prefix);
            let chord = chord_of(key, mods);
            let clip = chord_runs(key, mods, reg, CoreAction::Copy) || chord_runs(
                key,
                mods,
                reg,
                CoreAction::Paste,
            );
            let open = modal.panel || modal.overlay || modal.search;
            let plain = !is_modifier_spec(key) && !clip;
            &&& is_modifier_spec(key) ==> r == KeyRouteView::Ignore
            &&& !is_modifier_spec(key) && chord_runs(key, mods, reg, CoreAction::Copy) ==> r
                == KeyRouteView::Clipboard(CoreAction::Copy)
            &&& !is_modifier_spec(key) && chord_runs(key, mods, reg, CoreAction::Paste) ==> r
                == KeyRouteView::Clipboard(CoreAction::Paste)
            &&& plain && modal.panel ==> r == KeyRouteView::Panel
            &&& plain && !modal.panel && modal.overlay ==> r == KeyRouteView::Overlay
            &&& plain && !modal.panel && !modal.overlay && modal.search ==> r == KeyRouteView::Search
            &&& plain && !open && pending_prefix ==> r == KeyRouteView::PrefixCommand
            &&& plain && !open && !pending_prefix && chord == Some(reg.prefix@) ==> r
                == KeyRouteView::StartPrefix
            &&& plain && !open && !pending_prefix && chord is Some && chord != Some(reg.prefix@)
                && reg.keymap@.contains_key(chord->0) ==> r == KeyRouteView::Chord(chord->0)
            &&& plain && !open && !pending_prefix && chord != Some(reg.prefix@) && (chord is None
                || !reg.keymap@.contains_key(chord->0)) ==> r == KeyRouteView::Type
        }),
{
}

/// A pane lying wholly on one side of the focused pane, level with it (the
/// same rows for left and right, the same columns for up and down), counts
/// as lying that way, and not any of the other three ways.
pub proof fn law_panes_beside_lie_that_way(a: Rect, cur: Rect)
    requires
        a.w >= 1,
        a.h >= 1,
        cur.w >= 1,
        cur.h >= 1,
    ensures
        a.x + a.w <= cur.x && a.y == cur.y && a.h == cur.h ==> {
            let (p, c) = (center(a), center(cur));
            toward(FocusDir::Left, p, c) && !toward(FocusDir::Right, p, c) && !toward(FocusDir::Up, p, c)
                && !toward(FocusDir::Down, p, c)
        },
        cur.x + cur.w <= a.x && a.y == cur.y && a.h == cur.h ==> {
            let (p, c) = (center(a), center(cur));
            toward(FocusDir::Right, p, c) && !toward(FocusDir::Left, p, c) && !toward(FocusDir::Up, p, c)
                && !toward(FocusDir::Down, p, c)
        },
        a.y + a.h <= cur.y && a.x == cur.x && a.w == cur.w ==> {
            let (p, c) = (center(a), center(cur));
            toward(FocusDir::Up, p, c) && !toward(FocusDir::Down, p, c) && !toward(FocusDir::Left, p, c)
                && !toward(FocusDir::Right, p, c)
        },
        cur.y + cur.h <= a.y && a.x == cur.x && a.w == cur.w ==> {
            let (p, c) = (center(a), center(cur));
            toward(FocusDir::Down, p, c) && !toward(FocusDir::Up, p, c) && !toward(FocusDir::Left, p, c)
                && !toward(FocusDir::Right, p, c)
        },
{
}

} // verus!
