//! Configurable keybindings. Every key action — the prefix, the built-in core
//! actions, and plugin commands — is addressed by a canonical chord string, so
//! a user's `keys.toml` can remap any of them.
//!
//! Two chord shapes:
//! - Global — modifiers + a key, e.g. `ctrl+shift+c`, matched on a single
//!   keypress (the prefix itself, copy/paste, scrollback scroll).
//! - Prefixed — `prefix r`: a key pressed after the prefix key.
//!
//! Both are normalized to a canonical form (modifiers in a fixed order,
//! lowercased) so a config string and a live keypress compare as equal strings.

use vstd::prelude::*;
use crate::strmap::StrMap;
use crate::text::{
    chars_of, is_prefix, is_white_space, lowercase, push_chars, push_str, starts_with_at, str_eq,
    string_of, trim_end_seq, trim_seq, trim_start_seq, trim_string,
};

verus! {

/// A built-in action handled in-process by the window (not a plugin command).
#[derive(Clone, Copy, Debug, PartialEq, Eq, Hash, Structural)]
pub enum CoreAction {
    /// Command-block recall overlay.
    Recall,
    /// Scrollback text search.
    Search,
    /// Send a literal prefix byte (Ctrl-A) to the shell.
    LiteralPrefix,
    Copy,
    Paste,
    ScrollUp,
    ScrollDown,
}

/// The number of core actions.
pub const CORE_ACTIONS: usize = 7;

/// The core actions in their fixed order.
pub open spec fn action_at(i: int) -> CoreAction {
    if i == 0 {
        CoreAction::Recall
    } else if i == 1 {
        CoreAction::Search
    } else if i == 2 {
        CoreAction::LiteralPrefix
    } else if i == 3 {
        CoreAction::Copy
    } else if i == 4 {
        CoreAction::Paste
    } else if i == 5 {
        CoreAction::ScrollUp
    } else {
        CoreAction::ScrollDown
    }
}

impl CoreAction {
    /// The position of the action in the fixed order.
    pub open spec fn ordinal(self) -> int {
        match self {
            CoreAction::Recall => 0,
            CoreAction::Search => 1,
            CoreAction::LiteralPrefix => 2,
            CoreAction::Copy => 3,
            CoreAction::Paste => 4,
            CoreAction::ScrollUp => 5,
            CoreAction::ScrollDown => 6,
        }
    }

    /// The built-in chord for each action.
    pub open spec fn default_chord_spec(self) -> Seq<char> {
        match self {
            CoreAction::Recall => "prefix r"@,
            CoreAction::Search => "prefix /"@,
            CoreAction::LiteralPrefix => "prefix a"@,
            CoreAction::Copy => "ctrl+shift+c"@,
            CoreAction::Paste => "ctrl+shift+v"@,
            CoreAction::ScrollUp => "shift+pageup"@,
            CoreAction::ScrollDown => "shift+pagedown"@,
        }
    }

    /// The built-in chord for each action (what applies when no `keys.toml`
    /// exists). Each is already in canonical form.
    pub fn default_chord(self) -> (s: &'static str)
        ensures
            s@ == self.default_chord_spec(),
    {
        match self {
            CoreAction::Recall => "prefix r",
            CoreAction::Search => "prefix /",
            CoreAction::LiteralPrefix => "prefix a",
            CoreAction::Copy => "ctrl+shift+c",
            CoreAction::Paste => "ctrl+shift+v",
            CoreAction::ScrollUp => "shift+pageup",
            CoreAction::ScrollDown => "shift+pagedown",
        }
    }
}

/// The lengths and a few chars of a chord, enough to tell the default chords
/// apart.
spec fn chord_signature(s: Seq<char>) -> (nat, char, char, char) {
    (s.len(), s[0], s[7], s[11])
}

/// Distinct core actions have distinct default chords.
pub proof fn lemma_default_chords_distinct(a: CoreAction, b: CoreAction)
    requires
        a != b,
    ensures
        a.default_chord_spec() != b.default_chord_spec(),
{
    reveal_strlit("prefix r");
    reveal_strlit("prefix /");
    reveal_strlit("prefix a");
    reveal_strlit("ctrl+shift+c");
    reveal_strlit("ctrl+shift+v");
    reveal_strlit("shift+pageup");
    reveal_strlit("shift+pagedown");
    assert(chord_signature(a.default_chord_spec()) != chord_signature(b.default_chord_spec()));
}

/// The named (non-character) keys the bindings and the key encoder know.
#[derive(Clone, Copy, Debug, PartialEq, Eq, Structural)]
pub enum NamedKey {
    PageUp,
    PageDown,
    Enter,
    Space,
    Tab,
    Escape,
    Backspace,
    ArrowUp,
    ArrowDown,
    ArrowLeft,
    ArrowRight,
    Home,
    End,
    Shift,
    Control,
    Alt,
    Super,
    Meta,
    Hyper,
    /// Any other named key.
    Other,
}

/// The logical key of a keypress: layout-resolved text, or a named key.
#[derive(Clone, Debug)]
pub enum KeyInput {
    Character(String),
    Named(NamedKey),
    /// A key with no logical meaning for us.
    Unidentified,
}

/// The modifier keys held during an event.
#[derive(Clone, Copy, Debug, PartialEq, Eq, Structural, Default)]
pub struct Mods {
    pub ctrl: bool,
    pub alt: bool,
    pub shift: bool,
    pub sup: bool,
}

/// The chord name of a named key, for those that have one.
pub open spec fn named_key_name(k: NamedKey) -> Option<Seq<char>> {
    match k {
        NamedKey::PageUp => Some("pageup"@),
        NamedKey::PageDown => Some("pagedown"@),
        NamedKey::Enter => Some("enter"@),
        NamedKey::Space => Some("space"@),
        NamedKey::Tab => Some("tab"@),
        NamedKey::Escape => Some("esc"@),
        NamedKey::Backspace => Some("backspace"@),
        NamedKey::ArrowUp => Some("up"@),
        NamedKey::ArrowDown => Some("down"@),
        NamedKey::ArrowLeft => Some("left"@),
        NamedKey::ArrowRight => Some("right"@),
        NamedKey::Home => Some("home"@),
        NamedKey::End => Some("end"@),
        _ => None,
    }
}

/// The chord name of a key: its text lowercased, or a named key's name.
pub open spec fn key_name_spec(k: KeyInput) -> Option<Seq<char>> {
    match k {
        KeyInput::Character(s) => Some(lowercase(s@)),
        KeyInput::Named(n) => named_key_name(n),
        KeyInput::Unidentified => None,
    }
}

/// The name of a key as it appears in a chord string: a single lowercased char
/// (`a`, `/`, `|`) or a well-known named key (`pageup`, `enter`, `up`, …).
pub fn key_name(logical: &KeyInput) -> (r: Option<String>)
    ensures
        match r {
            Some(s) => key_name_spec(*logical) == Some(s@),
            None => key_name_spec(*logical) is None,
        },
{
    match logical {
        KeyInput::Character(s) => Some(s.as_str().to_lowercase()),
        KeyInput::Named(NamedKey::PageUp) => Some("pageup".to_owned()),
        KeyInput::Named(NamedKey::PageDown) => Some("pagedown".to_owned()),
        KeyInput::Named(NamedKey::Enter) => Some("enter".to_owned()),
        KeyInput::Named(NamedKey::Space) => Some("space".to_owned()),
        KeyInput::Named(NamedKey::Tab) => Some("tab".to_owned()),
        KeyInput::Named(NamedKey::Escape) => Some("esc".to_owned()),
        KeyInput::Named(NamedKey::Backspace) => Some("backspace".to_owned()),
        KeyInput::Named(NamedKey::ArrowUp) => Some("up".to_owned()),
        KeyInput::Named(NamedKey::ArrowDown) => Some("down".to_owned()),
        KeyInput::Named(NamedKey::ArrowLeft) => Some("left".to_owned()),
        KeyInput::Named(NamedKey::ArrowRight) => Some("right".to_owned()),
        KeyInput::Named(NamedKey::Home) => Some("home".to_owned()),
        KeyInput::Named(NamedKey::End) => Some("end".to_owned()),
        _ => None,
    }
}

/// The canonical modifier prefix for a set of held modifiers.
pub open spec fn mods_seq(ctrl: bool, alt: bool, shift: bool, sup: bool) -> Seq<char> {
    (if ctrl { "ctrl+"@ } else { Seq::empty() }) + (if alt { "alt+"@ } else { Seq::empty() }) + (
    if shift {
        "shift+"@
    } else {
        Seq::empty()
    }) + (if sup { "super+"@ } else { Seq::empty() })
}

/// Append the canonical modifier prefix to `out`.
fn push_mods(out: &mut String, ctrl: bool, alt: bool, shift: bool, sup: bool)
    ensures
        final(out)@ == old(out)@ + mods_seq(ctrl, alt, shift, sup),
{
    let ghost start = out@;
    if ctrl {
        push_str(out, "ctrl+");
    }
    let ghost a = out@;
    if alt {
        push_str(out, "alt+");
    }
    let ghost b = out@;
    if shift {
        push_str(out, "shift+");
    }
    let ghost c = out@;
    if sup {
        push_str(out, "super+");
    }
    proof {
        assert(a == start + (if ctrl { "ctrl+"@ } else { Seq::<char>::empty() }));
        assert(b == a + (if alt { "alt+"@ } else { Seq::<char>::empty() }));
        assert(c == b + (if shift { "shift+"@ } else { Seq::<char>::empty() }));
        assert(out@ =~= start + mods_seq(ctrl, alt, shift, sup));
    }
}

/// Canonical modifier prefix (`ctrl+`, `ctrl+shift+`, …) in a fixed order so
/// the same combination always renders identically.
pub fn mods_prefix(mods: Mods) -> (s: String)
    ensures
        s@ == mods_seq(mods.ctrl, mods.alt, mods.shift, mods.sup),
{
    let mut s = String::new();
    push_mods(&mut s, mods.ctrl, mods.alt, mods.shift, mods.sup);
    s
}

/// The canonical global chord a live keypress represents, e.g. `ctrl+shift+c`.
pub fn event_global_chord(key: &KeyInput, mods: Mods) -> (r: Option<String>)
    ensures
        match r {
            Some(c) => key_name_spec(*key) matches Some(n) && c@ == mods_seq(
                mods.ctrl,
                mods.alt,
                mods.shift,
                mods.sup,
            ) + n,
            None => key_name_spec(*key) is None,
        },
{
    let name = key_name(key)?;
    let mut s = mods_prefix(mods);
    push_str(&mut s, name.as_str());
    Some(s)
}

/// The canonical prefixed chord a post-prefix keypress represents, e.g.
/// `prefix r`.
pub fn event_prefixed_chord(key: &KeyInput) -> (r: Option<String>)
    ensures
        match r {
            Some(c) => key_name_spec(*key) matches Some(n) && c@ == "prefix "@ + n,
            None => key_name_spec(*key) is None,
        },
{
    let name = key_name(key)?;
    let mut s = String::new();
    push_str(&mut s, "prefix ");
    push_str(&mut s, name.as_str());
    Some(s)
}

/// The `+`-separated tokens of `s` (always at least one, possibly empty).
pub open spec fn split_plus(s: Seq<char>) -> Seq<Seq<char>>
    decreases s.len(),
{
    if s.len() == 0 {
        seq![Seq::empty()]
    } else {
        let p = split_plus(s.drop_last());
        if s.last() == '+' {
            p.push(Seq::empty())
        } else {
            p.update(p.len() - 1, p.last().push(s.last()))
        }
    }
}

/// What the modifier tokens of a chord have said so far.
pub struct ChordScan {
    pub ctrl: bool,
    pub alt: bool,
    pub shift: bool,
    pub sup: bool,
    pub key: Option<Seq<char>>,
}

/// A chord token as compared: trimmed, then lowercased.
pub open spec fn norm_token(t: Seq<char>) -> Seq<char> {
    lowercase(trim_seq(t))
}

/// Take one normalized token into the scan; `None` when the chord is
/// malformed (an empty token, or a second non-modifier key).
pub open spec fn scan_step(st: ChordScan, n: Seq<char>) -> Option<ChordScan> {
    if n.len() == 0 {
        None
    } else if n == "ctrl"@ || n == "control"@ {
        Some(ChordScan { ctrl: true, alt: st.alt, shift: st.shift, sup: st.sup, key: st.key })
    } else if n == "alt"@ || n == "opt"@ || n == "option"@ {
        Some(ChordScan { ctrl: st.ctrl, alt: true, shift: st.shift, sup: st.sup, key: st.key })
    } else if n == "shift"@ {
        Some(ChordScan { ctrl: st.ctrl, alt: st.alt, shift: true, sup: st.sup, key: st.key })
    } else if n == "super"@ || n == "cmd"@ || n == "meta"@ || n == "win"@ {
        Some(ChordScan { ctrl: st.ctrl, alt: st.alt, shift: st.shift, sup: true, key: st.key })
    } else if st.key is Some {
        None
    } else {
        Some(ChordScan { ctrl: st.ctrl, alt: st.alt, shift: st.shift, sup: st.sup, key: Some(n) })
    }
}

/// Scan the tokens of a chord in order.
pub open spec fn scan_tokens(toks: Seq<Seq<char>>) -> Option<ChordScan>
    decreases toks.len(),
{
    if toks.len() == 0 {
        Some(ChordScan { ctrl: false, alt: false, shift: false, sup: false, key: None })
    } else {
        match scan_tokens(toks.drop_last()) {
            None => None,
            Some(st) => scan_step(st, toks.last()),
        }
    }
}

/// Each token normalized.
pub open spec fn norm_tokens(ts: Seq<Seq<char>>) -> Seq<Seq<char>> {
    Seq::new(ts.len(), |i: int| norm_token(ts[i]))
}

/// The normalized tokens of a chord: split at `+`, each trimmed and
/// lowercased.
pub open spec fn chord_tokens(t: Seq<char>) -> Seq<Seq<char>> {
    norm_tokens(split_plus(t))
}

/// The chord normalized tokens spell: the modifiers in canonical order, then
/// the key; `None` when they are malformed (see `scan_step`), name no key, or
/// name `prefix` as the key.
pub open spec fn chord_of(toks: Seq<Seq<char>>) -> Option<Seq<char>> {
    match scan_tokens(toks) {
        Some(st) => match st.key {
            Some(k) => if k == "prefix"@ {
                None
            } else {
                Some(mods_seq(st.ctrl, st.alt, st.shift, st.sup) + k)
            },
            None => None,
        },
        None => None,
    }
}

/// The canonical form of a chord spec, or `None` when it is malformed.
pub open spec fn canonical_spec(spec: Seq<char>) -> Option<Seq<char>> {
    let t = trim_seq(spec);
    if is_prefix("prefix "@, t) || is_prefix("prefix+"@, t) {
        let key = lowercase(trim_seq(t.skip("prefix "@.len() as int)));
        if key.len() > 0 {
            Some("prefix "@ + key)
        } else {
            None
        }
    } else {
        chord_of(chord_tokens(t))
    }
}

/// The texts of a list of strings.
pub open spec fn token_texts(v: Seq<String>) -> Seq<Seq<char>> {
    Seq::new(v.len(), |i: int| v[i]@)
}

proof fn lemma_split_plus_nonempty(s: Seq<char>)
    ensures
        split_plus(s).len() >= 1,
    decreases s.len(),
{
    if s.len() > 0 {
        lemma_split_plus_nonempty(s.drop_last());
    }
}

// --- a live keypress's chord reads back as itself -------------------------

/// The words `scan_step` takes as modifiers.
pub open spec fn is_modifier_word(n: Seq<char>) -> bool {
    ||| n == "ctrl"@
    ||| n == "control"@
    ||| n == "alt"@
    ||| n == "opt"@
    ||| n == "option"@
    ||| n == "shift"@
    ||| n == "super"@
    ||| n == "cmd"@
    ||| n == "meta"@
    ||| n == "win"@
}

/// A key name the chord grammar reads back as itself: not empty, without a
/// `+`, without white space at its ends, already lowercase, and neither a
/// modifier word nor the `prefix` keyword.
pub open spec fn plain_key_name(n: Seq<char>) -> bool {
    &&& n.len() > 0
    &&& !n.contains('+')
    &&& trim_seq(n) == n
    &&& lowercase(n) == n
    &&& !is_modifier_word(n)
    &&& n != "prefix"@
    &&& !is_prefix("prefix "@, n)
}

/// Lowercasing leaves the four canonical modifier words as they are.
pub open spec fn modifier_words_stay_lowercase() -> bool {
    &&& lowercase("ctrl"@) == "ctrl"@
    &&& lowercase("alt"@) == "alt"@
    &&& lowercase("shift"@) == "shift"@
    &&& lowercase("super"@) == "super"@
}

proof fn lemma_trim_start_shorter(s: Seq<char>)
    ensures
        trim_start_seq(s).len() <= s.len(),
        s.len() > 0 && is_white_space(s[0]) ==> trim_start_seq(s).len() < s.len(),
    decreases s.len(),
{
    if s.len() > 0 && is_white_space(s[0]) {
        lemma_trim_start_shorter(s.drop_first());
    }
}

proof fn lemma_trim_end_shorter(s: Seq<char>)
    ensures
        trim_end_seq(s).len() <= s.len(),
        s.len() > 0 && is_white_space(s.last()) ==> trim_end_seq(s).len() < s.len(),
    decreases s.len(),
{
    if s.len() > 0 && is_white_space(s.last()) {
        lemma_trim_end_shorter(s.drop_last());
    }
}

/// A string that trimming leaves alone has no white space at its ends.
proof fn lemma_trim_fixed_ends(n: Seq<char>)
    requires
        n.len() > 0,
        trim_seq(n) == n,
    ensures
        !is_white_space(n[0]),
        !is_white_space(n.last()),
{
    lemma_trim_start_shorter(n);
    lemma_trim_end_shorter(trim_start_seq(n));
    if !is_white_space(n[0]) {
        assert(trim_start_seq(n) == n);
        lemma_trim_end_shorter(n);
    }
}

/// A string with no white space at its ends trims to itself.
proof fn lemma_trim_plain(s: Seq<char>)
    requires
        s.len() > 0,
        !is_white_space(s[0]),
        !is_white_space(s.last()),
    ensures
        trim_seq(s) == s,
{
    assert(trim_start_seq(s) == s);
    assert(trim_end_seq(s) == s);
}

/// Appending text without a `+` extends the last token.
proof fn lemma_split_plus_extend(a: Seq<char>, b: Seq<char>)
    requires
        !b.contains('+'),
    ensures
        split_plus(a + b) == split_plus(a).update(
            split_plus(a).len() - 1,
            split_plus(a).last() + b,
        ),
    decreases b.len(),
{
    lemma_split_plus_nonempty(a);
    let q = split_plus(a);
    if b.len() == 0 {
        assert(a + b =~= a);
        assert(q.last() + b =~= q.last());
        assert(q.update(q.len() - 1, q.last()) =~= q);
    } else {
        let b0 = b.drop_last();
        assert(!b0.contains('+')) by {
            if b0.contains('+') {
                let i = choose|i: int| 0 <= i < b0.len() && b0[i] == '+';
                assert(b[i] == '+');
            }
        }
        lemma_split_plus_extend(a, b0);
        assert((a + b).drop_last() =~= a + b0);
        assert((a + b).last() == b.last());
        assert(b.last() != '+') by {
            assert(b[b.len() - 1] == b.last());
        }
        let p = split_plus(a + b0);
        assert(p.last() == q.last() + b0);
        assert(p.last().push(b.last()) =~= q.last() + b);
        assert(p.update(p.len() - 1, p.last().push(b.last())) =~= q.update(
            q.len() - 1,
            q.last() + b,
        ));
    }
}

/// After text that ends a token list with an empty token, a `+`-free word
/// becomes that last token.
proof fn lemma_split_plus_word(x: Seq<char>, ws: Seq<Seq<char>>, w: Seq<char>)
    requires
        split_plus(x) == ws.push(Seq::<char>::empty()),
        !w.contains('+'),
    ensures
        split_plus(x + w) == ws.push(w),
{
    lemma_split_plus_extend(x, w);
    assert(Seq::<char>::empty() + w =~= w);
    assert(ws.push(Seq::<char>::empty()).update(ws.len() as int, w) =~= ws.push(w));
}

/// A modifier word followed by `+` adds the word as a token and opens an
/// empty one.
proof fn lemma_split_plus_modifier(x: Seq<char>, ws: Seq<Seq<char>>, w: Seq<char>)
    requires
        split_plus(x) == ws.push(Seq::<char>::empty()),
        !w.contains('+'),
    ensures
        split_plus(x + w.push('+')) == ws.push(w).push(Seq::<char>::empty()),
{
    lemma_split_plus_word(x, ws, w);
    assert((x + w).push('+') =~= x + w.push('+'));
    assert((x + w).push('+').drop_last() =~= x + w);
}

/// One modifier of a chord read in: its word and `+` appended to the text,
/// the word to the tokens, and its flag set in the scan.
proof fn lemma_modifier_stage(
    x: Seq<char>,
    ws: Seq<Seq<char>>,
    st: ChordScan,
    w: Seq<char>,
    next: ChordScan,
)
    requires
        split_plus(x) == ws.push(Seq::<char>::empty()),
        norm_tokens(ws) == ws,
        scan_tokens(ws) == Some(st),
        w.len() > 0,
        !w.contains('+'),
        !is_white_space(w[0]),
        !is_white_space(w.last()),
        lowercase(w) == w,
        scan_step(st, w) == Some(next),
    ensures
        split_plus(x + w.push('+')) == ws.push(w).push(Seq::<char>::empty()),
        norm_tokens(ws.push(w)) == ws.push(w),
        scan_tokens(ws.push(w)) == Some(next),
{
    lemma_split_plus_modifier(x, ws, w);
    lemma_trim_plain(w);
    assert(ws.push(w).drop_last() =~= ws);
    assert(norm_tokens(ws.push(w)) =~= ws.push(w)) by {
        assert forall|i: int| 0 <= i < ws.len() implies norm_token(ws[i]) == ws[i] by {
            assert(norm_tokens(ws)[i] == norm_token(ws[i]));
        }
    }
}

/// The chord a live keypress makes reads back unchanged through the chord
/// grammar of the key configuration, both as a global chord and after the
/// prefix: a chord written in the configuration and the same chord pressed
/// compare equal. This holds for key names the grammar can hold
/// (`plain_key_name`; the `+` key, for one, cannot be written in a chord),
/// given that lowercasing leaves the modifier words alone.
pub proof fn law_live_chords_are_canonical(n: Seq<char>, ctrl: bool, alt: bool, shift: bool, sup: bool)
    requires
        plain_key_name(n),
        modifier_words_stay_lowercase(),
    ensures
        canonical_spec(mods_seq(ctrl, alt, shift, sup) + n) == Some(
            mods_seq(ctrl, alt, shift, sup) + n,
        ),
        canonical_spec("prefix "@ + n) == Some("prefix "@ + n),
{
    reveal_strlit("ctrl+");
    reveal_strlit("alt+");
    reveal_strlit("shift+");
    reveal_strlit("super+");
    reveal_strlit("ctrl");
    reveal_strlit("alt");
    reveal_strlit("shift");
    reveal_strlit("super");
    reveal_strlit("prefix ");
    reveal_strlit("prefix+");
    reveal_strlit("prefix");
    reveal_strlit("control");
    reveal_strlit("opt");
    reveal_strlit("option");
    reveal_strlit("cmd");
    reveal_strlit("meta");
    reveal_strlit("win");
    lemma_trim_fixed_ends(n);
    let e = Seq::<char>::empty();
    let none = ChordScan { ctrl: false, alt: false, shift: false, sup: false, key: None };
    // The modifiers, one at a time.
    let x0 = e;
    let w0 = Seq::<Seq<char>>::empty();
    assert(split_plus(x0) == w0.push(e));
    assert(norm_tokens(w0) =~= w0);
    let (x1, w1, s1) = if ctrl {
        let nx = ChordScan { ctrl: true, ..none };
        lemma_modifier_stage(x0, w0, none, "ctrl"@, nx);
        assert("ctrl"@.push('+') =~= "ctrl+"@);
        (x0 + "ctrl+"@, w0.push("ctrl"@), nx)
    } else {
        (x0, w0, none)
    };
    let (x2, w2, s2) = if alt {
        let nx = ChordScan { alt: true, ..s1 };
        lemma_modifier_stage(x1, w1, s1, "alt"@, nx);
        assert("alt"@.push('+') =~= "alt+"@);
        (x1 + "alt+"@, w1.push("alt"@), nx)
    } else {
        (x1, w1, s1)
    };
    let (x3, w3, s3) = if shift {
        let nx = ChordScan { shift: true, ..s2 };
        lemma_modifier_stage(x2, w2, s2, "shift"@, nx);
        assert("shift"@.push('+') =~= "shift+"@);
        (x2 + "shift+"@, w2.push("shift"@), nx)
    } else {
        (x2, w2, s2)
    };
    let (x4, w4, s4) = if sup {
        let nx = ChordScan { sup: true, ..s3 };
        lemma_modifier_stage(x3, w3, s3, "super"@, nx);
        assert("super"@.push('+') =~= "super+"@);
        (x3 + "super+"@, w3.push("super"@), nx)
    } else {
        (x3, w3, s3)
    };
    let m = mods_seq(ctrl, alt, shift, sup);
    assert(x4 =~= m);
    assert(s4 == ChordScan { ctrl, alt, shift, sup, key: None });
    assert(x4.len() == 0 || x4[0] == 'c' || x4[0] == 'a' || x4[0] == 's');
    // The key.
    let t = m + n;
    lemma_split_plus_word(m, w4, n);
    assert(w4.push(n).drop_last() =~= w4);
    assert(norm_token(n) == n);
    assert(split_plus(t) == w4.push(n));
    assert(chord_tokens(t) =~= w4.push(n)) by {
        assert forall|i: int| 0 <= i < w4.len() implies norm_token(w4[i]) == w4[i] by {
            assert(norm_tokens(w4)[i] == norm_token(w4[i]));
        }
    }
    assert(scan_tokens(w4) == Some(s4));
    assert(scan_tokens(w4.push(n)) == scan_step(s4, n));
    assert(!is_modifier_word(n));
    assert(scan_step(s4, n) == Some(ChordScan { ctrl, alt, shift, sup, key: Some(n) }));
    assert(scan_tokens(split_plus(t)) == Some(ChordScan { ctrl, alt, shift, sup, key: Some(n) }));
    assert(t.last() == n.last());
    if m.len() == 0 {
        assert(t =~= n);
        assert(!is_prefix("prefix+"@, t)) by {
            if is_prefix("prefix+"@, t) {
                assert(t.subrange(0, 7)[6] == '+');
                assert(n[6] == '+');
            }
        }
    } else {
        assert(t[0] == m[0]);
        assert(!is_prefix("prefix "@, t)) by {
            if is_prefix("prefix "@, t) {
                assert(t.subrange(0, 7)[0] == 'p');
            }
        }
        assert(!is_prefix("prefix+"@, t)) by {
            if is_prefix("prefix+"@, t) {
                assert(t.subrange(0, 7)[0] == 'p');
            }
        }
    }
    lemma_trim_plain(t);
    // After the prefix.
    let u = "prefix "@ + n;
    assert(u[0] == 'p');
    assert(u.last() == n.last());
    lemma_trim_plain(u);
    assert(u.subrange(0, 7) =~= "prefix "@);
    assert(u.skip(7) =~= n);
}

/// The scan state of `chord_from_tokens`, as exec values.
struct ScanState {
    ctrl: bool,
    alt: bool,
    shift: bool,
    sup: bool,
    key: Option<String>,
}

impl ScanState {
    spec fn view(self) -> ChordScan {
        ChordScan {
            ctrl: self.ctrl,
            alt: self.alt,
            shift: self.shift,
            sup: self.sup,
            key: match self.key {
                Some(k) => Some(k@),
                None => None,
            },
        }
    }

    /// Take one normalized token; false when the chord turns out malformed.
    fn step(&mut self, tok: &str) -> (ok: bool)
        ensures
            ok ==> scan_step(old(self).view(), tok@) == Some(final(self).view()),
            !ok ==> scan_step(old(self).view(), tok@) is None,
    {
        if tok.is_empty() {
            false
        } else if str_eq(tok, "ctrl") || str_eq(tok, "control") {
            self.ctrl = true;
            true
        } else if str_eq(tok, "alt") || str_eq(tok, "opt") || str_eq(tok, "option") {
            self.alt = true;
            true
        } else if str_eq(tok, "shift") {
            self.shift = true;
            true
        } else if str_eq(tok, "super") || str_eq(tok, "cmd") || str_eq(tok, "meta") || str_eq(
            tok,
            "win",
        ) {
            self.sup = true;
            true
        } else if self.key.is_some() {
            false
        } else {
            self.key = Some(tok.to_owned());
            true
        }
    }
}

/// Whether `s` lowercases to itself.
fn lowercases_to_itself(s: &str) -> (b: bool)
    ensures
        b == (lowercase(s@) == s@),
{
    let l = s.to_lowercase();
    str_eq(l.as_str(), s)
}

/// Whether a key name is one the chord grammar reads back as itself.
fn is_plain_key_name(n: &str) -> (b: bool)
    ensures
        b == plain_key_name(n@),
{
    proof {
        reveal_strlit("prefix ");
    }
    let v = chars_of(n);
    if v.len() == 0 {
        return false;
    }
    let mut i: usize = 0;
    while i < v.len()
        invariant
            i <= v@.len(),
            v@ == n@,
            forall|j: int| 0 <= j < i ==> v@[j] != '+',
        decreases v.len() - i,
    {
        if v[i] == '+' {
            assert(n@.contains('+')) by {
                assert(n@[i as int] == '+');
            }
            return false;
        }
        i += 1;
    }
    assert(!n@.contains('+'));
    let t = trim_string(n);
    if !str_eq(t.as_str(), n) || !lowercases_to_itself(n) {
        return false;
    }
    if str_eq(n, "ctrl") || str_eq(n, "control") || str_eq(n, "alt") || str_eq(n, "opt") || str_eq(
        n,
        "option",
    ) || str_eq(n, "shift") || str_eq(n, "super") || str_eq(n, "cmd") || str_eq(n, "meta")
        || str_eq(n, "win") || str_eq(n, "prefix") {
        return false;
    }
    let p = chars_of("prefix ");
    assert(v@.subrange(0, v@.len() as int) =~= v@);
    !starts_with_at(v.as_slice(), 0, p.as_slice())
}

/// The chord a live keypress makes, when the chord grammar of the key
/// configuration reads it back as itself (as a global chord and after the
/// prefix), so a configured chord compares equal to it; `None` when the key
/// has no chord name, when its name is one the grammar cannot hold (the `+`
/// key, say), or when lowercasing would change a modifier word.
pub fn live_chord(key: &KeyInput, mods: Mods) -> (r: Option<String>)
    ensures
        match r {
            Some(c) => key_name_spec(*key) matches Some(n) && {
                &&& c@ == mods_seq(mods.ctrl, mods.alt, mods.shift, mods.sup) + n
                &&& canonical_spec(c@) == Some(c@)
                &&& canonical_spec("prefix "@ + n) == Some("prefix "@ + n)
            },
            None => match key_name_spec(*key) {
                None => true,
                Some(n) => !plain_key_name(n) || !modifier_words_stay_lowercase(),
            },
        },
{
    let n = match key_name(key) {
        Some(n) => n,
        None => return None,
    };
    if !(lowercases_to_itself("ctrl") && lowercases_to_itself("alt") && lowercases_to_itself("shift")
        && lowercases_to_itself("super")) {
        return None;
    }
    if !is_plain_key_name(n.as_str()) {
        return None;
    }
    proof {
        law_live_chords_are_canonical(n@, mods.ctrl, mods.alt, mods.shift, mods.sup);
    }
    let mut c = mods_prefix(mods);
    push_str(&mut c, n.as_str());
    Some(c)
}

/// Once the scan of a prefix of the tokens fails, the scan of the whole does.
proof fn lemma_scan_stays_failed(toks: Seq<Seq<char>>, k: int)
    requires
        0 <= k <= toks.len(),
        scan_tokens(toks.take(k)) is None,
    ensures
        scan_tokens(toks.take(toks.len() as int)) is None,
    decreases toks.len() - k,
{
    if k < toks.len() {
        assert(toks.take(k + 1).drop_last() =~= toks.take(k));
        lemma_scan_stays_failed(toks, k + 1);
    }
}

/// The chord that normalized (trimmed, lowercased) tokens spell, modifiers
/// in canonical order; `None` for an empty token, two keys, no key, or
/// `prefix` as the key.
pub fn chord_from_tokens(toks: &Vec<String>) -> (r: Option<String>)
    ensures
        match r {
            Some(c) => chord_of(token_texts(toks@)) == Some(c@),
            None => chord_of(token_texts(toks@)) is None,
        },
{
    let ghost tv = token_texts(toks@);
    let mut st = ScanState { ctrl: false, alt: false, shift: false, sup: false, key: None };
    let mut i: usize = 0;
    assert(tv.take(0) =~= Seq::<Seq<char>>::empty());
    while i < toks.len()
        invariant
            i <= toks@.len(),
            tv == token_texts(toks@),
            scan_tokens(tv.take(i as int)) == Some(st.view()),
        decreases toks.len() - i,
    {
        assert(tv.take(i + 1).drop_last() =~= tv.take(i as int));
        assert(tv.take(i + 1).last() == toks@[i as int]@);
        if !st.step(toks[i].as_str()) {
            proof {
                lemma_scan_stays_failed(tv, i + 1);
                assert(tv.take(tv.len() as int) =~= tv);
            }
            return None;
        }
        i += 1;
    }
    assert(tv.take(i as int) =~= tv);
    match st.key {
        None => None,
        Some(k) => {
            if str_eq(k.as_str(), "prefix") {
                None
            } else {
                let mut out = String::new();
                push_mods(&mut out, st.ctrl, st.alt, st.shift, st.sup);
                push_str(&mut out, k.as_str());
                Some(out)
            }
        },
    }
}

/// Pushing the normalized last token extends the normalized tokens.
proof fn lemma_push_token(before: Seq<String>, after: Seq<String>, ts: Seq<Seq<char>>, nv: Seq<char>)
    requires
        ts.len() >= 1,
        token_texts(before) == norm_tokens(ts.drop_last()),
        after == before.push(after.last()),
        after.last()@ == nv,
        nv == norm_token(ts.last()),
    ensures
        token_texts(after) == norm_tokens(ts),
{
    assert(token_texts(before).len() == before.len());
    assert(norm_tokens(ts.drop_last()).len() == ts.len() - 1);
    assert(after.len() == ts.len());
    assert forall|j: int| 0 <= j < after.len() implies #[trigger] token_texts(after)[j] == norm_tokens(ts)[j] by {
        if j < before.len() {
            assert(after[j] == before[j]);
            assert(token_texts(before)[j] == norm_tokens(ts.drop_last())[j]);
            assert(ts.drop_last()[j] == ts[j]);
        } else {
            assert(after[j] == after.last());
            assert(ts[j] == ts.last());
        }
    }
    assert(token_texts(after) =~= norm_tokens(ts));
}

/// A chord token as compared: trimmed, then lowercased.
fn normalize_token(tok: &[char]) -> (n: String)
    ensures
        n@ == norm_token(tok@),
{
    let raw = string_of(tok);
    let trimmed = trim_string(raw.as_str());
    trimmed.as_str().to_lowercase()
}

/// Normalize a config-file chord string to canonical form. Accepts either
/// `prefix <key>` or a modifier combo like `Ctrl+Shift+C` in any order/case.
/// Returns `None` for an unparseable spec (empty token, two keys, or no key).
pub fn canonical(spec: &str) -> (r: Option<String>)
    ensures
        match r {
            Some(c) => canonical_spec(spec@) == Some(c@),
            None => canonical_spec(spec@) is None,
        },
{
    let t = trim_string(spec);
    let v = chars_of(t.as_str());
    let p1 = chars_of("prefix ");
    let p2 = chars_of("prefix+");
    assert(v@.subrange(0, v@.len() as int) =~= v@);
    proof {
        reveal_strlit("prefix ");
        reveal_strlit("prefix+");
    }
    if starts_with_at(v.as_slice(), 0, p1.as_slice()) || starts_with_at(
        v.as_slice(),
        0,
        p2.as_slice(),
    ) {
        let mut rest = String::new();
        push_chars(&mut rest, v.as_slice(), p1.len(), v.len());
        assert(rest@ =~= v@.skip("prefix "@.len() as int));
        let key = trim_string(rest.as_str()).as_str().to_lowercase();
        if key.as_str().is_empty() {
            return None;
        }
        let mut out = String::new();
        push_str(&mut out, "prefix ");
        push_str(&mut out, key.as_str());
        return Some(out);
    }
    // Split at `+`, normalizing each token.
    let mut toks: Vec<String> = Vec::new();
    let mut cur: Vec<char> = Vec::new();
    let mut i: usize = 0;
    assert(v@.subrange(0, 0) =~= Seq::<char>::empty());
    while i < v.len()
        invariant
            i <= v@.len(),
            split_plus(v@.subrange(0, i as int)).len() >= 1,
            cur@ == split_plus(v@.subrange(0, i as int)).last(),
            token_texts(toks@) == norm_tokens(split_plus(v@.subrange(0, i as int)).drop_last()),
        decreases v.len() - i,
    {
        let ghost pre = v@.subrange(0, i as int);
        let ghost ts = split_plus(pre);
        assert(v@.subrange(0, i + 1).drop_last() =~= pre);
        assert(v@.subrange(0, i + 1).last() == v@[i as int]);
        if v[i] == '+' {
            assert(split_plus(v@.subrange(0, i + 1)) == ts.push(Seq::empty()));
            assert(ts.push(Seq::<char>::empty()).drop_last() =~= ts);
            assert(ts.drop_last().push(ts.last()) =~= ts);
            let ghost before = toks@;
            let n = normalize_token(cur.as_slice());
            let ghost nv = n@;
            toks.push(n);
            proof {
                lemma_push_token(before, toks@, ts, nv);
            }
            cur = Vec::new();
        } else {
            cur.push(v[i]);
            proof {
                let nt = ts.update(ts.len() - 1, ts.last().push(v@[i as int]));
                assert(split_plus(v@.subrange(0, i + 1)) == nt);
                assert(nt.drop_last() =~= ts.drop_last());
            }
        }
        i += 1;
    }
    assert(v@.subrange(0, i as int) =~= v@);
    proof {
        lemma_split_plus_nonempty(v@);
    }
    let ghost before = toks@;
    let n = normalize_token(cur.as_slice());
    let ghost nv = n@;
    toks.push(n);
    proof {
        let ts = split_plus(v@);
        assert(ts.drop_last().push(ts.last()) =~= ts);
        lemma_push_token(before, toks@, ts, nv);
    }
    chord_from_tokens(&toks)
}

/// The resolved key configuration: a canonical prefix chord, canonical chords
/// for every core action (defaults filled in), and plugin-command overrides.
///
/// `core` lists one chord per core action, in the order of `action_at`.
pub struct KeyConfig {
    pub prefix: String,
    pub core: Vec<(CoreAction, String)>,
    pub commands: StrMap<String>,
}

impl KeyConfig {
    /// `core` holds exactly one entry per action, in the fixed order.
    pub open spec fn wf(self) -> bool {
        &&& self.core@.len() == CORE_ACTIONS
        &&& forall|i: int| 0 <= i < CORE_ACTIONS ==> #[trigger] self.core@[i].0 == action_at(i)
    }

    /// The chord bound to a core action.
    pub open spec fn core_chord_spec(self, a: CoreAction) -> Seq<char> {
        self.core@[a.ordinal()].1@
    }

    /// The chord bound to a core action.
    pub fn core_chord(&self, a: CoreAction) -> (s: &str)
        requires
            self.wf(),
        ensures
            s@ == self.core_chord_spec(a),
    {
        let i: usize = match a {
            CoreAction::Recall => 0,
            CoreAction::Search => 1,
            CoreAction::LiteralPrefix => 2,
            CoreAction::Copy => 3,
            CoreAction::Paste => 4,
            CoreAction::ScrollUp => 5,
            CoreAction::ScrollDown => 6,
        };
        self.core[i].1.as_str()
    }

    /// Apply the user's overrides onto the configuration: a prefix chord, chords
    /// for core actions, and chords for plugin commands, each given as written
    /// in the config file. A spec that does not canonicalize is ignored; a later
    /// entry for the same action or command wins.
    pub fn apply_overrides(
        &mut self,
        prefix: Option<String>,
        core: &Vec<(CoreAction, String)>,
        commands: &Vec<(String, String)>,
    )
        requires
            old(self).wf(),
        ensures
            final(self).wf(),
            final(self).prefix@ == (match prefix {
                Some(p) => match canonical_spec(p@) {
                    Some(c) => c,
                    None => old(self).prefix@,
                },
                None => old(self).prefix@,
            }),
            forall|a: CoreAction| #[trigger]
                final(self).core_chord_spec(a) == core_override(
                    core@,
                    core@.len() as int,
                    a,
                    old(self).core_chord_spec(a),
                ),
            chords_of(final(self).commands@) == command_overrides(
                commands@,
                commands@.len() as int,
                chords_of(old(self).commands@),
            ),
    {
        if let Some(p) = prefix {
            if let Some(c) = canonical(p.as_str()) {
                self.prefix = c;
            }
        }
        let ghost pfx = self.prefix@;
        let mut i: usize = 0;
        while i < core.len()
            invariant
                i <= core@.len(),
                self.wf(),
                self.prefix@ == pfx,
                self.commands@ == old(self).commands@,
                forall|a: CoreAction| #[trigger]
                    self.core_chord_spec(a) == core_override(
                        core@,
                        i as int,
                        a,
                        old(self).core_chord_spec(a),
                    ),
            decreases core.len() - i,
        {
            let action = core[i].0;
            let k: usize = match action {
                CoreAction::Recall => 0,
                CoreAction::Search => 1,
                CoreAction::LiteralPrefix => 2,
                CoreAction::Copy => 3,
                CoreAction::Paste => 4,
                CoreAction::ScrollUp => 5,
                CoreAction::ScrollDown => 6,
            };
            assert(k == action.ordinal());
            assert(action_at(k as int) == action);
            let ghost before = *self;
            if let Some(c) = canonical(core[i].1.as_str()) {
                self.core.set(k, (action, c));
            }
            assert forall|a: CoreAction| #[trigger]
                self.core_chord_spec(a) == core_override(
                    core@,
                    i + 1,
                    a,
                    old(self).core_chord_spec(a),
                ) by {
                assert(before.core_chord_spec(a) == core_override(
                    core@,
                    i as int,
                    a,
                    old(self).core_chord_spec(a),
                ));
                if a != action {
                    assert(a.ordinal() != k);
                }
            }
            i += 1;
        }
        let mut j: usize = 0;
        while j < commands.len()
            invariant
                j <= commands@.len(),
                self.wf(),
                forall|a: CoreAction| #[trigger]
                    self.core_chord_spec(a) == core_override(
                        core@,
                        core@.len() as int,
                        a,
                        old(self).core_chord_spec(a),
                    ),
                self.prefix@ == pfx,
                chords_of(self.commands@) == command_overrides(
                    commands@,
                    j as int,
                    chords_of(old(self).commands@),
                ),
            decreases commands.len() - j,
        {
            let ghost prior = *self;
            if let Some(c) = canonical(commands[j].1.as_str()) {
                let ghost before = self.commands@;
                let name = commands[j].0.clone();
                let ghost cv = c@;
                self.commands.insert(name, c);
                assert(chords_of(self.commands@) =~= chords_of(before).insert(commands@[j as int].0@, cv));
            }
            assert forall|a: CoreAction| #[trigger]
                self.core_chord_spec(a) == prior.core_chord_spec(a) by {}
            j += 1;
        }
    }
}

impl Default for KeyConfig {
    /// The built-in bindings: prefix `ctrl+a`, each core action on its default
    /// chord, no command overrides.
    fn default() -> (c: Self)
        ensures
            c.wf(),
            c.prefix@ == "ctrl+a"@,
            forall|a: CoreAction| #[trigger] c.core_chord_spec(a) == a.default_chord_spec(),
            c.commands@ == Map::<Seq<char>, String>::empty(),
    {
        let mut core: Vec<(CoreAction, String)> = Vec::new();
        core.push((CoreAction::Recall, CoreAction::Recall.default_chord().to_owned()));
        core.push((CoreAction::Search, CoreAction::Search.default_chord().to_owned()));
        core.push(
            (CoreAction::LiteralPrefix, CoreAction::LiteralPrefix.default_chord().to_owned()),
        );
        core.push((CoreAction::Copy, CoreAction::Copy.default_chord().to_owned()));
        core.push((CoreAction::Paste, CoreAction::Paste.default_chord().to_owned()));
        core.push((CoreAction::ScrollUp, CoreAction::ScrollUp.default_chord().to_owned()));
        core.push((CoreAction::ScrollDown, CoreAction::ScrollDown.default_chord().to_owned()));
        let c = KeyConfig { prefix: "ctrl+a".to_owned(), core, commands: StrMap::new() };
        assert forall|a: CoreAction| #[trigger] c.core_chord_spec(a) == a.default_chord_spec() by {
            match a {
                _ => {},
            }
        }
        c
    }
}

/// The chord of core action `a` after the first `n` override entries, starting
/// from `base`.
pub open spec fn core_override(
    entries: Seq<(CoreAction, String)>,
    n: int,
    a: CoreAction,
    base: Seq<char>,
) -> Seq<char>
    decreases n,
{
    if n <= 0 {
        base
    } else {
        let prior = core_override(entries, n - 1, a, base);
        if entries[n - 1].0 == a {
            match canonical_spec(entries[n - 1].1@) {
                Some(c) => c,
                None => prior,
            }
        } else {
            prior
        }
    }
}

/// The chords of a command-to-chord table.
pub open spec fn chords_of(m: Map<Seq<char>, String>) -> Map<Seq<char>, Seq<char>> {
    m.map_values(|s: String| s@)
}

/// The command overrides after the first `n` entries, starting from `base`.
pub open spec fn command_overrides(
    entries: Seq<(String, String)>,
    n: int,
    base: Map<Seq<char>, Seq<char>>,
) -> Map<Seq<char>, Seq<char>>
    decreases n,
{
    if n <= 0 {
        base
    } else {
        let prior = command_overrides(entries, n - 1, base);
        match canonical_spec(entries[n - 1].1@) {
            Some(c) => prior.insert(entries[n - 1].0@, c),
            None => prior,
        }
    }
}

/// Each named key that has a chord name has its own: no two named keys share
/// one, so a binding names exactly one key.
pub proof fn law_named_keys_have_distinct_names(a: NamedKey, b: NamedKey)
    ensures
        named_key_name(a) is Some && named_key_name(a) == named_key_name(b) ==> a == b,
{
    reveal_strlit("pageup");
    reveal_strlit("pagedown");
    reveal_strlit("enter");
    reveal_strlit("space");
    reveal_strlit("tab");
    reveal_strlit("esc");
    reveal_strlit("backspace");
    reveal_strlit("up");
    reveal_strlit("down");
    reveal_strlit("left");
    reveal_strlit("right");
    reveal_strlit("home");
    reveal_strlit("end");
    if named_key_name(a) is Some && named_key_name(a) == named_key_name(b) {
        let n = named_key_name(a)->0;
        assert(n.len() > 0);
        assert(named_key_name(b)->0[0] == n[0]);
        assert(named_key_name(b)->0.len() == n.len());
        if n.len() > 1 {
            assert(named_key_name(b)->0[1] == n[1]);
        }
    }
}

} // verus!
