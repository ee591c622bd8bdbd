//! A terminal's two screen buffers. The **primary** buffer is the normal
//! scrolling screen (with scrollback) — your shell. The **alternate** buffer is
//! a separate, scrollback-less canvas that full-screen apps (vim, less, htop)
//! switch to via `\x1b[?1049h` and switch back from via `\x1b[?1049l`, leaving
//! the primary buffer (and your scrollback) untouched so it restores on exit.
//!
//! The screen also carries the input-side DEC modes a program can set (mouse
//! reporting, bracketed paste): the parser sets them, the input path reads them.

use vstd::prelude::*;

use crate::grid::{Grid, GridState};

verus! {

/// Mouse tracking level requested by the program (`?1000/1002/1003`).
#[derive(Clone, Copy, PartialEq, Eq, Debug, Structural)]
pub enum MouseTracking {
    /// The terminal handles the mouse itself (selection, scrollback).
    Off,
    /// `?1000`: report presses and releases.
    Normal,
    /// `?1002`: also report motion while a button is held.
    ButtonEvent,
    /// `?1003`: report all motion.
    AnyEvent,
}

/// Input-side DEC private modes.
#[derive(Clone, Copy, PartialEq, Eq, Debug, Structural)]
pub struct Modes {
    pub mouse: MouseTracking,
    /// `?1006`: SGR (decimal) mouse encoding instead of legacy X10 bytes.
    pub mouse_sgr: bool,
    /// `?2004`: wrap pastes in `ESC[200~ … ESC[201~`.
    pub bracketed_paste: bool,
}

/// All modes off.
pub open spec fn default_modes() -> Modes {
    Modes { mouse: MouseTracking::Off, mouse_sgr: false, bracketed_paste: false }
}

/// The abstract state of a [`Screen`].
pub struct ScreenState {
    pub primary: GridState,
    pub alt: GridState,
    pub alt_active: bool,
    pub modes: Modes,
}

impl ScreenState {
    /// Both buffers well-formed and the same size; the alternate buffer keeps no
    /// history.
    pub open spec fn wf(self) -> bool {
        &&& self.primary.wf()
        &&& self.alt.wf()
        &&& self.primary.rows == self.alt.rows
        &&& self.primary.cols == self.alt.cols
        &&& self.alt.max_scrollback == 0
    }

    /// The buffer currently shown and written to.
    pub open spec fn active(self) -> GridState {
        if self.alt_active {
            self.alt
        } else {
            self.primary
        }
    }

    /// This state with the active buffer replaced by `g`.
    pub open spec fn with_active(self, g: GridState) -> ScreenState {
        if self.alt_active {
            ScreenState { alt: g, ..self }
        } else {
            ScreenState { primary: g, ..self }
        }
    }

    /// Switch to a freshly cleared alternate buffer (no change if already there).
    pub open spec fn entered_alt(self) -> ScreenState {
        if self.alt_active {
            self
        } else {
            ScreenState { alt: self.alt.cleared(), alt_active: true, ..self }
        }
    }

    /// Switch back to the primary buffer.
    pub open spec fn left_alt(self) -> ScreenState {
        ScreenState { alt_active: false, ..self }
    }
}

pub struct Screen {
    primary: Grid,
    alt: Grid,
    alt_active: bool,
    modes: Modes,
}

impl View for Screen {
    type V = ScreenState;

    closed spec fn view(&self) -> ScreenState {
        ScreenState {
            primary: self.primary@,
            alt: self.alt@,
            alt_active: self.alt_active,
            modes: self.modes,
        }
    }
}

impl Screen {
    pub open spec fn wf(&self) -> bool {
        self@.wf()
    }

    pub fn new(rows: usize, cols: usize) -> (s: Self)
        requires
            rows >= 1,
            cols >= 1,
        ensures
            s.wf(),
            !s@.alt_active,
            s@.modes == default_modes(),
            s@.primary == Grid::new_state(rows, cols),
            s@.alt == (GridState {
                max_scrollback: 0,
                ..Grid::new_state(rows, cols)
            }),
    {
        let primary = Grid::new(rows, cols);
        let mut alt = Grid::new(rows, cols);
        alt.set_max_scrollback(0);  // the alternate screen has no scrollback
        proof {
            assert(crate::grid::keep_last(Seq::<Seq<crate::cell::Cell>>::empty(), 0) =~= Seq::<Seq<crate::cell::Cell>>::empty());
        }
        Screen {
            primary,
            alt,
            alt_active: false,
            modes: Modes { mouse: MouseTracking::Off, mouse_sgr: false, bracketed_paste: false },
        }
    }

    /// The buffer currently shown / written to.
    pub fn active(&self) -> (g: &Grid)
        requires
            self.wf(),
        ensures
            g.wf(),
            g@ == self@.active(),
    {
        if self.alt_active {
            &self.alt
        } else {
            &self.primary
        }
    }

    /// The active buffer, for writing. Whatever is done through the reference
    /// lands in the active buffer; the other buffer and the modes are untouched.
    pub fn active_mut(&mut self) -> (g: &mut Grid)
        requires
            old(self).wf(),
        ensures
            g.wf(),
            g@ == old(self)@.active(),
            final(self)@ == old(self)@.with_active(final(g)@),
    {
        if self.alt_active {
            &mut self.alt
        } else {
            &mut self.primary
        }
    }

    /// Switch to a fresh alternate screen (the primary is left intact).
    pub fn enter_alt(&mut self)
        requires
            old(self).wf(),
        ensures
            final(self).wf(),
            final(self)@ == old(self)@.entered_alt(),
    {
        if !self.alt_active {
            self.alt.clear();
            self.alt_active = true;
        }
    }

    /// Switch back to the primary screen, which restores automatically since it
    /// was never modified while alt was active.
    pub fn leave_alt(&mut self)
        requires
            old(self).wf(),
        ensures
            final(self).wf(),
            final(self)@ == old(self)@.left_alt(),
    {
        self.alt_active = false;
    }

    /// Resize both buffers so a window resize is consistent regardless of which
    /// is active (e.g. SIGWINCH while inside vim).
    pub fn resize(&mut self, rows: usize, cols: usize)
        requires
            old(self).wf(),
        ensures
            final(self).wf(),
            final(self)@ == (ScreenState {
                primary: old(self)@.primary.resized(rows as nat, cols as nat),
                alt: old(self)@.alt.resized(rows as nat, cols as nat),
                ..old(self)@
            }),
    {
        self.primary.resize(rows, cols);
        self.alt.resize(rows, cols);
    }

    pub fn rows(&self) -> (n: usize)
        requires
            self.wf(),
        ensures
            n == self@.active().rows,
    {
        self.active().rows()
    }

    pub fn cols(&self) -> (n: usize)
        requires
            self.wf(),
        ensures
            n == self@.active().cols,
    {
        self.active().cols()
    }

    /// The input-side modes the program has set.
    pub fn modes(&self) -> (m: Modes)
        ensures
            m == self@.modes,
    {
        self.modes
    }

    /// Replace the input-side modes.
    pub fn set_modes(&mut self, modes: Modes)
        requires
            old(self).wf(),
        ensures
            final(self).wf(),
            final(self)@ == (ScreenState { modes, ..old(self)@ }),
    {
        self.modes = modes;
    }
}

/// Entering the alternate screen, doing anything to the active buffer there,
/// and leaving again shows the primary buffer exactly as it was.
pub proof fn law_alt_preserves_primary(s: ScreenState, g: GridState)
    requires
        s.wf(),
        !s.alt_active,
    ensures
        s.entered_alt().with_active(g).left_alt().active() == s.primary,
{
}

/// The alternate buffer of a well-formed screen never holds history, so
/// scrolling its view has nowhere to go.
pub proof fn law_alt_has_no_scrollback(s: ScreenState)
    requires
        s.wf(),
    ensures
        s.alt.scrollback.len() == 0,
        s.alt.view_offset == 0,
{
}

/// A resize gives both buffers the same new size, whichever is active.
pub proof fn law_resize_affects_both(s: ScreenState, rows: nat, cols: nat)
    requires
        s.wf(),
    ensures
        s.primary.resized(rows, cols).rows == s.alt.resized(rows, cols).rows,
        s.primary.resized(rows, cols).cols == s.alt.resized(rows, cols).cols,
        s.primary.resized(rows, cols).rows == (if rows == 0 { 1 } else { rows }),
        s.primary.resized(rows, cols).cols == (if cols == 0 { 1 } else { cols }),
{
}

} // verus!
