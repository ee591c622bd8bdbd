//! The grid: a rows×cols matrix of [`Cell`]s plus a cursor and the current
//! "pen" (the fg/bg/attrs applied to newly printed characters). This is the
//! in-memory model of what's on screen — the parser mutates it, the renderer
//! reads it.

use std::collections::VecDeque;

use vstd::prelude::*;

use crate::cell::{default_cell, Cell, Color};
use crate::text::{is_white_space, trim_end_len, trim_end_seq};

verus! {

/// A row of `n` copies of `b`.
pub open spec fn blank_row(n: nat, b: Cell) -> Seq<Cell> {
    Seq::new(n, |i: int| b)
}

/// The last `max` items of `s` (all of `s` when it is no longer than `max`).
pub open spec fn keep_last<T>(s: Seq<T>, max: nat) -> Seq<T> {
    if s.len() > max {
        s.subrange(s.len() - max, s.len() as int)
    } else {
        s
    }
}

/// `line` with the columns in `start..end` replaced by `b`.
pub open spec fn fill_row(line: Seq<Cell>, start: int, end: int, b: Cell) -> Seq<Cell> {
    Seq::new(line.len(), |c: int| if start <= c < end { b } else { line[c] })
}

pub open spec fn min_nat(a: nat, b: nat) -> nat {
    if a <= b { a } else { b }
}

/// The glyphs of a row of cells.
pub open spec fn row_chars(line: Seq<Cell>) -> Seq<char> {
    line.map_values(|c: Cell| c.ch)
}

/// The abstract state of a [`Grid`].
#[verifier::ext_equal]
pub struct GridState {
    pub rows: nat,
    pub cols: nat,
    /// The live screen, one row of `cols` cells per screen row.
    pub lines: Seq<Seq<Cell>>,
    pub cursor_row: nat,
    pub cursor_col: nat,
    /// Deferred wrap: the last column was just filled.
    pub wrap_pending: bool,
    pub pen: Cell,
    pub cursor_visible: bool,
    /// Lines scrolled off the top, oldest first.
    pub scrollback: Seq<Seq<Cell>>,
    pub max_scrollback: nat,
    /// How many lines the viewport is scrolled up into history.
    pub view_offset: nat,
    /// The position recorded by save-cursor (DECSC / `CSI s`).
    pub saved_cursor: Option<(nat, nat)>,
}

impl GridState {
    /// Well-formedness: a non-empty rectangle, a cursor inside it, and a view
    /// offset no deeper than the history.
    pub open spec fn wf(self) -> bool {
        &&& self.rows >= 1
        &&& self.cols >= 1
        &&& self.lines.len() == self.rows
        &&& forall|r: int| 0 <= r < self.rows ==> #[trigger] self.lines[r].len() == self.cols
        &&& self.cursor_row < self.rows
        &&& self.cursor_col < self.cols
        &&& self.scrollback.len() <= self.max_scrollback
        &&& self.view_offset <= self.scrollback.len()
    }

    /// The cell used for erasing: a space in the default fg over the pen's bg.
    pub open spec fn blank(self) -> Cell {
        Cell { ch: ' ', fg: Color::Default, bg: self.pen.bg, attrs: 0 }
    }

    pub open spec fn cell(self, r: int, c: int) -> Cell {
        self.lines[r][c]
    }

    /// Archive the top row into scrollback, shift every row up, blank the bottom.
    pub open spec fn scrolled_up(self) -> GridState {
        let sb = keep_last(self.scrollback.push(self.lines[0]), self.max_scrollback);
        GridState {
            lines: self.lines.drop_first().push(blank_row(self.cols, self.blank())),
            scrollback: sb,
            view_offset: if self.view_offset > 0 {
                min_nat(self.view_offset + 1, sb.len())
            } else {
                self.view_offset
            },
            ..self
        }
    }

    /// `\n`: down one row, scrolling at the bottom.
    pub open spec fn line_fed(self) -> GridState {
        let g = GridState { wrap_pending: false, ..self };
        if self.cursor_row + 1 < self.rows {
            GridState { cursor_row: self.cursor_row + 1, ..g }
        } else {
            g.scrolled_up()
        }
    }

    /// `\r`: back to column 0.
    pub open spec fn carriage_returned(self) -> GridState {
        GridState { wrap_pending: false, cursor_col: 0, ..self }
    }

    /// Write `ch` with the pen at the cursor (taking any pending wrap first) and
    /// advance, deferring the wrap at the right edge.
    pub open spec fn printed(self, ch: char) -> GridState {
        let g = if self.wrap_pending {
            GridState { cursor_col: 0, ..self }.line_fed()
        } else {
            self
        };
        let cell = Cell { ch, ..g.pen };
        let g2 = GridState {
            lines: g.lines.update(
                g.cursor_row as int,
                g.lines[g.cursor_row as int].update(g.cursor_col as int, cell),
            ),
            ..g
        };
        if g.cursor_col + 1 >= g.cols {
            GridState { wrap_pending: true, ..g2 }
        } else {
            GridState { wrap_pending: false, cursor_col: g.cursor_col + 1, ..g2 }
        }
    }

    /// `\t`: the next multiple of 8, clamped to the last column.
    pub open spec fn tabbed(self) -> GridState {
        let next = ((self.cursor_col / 8) + 1) * 8;
        GridState { cursor_col: min_nat(next, (self.cols - 1) as nat), ..self }
    }

    /// Backspace: one column left, stopping at 0.
    pub open spec fn backspaced(self) -> GridState {
        GridState {
            cursor_col: if self.cursor_col > 0 { (self.cursor_col - 1) as nat } else { 0 },
            ..self
        }
    }

    /// Place the cursor at (`row`, `col`) clamped to the grid, dropping a pending wrap.
    pub open spec fn moved_to(self, row: int, col: int) -> GridState {
        GridState {
            wrap_pending: false,
            cursor_row: if row < 0 { 0 } else { min_nat(row as nat, (self.rows - 1) as nat) },
            cursor_col: if col < 0 { 0 } else { min_nat(col as nat, (self.cols - 1) as nat) },
            ..self
        }
    }

    /// The row `r` with columns `start..end` erased.
    pub open spec fn row_erased(self, r: int, start: int, end: int) -> Seq<Seq<Cell>> {
        self.lines.update(r, fill_row(self.lines[r], start, end, self.blank()))
    }

    /// EL: mode 0 cursor→end, 1 start→cursor, 2 whole line.
    pub open spec fn erased_in_line(self, mode: u16) -> GridState {
        let r = self.cursor_row as int;
        let lines = if mode == 1 {
            self.row_erased(r, 0, (self.cursor_col + 1) as int)
        } else if mode == 2 {
            self.row_erased(r, 0, self.cols as int)
        } else {
            self.row_erased(r, self.cursor_col as int, self.cols as int)
        };
        GridState { lines, ..self }
    }

    /// ED: mode 0 cursor→end of screen, 1 start of screen→cursor, 2 and 3 all.
    pub open spec fn erased_in_display(self, mode: u16) -> GridState {
        let cr = self.cursor_row as int;
        let cc = self.cursor_col as int;
        let b = self.blank();
        let lines = Seq::new(
            self.rows,
            |r: int|
                if mode == 2 || mode == 3 {
                    blank_row(self.cols, b)
                } else if mode == 1 {
                    if r < cr {
                        blank_row(self.cols, b)
                    } else if r == cr {
                        fill_row(self.lines[r], 0, cc + 1, b)
                    } else {
                        self.lines[r]
                    }
                } else {
                    if r < cr {
                        self.lines[r]
                    } else if r == cr {
                        fill_row(self.lines[r], cc, self.cols as int, b)
                    } else {
                        blank_row(self.cols, b)
                    }
                },
        );
        GridState { lines, ..self }
    }

    /// ICH: insert `n` blanks at the cursor, shifting the rest of the row right
    /// (cells pushed past the edge are lost).
    pub open spec fn chars_inserted(self, n: nat) -> GridState {
        let r = self.cursor_row as int;
        let cc = self.cursor_col as int;
        let line = self.lines[r];
        let b = self.blank();
        let new_line = Seq::new(
            self.cols,
            |c: int|
                if c < cc {
                    line[c]
                } else if c < cc + n {
                    b
                } else {
                    line[c - n]
                },
        );
        GridState { lines: self.lines.update(r, new_line), wrap_pending: false, ..self }
    }

    /// DCH: delete `n` cells at the cursor, shifting the rest of the row left and
    /// filling the right end with blanks.
    pub open spec fn chars_deleted(self, n: nat) -> GridState {
        let r = self.cursor_row as int;
        let cc = self.cursor_col as int;
        let line = self.lines[r];
        let b = self.blank();
        let new_line = Seq::new(
            self.cols,
            |c: int|
                if c < cc {
                    line[c]
                } else if c + n < self.cols {
                    line[c + n]
                } else {
                    b
                },
        );
        GridState { lines: self.lines.update(r, new_line), wrap_pending: false, ..self }
    }

    /// ECH: blank `n` cells from the cursor in place.
    pub open spec fn chars_erased(self, n: nat) -> GridState {
        let r = self.cursor_row as int;
        let cc = self.cursor_col as int;
        GridState {
            lines: self.row_erased(r, cc, cc + n),
            wrap_pending: false,
            ..self
        }
    }

    /// The screen row shown at `row` of the viewport, scrolled `view_offset`
    /// lines into history.
    pub open spec fn visible(self, row: int, col: int) -> Cell {
        if row < self.view_offset {
            let line = self.scrollback[self.scrollback.len() - self.view_offset + row];
            if col < line.len() {
                line[col]
            } else {
                default_cell()
            }
        } else {
            self.lines[row - self.view_offset][col]
        }
    }

    /// The grid resized to `nr`×`nc` (each at least 1), keeping the top-left
    /// content and clamping the cursor.
    pub open spec fn resized(self, new_rows: nat, new_cols: nat) -> GridState {
        let nr = if new_rows == 0 { 1nat } else { new_rows };
        let nc = if new_cols == 0 { 1nat } else { new_cols };
        if nr == self.rows && nc == self.cols {
            self
        } else {
            let b = self.blank();
            GridState {
                rows: nr,
                cols: nc,
                lines: Seq::new(
                    nr,
                    |r: int|
                        Seq::new(
                            nc,
                            |c: int|
                                if r < self.rows && c < self.cols {
                                    self.lines[r][c]
                                } else {
                                    b
                                },
                        ),
                ),
                cursor_row: min_nat(self.cursor_row, (nr - 1) as nat),
                cursor_col: min_nat(self.cursor_col, (nc - 1) as nat),
                wrap_pending: false,
                view_offset: 0,
                ..self
            }
        }
    }

    /// Every cell blank and the cursor, pen, wrap flag and view reset.
    pub open spec fn cleared(self) -> GridState {
        GridState {
            lines: Seq::new(self.rows, |r: int| blank_row(self.cols, default_cell())),
            cursor_row: 0,
            cursor_col: 0,
            wrap_pending: false,
            pen: default_cell(),
            view_offset: 0,
            ..self
        }
    }

    /// Glyphs of row `r`, columns `c0..c1` (empty when `c0 >= c1`).
    pub open spec fn span(self, r: int, c0: int, c1: int) -> Seq<char> {
        if c0 < c1 {
            row_chars(self.lines[r]).subrange(c0, c1)
        } else {
            Seq::empty()
        }
    }

    /// Full rows `from..to`, each preceded by a newline.
    pub open spec fn rows_after_newlines(self, from: int, to: int) -> Seq<char>
        decreases to - from,
    {
        if from >= to {
            Seq::empty()
        } else {
            self.rows_after_newlines(from, to - 1) + seq!['\n'] + row_chars(self.lines[to - 1])
        }
    }

    /// Text from `from` (inclusive) to `to` (exclusive), reading across rows,
    /// with trailing white space trimmed.
    pub open spec fn text_between(self, from: (nat, nat), to: (nat, nat)) -> Seq<char> {
        let (r0, c0) = from;
        let (r1, c1) = to;
        if r1 < r0 || r0 >= self.rows {
            Seq::empty()
        } else if r0 == r1 {
            trim_end_seq(self.span(r0 as int, c0 as int, min_nat(c1, self.cols) as int))
        } else {
            let first = self.span(r0 as int, c0 as int, self.cols as int);
            let middle = self.rows_after_newlines((r0 + 1) as int, min_nat(r1, self.rows) as int);
            let last = if r1 < self.rows {
                seq!['\n'] + self.span(r1 as int, 0, min_nat(c1, self.cols) as int)
            } else {
                Seq::empty()
            };
            trim_end_seq(first + middle + last)
        }
    }

    /// History then the live screen: the lines a scrollback search reads, by
    /// absolute index.
    pub open spec fn all_lines(self) -> Seq<Seq<Cell>> {
        self.scrollback + self.lines
    }

    /// The view offset that brings absolute line `abs` into view: history lines
    /// are scrolled to the top row, live lines need no scrolling.
    pub open spec fn offset_for_line(self, abs: nat) -> nat {
        if abs < self.scrollback.len() {
            (self.scrollback.len() - abs) as nat
        } else {
            0
        }
    }

    /// The rows `0..n` as text, one line per row, joined by newlines.
    pub open spec fn text_rows(self, n: int) -> Seq<char>
        decreases n,
    {
        if n <= 0 {
            Seq::empty()
        } else if n == 1 {
            row_chars(self.lines[0])
        } else {
            self.text_rows(n - 1) + seq!['\n'] + row_chars(self.lines[n - 1])
        }
    }
}

pub struct Grid {
    pub rows: usize,
    pub cols: usize,
    /// One `Vec` of `cols` cells per screen row, top to bottom.
    lines: Vec<Vec<Cell>>,
    pub cursor_row: usize,
    pub cursor_col: usize,
    /// Deferred-wrap flag: set when the last column was just filled. The cursor
    /// stays put until the *next* printable char, which then wraps. This is how
    /// real terminals avoid scrolling early on a perfectly-full line.
    wrap_pending: bool,
    /// Template cell carrying the active fg/bg/attrs (set by SGR sequences).
    pub pen: Cell,
    /// Whether the cursor should be drawn (toggled by DECTCEM `?25 h/l`).
    cursor_visible: bool,
    /// Lines that have scrolled off the top, oldest at the front.
    scrollback: VecDeque<Vec<Cell>>,
    max_scrollback: usize,
    /// How many lines we're scrolled up from the live screen (0 = at bottom).
    view_offset: usize,
    /// Cursor position saved by DECSC / `CSI s`.
    saved_cursor: Option<(usize, usize)>,
}

impl View for Grid {
    type V = GridState;

    closed spec fn view(&self) -> GridState {
        GridState {
            rows: self.rows as nat,
            cols: self.cols as nat,
            lines: self.lines@.map_values(|l: Vec<Cell>| l@),
            cursor_row: self.cursor_row as nat,
            cursor_col: self.cursor_col as nat,
            wrap_pending: self.wrap_pending,
            pen: self.pen,
            cursor_visible: self.cursor_visible,
            scrollback: self.scrollback@.map_values(|l: Vec<Cell>| l@),
            max_scrollback: self.max_scrollback as nat,
            view_offset: self.view_offset as nat,
            saved_cursor: match self.saved_cursor {
                Some((r, c)) => Some((r as nat, c as nat)),
                None => None,
            },
        }
    }
}

impl Grid {
    /// Well-formed: the abstract state is well-formed and the public fields
    /// agree with it.
    pub open spec fn wf(&self) -> bool {
        self@.wf()
    }

    /// The state of a freshly made `rows`×`cols` grid.
    pub open spec fn new_state(rows: usize, cols: usize) -> GridState {
        GridState {
            rows: rows as nat,
            cols: cols as nat,
            lines: Seq::new(rows as nat, |r: int| blank_row(cols as nat, default_cell())),
            cursor_row: 0,
            cursor_col: 0,
            wrap_pending: false,
            pen: default_cell(),
            cursor_visible: true,
            scrollback: Seq::empty(),
            max_scrollback: 1000,
            view_offset: 0,
            saved_cursor: None,
        }
    }

    pub fn new(rows: usize, cols: usize) -> (g: Self)
        requires
            rows >= 1,
            cols >= 1,
        ensures
            g.wf(),
            g@ == Grid::new_state(rows, cols),
    {
        let lines = Self::blank_lines(rows, cols, Cell::default());
        let g = Grid {
            rows,
            cols,
            lines,
            cursor_row: 0,
            cursor_col: 0,
            wrap_pending: false,
            pen: Cell::default(),
            cursor_visible: true,
            scrollback: VecDeque::new(),
            max_scrollback: 1000,
            view_offset: 0,
            saved_cursor: None,
        };
        assert(g@.lines =~= Seq::new(rows as nat, |r: int| blank_row(cols as nat, default_cell())));
        assert(g@ =~= Grid::new_state(rows, cols));
        g
    }

    fn blank_line(cols: usize, b: Cell) -> (line: Vec<Cell>)
        ensures
            line@ == blank_row(cols as nat, b),
    {
        let mut line: Vec<Cell> = Vec::new();
        let mut c: usize = 0;
        while c < cols
            invariant
                c <= cols,
                line@ == blank_row(c as nat, b),
            decreases cols - c,
        {
            line.push(b);
            c += 1;
            assert(line@ =~= blank_row(c as nat, b));
        }
        line
    }

    fn blank_lines(rows: usize, cols: usize, b: Cell) -> (lines: Vec<Vec<Cell>>)
        ensures
            lines@.len() == rows,
            forall|r: int| 0 <= r < rows ==> #[trigger] lines@[r]@ == blank_row(cols as nat, b),
    {
        let mut lines: Vec<Vec<Cell>> = Vec::new();
        let mut r: usize = 0;
        while r < rows
            invariant
                r <= rows,
                lines@.len() == r,
                forall|i: int| 0 <= i < r ==> #[trigger] lines@[i]@ == blank_row(cols as nat, b),
            decreases rows - r,
        {
            lines.push(Self::blank_line(cols, b));
            r += 1;
        }
        lines
    }

    pub fn cell(&self, row: usize, col: usize) -> (c: &Cell)
        requires
            self.wf(),
            row < self@.rows,
            col < self@.cols,
        ensures
            *c == self@.cell(row as int, col as int),
    {
        &self.lines[row][col]
    }

    /// A blank cell that inherits the pen's background (erasing fills with the
    /// current bg color, matching real terminals).
    fn blank(&self) -> (b: Cell)
        ensures
            b == self@.blank(),
    {
        Cell { ch: ' ', fg: Color::Default, bg: self.pen.bg, attrs: 0 }
    }

    /// Replace the pen (the template for newly printed cells).
    pub fn set_pen(&mut self, pen: Cell)
        requires
            old(self).wf(),
        ensures
            final(self).wf(),
            final(self)@ == (GridState { pen, ..old(self)@ }),
    {
        self.pen = pen;
        assert(self@ =~= (GridState { pen, ..old(self)@ }));
    }

    // --- printing & control characters -----------------------------------

    /// Write `ch` at the cursor using the current pen, then advance the cursor
    /// (wrapping to the next line at the right edge).
    pub fn print(&mut self, ch: char)
        requires
            old(self).wf(),
        ensures
            final(self).wf(),
            final(self)@ == old(self)@.printed(ch),
    {
        let ghost g0 = self@;
        if self.wrap_pending {
            self.cursor_col = 0;
            proof {
                assert(self@ =~= (GridState { cursor_col: 0, ..g0 }));
            }
            self.line_feed();
            self.wrap_pending = false;
        }
        let ghost g1 = self@;
        assert(g1 =~= (if g0.wrap_pending { GridState { cursor_col: 0, ..g0 }.line_fed() } else { g0 }));
        let cell = Cell { ch, ..self.pen };
        let r = self.cursor_row;
        let c = self.cursor_col;
        self.lines[r][c] = cell;
        if self.cursor_col + 1 >= self.cols {
            self.wrap_pending = true;
        } else {
            self.cursor_col += 1;
            self.wrap_pending = false;
        }
        proof {
            assert(self@.lines =~= g1.lines.update(r as int, g1.lines[r as int].update(c as int, cell)));
            assert(self@ =~= g0.printed(ch));
        }
    }

    /// `\n` — move down one row, scrolling the screen if at the bottom.
    pub fn line_feed(&mut self)
        requires
            old(self).wf(),
        ensures
            final(self).wf(),
            final(self)@ == old(self)@.line_fed(),
    {
        let ghost g0 = self@;
        self.wrap_pending = false;
        if self.cursor_row + 1 < self.rows {
            self.cursor_row += 1;
            assert(self@ =~= g0.line_fed());
        } else {
            assert(self@ =~= GridState { wrap_pending: false, ..g0 });
            self.scroll_up();
        }
    }

    /// `\r` — return to column 0.
    pub fn carriage_return(&mut self)
        requires
            old(self).wf(),
        ensures
            final(self).wf(),
            final(self)@ == old(self)@.carriage_returned(),
    {
        self.wrap_pending = false;
        self.cursor_col = 0;
        assert(self@ =~= old(self)@.carriage_returned());
    }

    /// `\t` — advance to the next 8-column tab stop.
    pub fn tab(&mut self)
        requires
            old(self).wf(),
        ensures
            final(self).wf(),
            final(self)@ == old(self)@.tabbed(),
    {
        let base = self.cursor_col - self.cursor_col % 8;
        assert(base + 8 == ((self.cursor_col / 8) + 1) * 8);
        self.cursor_col = if self.cols - 1 - base <= 8 { self.cols - 1 } else { base + 8 };
        assert(self@ =~= old(self)@.tabbed());
    }

    /// Backspace — move the cursor left one column (no erase).
    pub fn backspace(&mut self)
        requires
            old(self).wf(),
        ensures
            final(self).wf(),
            final(self)@ == old(self)@.backspaced(),
    {
        self.cursor_col = self.cursor_col.saturating_sub(1);
        assert(self@ =~= old(self)@.backspaced());
    }

    // --- cursor movement (CSI A/B/C/D, H, E/F, G/d) ------------------------

    pub fn move_up(&mut self, n: usize)
        requires
            old(self).wf(),
        ensures
            final(self).wf(),
            final(self)@ == old(self)@.moved_to(
                old(self)@.cursor_row - n,
                old(self)@.cursor_col as int,
            ),
    {
        let r = self.cursor_row.saturating_sub(n);
        let c = self.cursor_col;
        self.move_to(r, c);
    }

    pub fn move_down(&mut self, n: usize)
        requires
            old(self).wf(),
        ensures
            final(self).wf(),
            final(self)@ == old(self)@.moved_to(
                old(self)@.cursor_row + n,
                old(self)@.cursor_col as int,
            ),
    {
        let r = if n < self.rows - self.cursor_row { self.cursor_row + n } else { self.rows };
        let c = self.cursor_col;
        self.move_to(r, c);
    }

    pub fn move_left(&mut self, n: usize)
        requires
            old(self).wf(),
        ensures
            final(self).wf(),
            final(self)@ == old(self)@.moved_to(
                old(self)@.cursor_row as int,
                old(self)@.cursor_col - n,
            ),
    {
        let r = self.cursor_row;
        let c = self.cursor_col.saturating_sub(n);
        self.move_to(r, c);
    }

    pub fn move_right(&mut self, n: usize)
        requires
            old(self).wf(),
        ensures
            final(self).wf(),
            final(self)@ == old(self)@.moved_to(
                old(self)@.cursor_row as int,
                old(self)@.cursor_col + n,
            ),
    {
        let r = self.cursor_row;
        let c = if n < self.cols - self.cursor_col { self.cursor_col + n } else { self.cols };
        self.move_to(r, c);
    }

    /// CUP — absolute move; inputs are 0-based and clamped to the grid.
    pub fn move_to(&mut self, row: usize, col: usize)
        requires
            old(self).wf(),
        ensures
            final(self).wf(),
            final(self)@ == old(self)@.moved_to(row as int, col as int),
    {
        self.wrap_pending = false;
        self.cursor_row = if row < self.rows - 1 { row } else { self.rows - 1 };
        self.cursor_col = if col < self.cols - 1 { col } else { self.cols - 1 };
        assert(self@ =~= old(self)@.moved_to(row as int, col as int));
    }

    /// CNL — to column 0 of the line `n` below (clamped to the last row).
    pub fn cursor_next_line(&mut self, n: usize)
        requires
            old(self).wf(),
        ensures
            final(self).wf(),
            final(self)@ == old(self)@.moved_to(old(self)@.cursor_row + n, 0),
    {
        let r = if n < self.rows - self.cursor_row { self.cursor_row + n } else { self.rows };
        self.move_to(r, 0);
    }

    /// CPL — to column 0 of the line `n` above (stopping at the top row).
    pub fn cursor_prev_line(&mut self, n: usize)
        requires
            old(self).wf(),
        ensures
            final(self).wf(),
            final(self)@ == old(self)@.moved_to(
                if old(self)@.cursor_row >= n { old(self)@.cursor_row - n } else { 0 },
                0,
            ),
    {
        let r = self.cursor_row.saturating_sub(n);
        self.move_to(r, 0);
    }

    /// CHA / HPA — absolute column (0-based), clamped.
    pub fn move_to_col(&mut self, col: usize)
        requires
            old(self).wf(),
        ensures
            final(self).wf(),
            final(self)@ == old(self)@.moved_to(old(self)@.cursor_row as int, col as int),
    {
        let r = self.cursor_row;
        self.move_to(r, col);
    }

    /// VPA — absolute row (0-based), clamped.
    pub fn move_to_row(&mut self, row: usize)
        requires
            old(self).wf(),
        ensures
            final(self).wf(),
            final(self)@ == old(self)@.moved_to(row as int, old(self)@.cursor_col as int),
    {
        let c = self.cursor_col;
        self.move_to(row, c);
    }

    /// DECSC / `CSI s` — remember the cursor position.
    pub fn save_cursor(&mut self)
        requires
            old(self).wf(),
        ensures
            final(self).wf(),
            final(self)@ == (GridState {
                saved_cursor: Some((old(self)@.cursor_row, old(self)@.cursor_col)),
                ..old(self)@
            }),
    {
        self.saved_cursor = Some((self.cursor_row, self.cursor_col));
        assert(self@ =~= (GridState {
            saved_cursor: Some((old(self)@.cursor_row, old(self)@.cursor_col)),
            ..old(self)@
        }));
    }

    /// DECRC / `CSI u` — return to the saved position (clamped to the grid), or
    /// to the top-left corner when nothing was saved.
    pub fn restore_cursor(&mut self)
        requires
            old(self).wf(),
        ensures
            final(self).wf(),
            final(self)@ == match old(self)@.saved_cursor {
                Some((r, c)) => old(self)@.moved_to(r as int, c as int),
                None => old(self)@.moved_to(0, 0),
            },
    {
        match self.saved_cursor {
            Some((r, c)) => self.move_to(r, c),
            None => self.move_to(0, 0),
        }
    }

    // --- erasing & in-line editing (CSI J / K / @ / P / X) ------------------

    /// Replace columns `start..end` of row `row` with `b`.
    fn fill_cells(&mut self, row: usize, start: usize, end: usize, b: Cell)
        requires
            old(self).wf(),
            row < old(self).rows,
            start <= end <= old(self).cols,
        ensures
            final(self).wf(),
            final(self)@ == (GridState {
                lines: old(self)@.lines.update(
                    row as int,
                    fill_row(old(self)@.lines[row as int], start as int, end as int, b),
                ),
                ..old(self)@
            }),
    {
        let ghost g0 = self@;
        proof {
            assert(fill_row(g0.lines[row as int], start as int, start as int, b) =~= g0.lines[row as int]);
            assert(g0.lines.update(row as int, g0.lines[row as int]) =~= g0.lines);
        }
        let mut c = start;
        while c < end
            invariant
                start <= c <= end <= g0.cols,
                row < g0.rows,
                g0.wf(),
                self.rows == g0.rows,
                self.lines@.len() == g0.rows,
                self@ == (GridState {
                    lines: g0.lines.update(row as int, fill_row(g0.lines[row as int], start as int, c as int, b)),
                    ..g0
                }),
            decreases end - c,
        {
            let ghost before = self.lines@;
            let ghost before_v = self@.lines;
            proof {
                assert(self@.lines[row as int] == fill_row(g0.lines[row as int], start as int, c as int, b));
                assert(self.lines@[row as int]@ == self@.lines[row as int]);
            }
            self.lines[row][c] = b;
            proof {
                assert(self.lines@[row as int]@ == before[row as int]@.update(c as int, b));
                assert forall|i: int| 0 <= i < g0.rows && i != row implies self.lines@[i] == before[i] by {}
                let want = g0.lines.update(row as int, fill_row(g0.lines[row as int], start as int, c + 1, b));
                assert(fill_row(g0.lines[row as int], start as int, c + 1, b)
                    =~= fill_row(g0.lines[row as int], start as int, c as int, b).update(c as int, b));
                assert forall|i: int| 0 <= i < g0.rows implies #[trigger] self@.lines[i] == want[i] by {
                    assert(self@.lines[i] == self.lines@[i]@);
                    assert(before_v[i] == before[i]@);
                }
                assert(self@.lines =~= want);
                assert(self@ =~= (GridState { lines: want, ..g0 }));
            }
            c += 1;
        }
        proof {
            let g1 = self@;
            assert forall|r: int| 0 <= r < g1.rows implies #[trigger] g1.lines[r].len() == g1.cols by {
                if r != row {
                    assert(g1.lines[r] == g0.lines[r]);
                }
            }
        }
    }

    /// EL — erase in line. mode 0: cursor→end, 1: start→cursor, 2: whole line.
    pub fn erase_in_line(&mut self, mode: u16)
        requires
            old(self).wf(),
        ensures
            final(self).wf(),
            final(self)@ == old(self)@.erased_in_line(mode),
    {
        let row = self.cursor_row;
        let (start, end) = if mode == 1 {
            (0, self.cursor_col + 1)
        } else if mode == 2 {
            (0, self.cols)
        } else {
            (self.cursor_col, self.cols)
        };
        let blank = self.blank();
        self.fill_cells(row, start, end, blank);
        assert(self@ =~= old(self)@.erased_in_line(mode));
    }

    /// ED — erase in display. mode 0: cursor→end, 1: start→cursor, 2 (and 3): all.
    pub fn erase_in_display(&mut self, mode: u16)
        requires
            old(self).wf(),
        ensures
            final(self).wf(),
            final(self)@ == old(self)@.erased_in_display(mode),
    {
        let ghost g0 = self@;
        let blank = self.blank();
        let cr = self.cursor_row;
        let cc = self.cursor_col;
        let cols = self.cols;
        let mut r: usize = 0;
        while r < self.rows
            invariant
                r <= self.rows,
                self.wf(),
                self.rows == g0.rows,
                self.cols == g0.cols,
                cols == self.cols,
                cr == g0.cursor_row,
                cc == g0.cursor_col,
                blank == g0.blank(),
                self@ == (GridState { lines: self@.lines, ..g0 }),
                forall|i: int| 0 <= i < r ==> #[trigger] self@.lines[i] == g0.erased_in_display(mode).lines[i],
                forall|i: int| r <= i < g0.rows ==> #[trigger] self@.lines[i] == g0.lines[i],
            decreases self.rows - r,
        {
            let (start, end) = if mode == 2 || mode == 3 {
                (0, cols)
            } else if mode == 1 {
                if r < cr {
                    (0, cols)
                } else if r == cr {
                    (0, cc + 1)
                } else {
                    (0, 0)
                }
            } else {
                if r < cr {
                    (0, 0)
                } else if r == cr {
                    (cc, cols)
                } else {
                    (0, cols)
                }
            };
            let ghost before = self@;
            self.fill_cells(r, start, end, blank);
            proof {
                let want = g0.erased_in_display(mode).lines[r as int];
                assert(fill_row(before.lines[r as int], start as int, end as int, blank) =~= want);
                assert forall|i: int| 0 <= i < r + 1 implies #[trigger] self@.lines[i] == g0.erased_in_display(mode).lines[i] by {
                    if i < r {
                        assert(self@.lines[i] == before.lines[i]);
                    }
                }
            }
            r += 1;
        }
        assert(self@.lines =~= g0.erased_in_display(mode).lines);
        assert(self@ =~= g0.erased_in_display(mode));
    }

    /// ICH — insert `n` blank cells at the cursor, shifting the row right.
    pub fn insert_chars(&mut self, n: usize)
        requires
            old(self).wf(),
        ensures
            final(self).wf(),
            final(self)@ == old(self)@.chars_inserted(n as nat),
    {
        let ghost g0 = self@;
        let row = self.cursor_row;
        let cc = self.cursor_col;
        let cols = self.cols;
        let b = self.blank();
        let old_line = self.lines[row].clone();
        let mut line: Vec<Cell> = Vec::new();
        let mut c: usize = 0;
        while c < cols
            invariant
                c <= cols,
                cols == g0.cols,
                cc == g0.cursor_col,
                b == g0.blank(),
                row == g0.cursor_row,
                g0.wf(),
                old_line@ == g0.lines[row as int],
                old_line@.len() == cols,
                line@ =~= g0.chars_inserted(n as nat).lines[row as int].subrange(0, c as int),
            decreases cols - c,
        {
            let cell = if c < cc {
                old_line[c]
            } else if c - cc < n {
                b
            } else {
                old_line[c - n]
            };
            assert(g0.chars_inserted(n as nat).lines[row as int][c as int] == cell);
            line.push(cell);
            c += 1;
        }
        let ghost want = g0.chars_inserted(n as nat).lines;
        assert(line@ =~= want[row as int]);
        let ghost before = self.lines@;
        assert(self@ == g0);
        self.wrap_pending = false;
        self.lines.set(row, line);
        assert forall|i: int| 0 <= i < g0.rows implies #[trigger] self@.lines[i] == want[i] by {
            assert(self@.lines[i] == self.lines@[i]@);
            if i != row {
                assert(g0.lines[i] == before[i]@);
            }
        }
        assert(self@.lines =~= want);
        assert(self@ =~= g0.chars_inserted(n as nat));
    }

    /// DCH — delete `n` cells at the cursor, shifting the rest of the row left.
    pub fn delete_chars(&mut self, n: usize)
        requires
            old(self).wf(),
        ensures
            final(self).wf(),
            final(self)@ == old(self)@.chars_deleted(n as nat),
    {
        let ghost g0 = self@;
        let row = self.cursor_row;
        let cc = self.cursor_col;
        let cols = self.cols;
        let b = self.blank();
        let old_line = self.lines[row].clone();
        let mut line: Vec<Cell> = Vec::new();
        let mut c: usize = 0;
        while c < cols
            invariant
                c <= cols,
                cols == g0.cols,
                cc == g0.cursor_col,
                b == g0.blank(),
                row == g0.cursor_row,
                g0.wf(),
                old_line@ == g0.lines[row as int],
                old_line@.len() == cols,
                line@ =~= g0.chars_deleted(n as nat).lines[row as int].subrange(0, c as int),
            decreases cols - c,
        {
            let cell = if c < cc {
                old_line[c]
            } else if n < cols - c {
                old_line[c + n]
            } else {
                b
            };
            assert(g0.chars_deleted(n as nat).lines[row as int][c as int] == cell);
            line.push(cell);
            c += 1;
        }
        let ghost want = g0.chars_deleted(n as nat).lines;
        assert(line@ =~= want[row as int]);
        let ghost before = self.lines@;
        assert(self@ == g0);
        self.wrap_pending = false;
        self.lines.set(row, line);
        assert forall|i: int| 0 <= i < g0.rows implies #[trigger] self@.lines[i] == want[i] by {
            assert(self@.lines[i] == self.lines@[i]@);
            if i != row {
                assert(g0.lines[i] == before[i]@);
            }
        }
        assert(self@.lines =~= want);
        assert(self@ =~= g0.chars_deleted(n as nat));
    }

    /// ECH — blank `n` cells from the cursor in place (no shifting).
    pub fn erase_chars(&mut self, n: usize)
        requires
            old(self).wf(),
        ensures
            final(self).wf(),
            final(self)@ == old(self)@.chars_erased(n as nat),
    {
        let row = self.cursor_row;
        let cc = self.cursor_col;
        let end = if n < self.cols - cc { cc + n } else { self.cols };
        let b = self.blank();
        self.wrap_pending = false;
        self.fill_cells(row, cc, end, b);
        assert(fill_row(old(self)@.lines[row as int], cc as int, end as int, b)
            =~= fill_row(old(self)@.lines[row as int], cc as int, cc + n, b));
        assert(self@.lines =~= old(self)@.chars_erased(n as nat).lines);
        assert(self@ =~= old(self)@.chars_erased(n as nat));
    }

    /// Archive the top row into scrollback, shift everything up, and blank the
    /// new bottom row.
    fn scroll_up(&mut self)
        requires
            old(self).wf(),
        ensures
            final(self).wf(),
            final(self)@ == old(self)@.scrolled_up(),
    {
        let ghost g0 = self@;
        let blank = self.blank();
        let top = self.lines.remove(0);
        let mut sb: VecDeque<Vec<Cell>> = VecDeque::new();
        std::mem::swap(&mut sb, &mut self.scrollback);
        sb.push_back(top);
        let ghost full = g0.scrollback.push(g0.lines[0]);
        assert(sb@.map_values(|l: Vec<Cell>| l@) =~= full);
        let max = self.max_scrollback;
        while sb.len() > max
            invariant
                max == g0.max_scrollback,
                sb@.len() <= full.len(),
                sb@.len() == full.len() || sb@.len() >= max,
                sb@.map_values(|l: Vec<Cell>| l@) =~= full.subrange(full.len() - sb@.len(), full.len() as int),
            decreases sb.len(),
        {
            let ghost before = sb@;
            sb.pop_front();
            assert(sb@.map_values(|l: Vec<Cell>| l@) =~= before.map_values(|l: Vec<Cell>| l@).drop_first());
        }
        assert(sb@.map_values(|l: Vec<Cell>| l@) =~= keep_last(full, g0.max_scrollback));
        self.scrollback = sb;
        // If the user is scrolled up, follow the content so their viewport stays
        // anchored on the same lines as new output pushes in.
        if self.view_offset > 0 {
            self.view_offset = if self.view_offset < self.scrollback.len() {
                self.view_offset + 1
            } else {
                self.scrollback.len()
            };
        }
        let row = Self::blank_line(self.cols, blank);
        self.lines.push(row);
        proof {
            assert(self@.lines =~= g0.lines.drop_first().push(blank_row(g0.cols, g0.blank())));
            assert(self@ =~= g0.scrolled_up());
        }
    }

    // --- scrollback & cursor visibility ----------------------------------

    pub fn set_cursor_visible(&mut self, visible: bool)
        requires
            old(self).wf(),
        ensures
            final(self).wf(),
            final(self)@ == (GridState { cursor_visible: visible, ..old(self)@ }),
    {
        self.cursor_visible = visible;
        assert(self@ =~= (GridState { cursor_visible: visible, ..old(self)@ }));
    }

    /// Cap scrollback length; 0 disables it (used for the alternate screen).
    /// The viewport must not be scrolled deeper than the new cap.
    pub fn set_max_scrollback(&mut self, max: usize)
        requires
            old(self).wf(),
        ensures
            final(self).wf(),
            final(self)@ == (GridState {
                max_scrollback: max as nat,
                scrollback: keep_last(old(self)@.scrollback, max as nat),
                view_offset: min_nat(
                    old(self)@.view_offset,
                    keep_last(old(self)@.scrollback, max as nat).len(),
                ),
                ..old(self)@
            }),
    {
        let ghost g0 = self@;
        self.max_scrollback = max;
        let mut sb: VecDeque<Vec<Cell>> = VecDeque::new();
        std::mem::swap(&mut sb, &mut self.scrollback);
        assert(sb@.map_values(|l: Vec<Cell>| l@) =~= g0.scrollback);
        while sb.len() > max
            invariant
                sb@.len() <= g0.scrollback.len(),
                sb@.len() == g0.scrollback.len() || sb@.len() >= max,
                sb@.map_values(|l: Vec<Cell>| l@) =~= g0.scrollback.subrange(
                    g0.scrollback.len() - sb@.len(),
                    g0.scrollback.len() as int,
                ),
            decreases sb.len(),
        {
            let ghost before = sb@;
            sb.pop_front();
            assert(sb@.map_values(|l: Vec<Cell>| l@) =~= before.map_values(|l: Vec<Cell>| l@).drop_first());
        }
        let kept = sb.len();
        self.scrollback = sb;
        if self.view_offset > kept {
            self.view_offset = kept;
        }
        proof {
            assert(self.scrollback@.map_values(|l: Vec<Cell>| l@) =~= keep_last(g0.scrollback, max as nat));
            assert(self@ =~= (GridState {
                max_scrollback: max as nat,
                scrollback: keep_last(g0.scrollback, max as nat),
                view_offset: min_nat(g0.view_offset, keep_last(g0.scrollback, max as nat).len()),
                ..g0
            }));
        }
    }

    /// Blank every cell and reset the cursor/pen/view to a fresh state (used
    /// when entering the alternate screen).
    pub fn clear(&mut self)
        requires
            old(self).wf(),
        ensures
            final(self).wf(),
            final(self)@ == old(self)@.cleared(),
    {
        let ghost g0 = self@;
        self.lines = Self::blank_lines(self.rows, self.cols, Cell::default());
        self.cursor_row = 0;
        self.cursor_col = 0;
        self.wrap_pending = false;
        self.pen = Cell::default();
        self.view_offset = 0;
        assert(self@.lines =~= Seq::new(g0.rows, |r: int| blank_row(g0.cols, default_cell())));
        assert(self@ =~= (GridState {
            lines: Seq::new(g0.rows, |r: int| blank_row(g0.cols, default_cell())),
            cursor_row: 0,
            cursor_col: 0,
            wrap_pending: false,
            pen: default_cell(),
            view_offset: 0,
            ..g0
        }));
    }

    pub fn rows(&self) -> (n: usize)
        ensures
            n == self@.rows,
    {
        self.rows
    }

    pub fn cols(&self) -> (n: usize)
        ensures
            n == self@.cols,
    {
        self.cols
    }

    pub fn cursor_row(&self) -> (n: usize)
        ensures
            n == self@.cursor_row,
    {
        self.cursor_row
    }

    pub fn cursor_col(&self) -> (n: usize)
        ensures
            n == self@.cursor_col,
    {
        self.cursor_col
    }

    pub fn pen(&self) -> (c: Cell)
        ensures
            c == self@.pen,
    {
        self.pen
    }

    pub fn cursor_visible(&self) -> (b: bool)
        ensures
            b == self@.cursor_visible,
    {
        self.cursor_visible
    }

    pub fn view_offset(&self) -> (n: usize)
        ensures
            n == self@.view_offset,
    {
        self.view_offset
    }

    /// How many lines of history are kept.
    pub fn scrollback_len(&self) -> (n: usize)
        ensures
            n == self@.scrollback.len(),
    {
        self.scrollback.len()
    }

    /// Scroll the viewport: positive = up into history, negative = back down.
    pub fn scroll_view(&mut self, delta: isize)
        requires
            old(self).wf(),
        ensures
            final(self).wf(),
            final(self)@ == (GridState {
                view_offset: if old(self)@.view_offset + delta < 0 {
                    0
                } else if old(self)@.view_offset + delta > old(self)@.scrollback.len() {
                    old(self)@.scrollback.len()
                } else {
                    (old(self)@.view_offset + delta) as nat
                },
                ..old(self)@
            }),
    {
        let max = self.scrollback.len();
        let cur = self.view_offset;
        let next: usize = if delta < 0 {
            let down: usize = ((-(delta + 1)) as usize) + 1;
            assert(down == -delta);
            cur.saturating_sub(down)
        } else {
            let up = delta as usize;
            if up >= max - cur { max } else { cur + up }
        };
        self.view_offset = next;
        assert(self@ =~= (GridState {
            view_offset: if old(self)@.view_offset + delta < 0 {
                0
            } else if old(self)@.view_offset + delta > old(self)@.scrollback.len() {
                old(self)@.scrollback.len()
            } else {
                (old(self)@.view_offset + delta) as nat
            },
            ..old(self)@
        }));
    }

    /// Snap back to the live screen (called on keystrokes).
    pub fn reset_view(&mut self)
        requires
            old(self).wf(),
        ensures
            final(self).wf(),
            final(self)@ == (GridState { view_offset: 0, ..old(self)@ }),
    {
        self.view_offset = 0;
        assert(self@ =~= (GridState { view_offset: 0, ..old(self)@ }));
    }

    /// The cell shown at screen position (row, col), accounting for how far the
    /// viewport is scrolled into scrollback. Out-of-range columns of a narrower
    /// archived line yield a blank.
    pub fn visible_cell(&self, row: usize, col: usize) -> (c: Cell)
        requires
            self.wf(),
            row >= self@.view_offset ==> row - self@.view_offset < self@.rows && col < self@.cols,
        ensures
            c == self@.visible(row as int, col as int),
    {
        if row < self.view_offset {
            let sb = self.scrollback.len() - self.view_offset + row;
            let line = &self.scrollback[sb];
            assert(line@ == self@.scrollback[sb as int]);
            if col < line.len() {
                line[col]
            } else {
                Cell::default()
            }
        } else {
            let live = row - self.view_offset;
            assert(self.lines@[live as int]@ == self@.lines[live as int]);
            self.lines[live][col]
        }
    }

    /// Resize the grid to `new_rows` × `new_cols` (each at least 1), preserving
    /// existing content anchored top-left and clamping the cursor. No reflow.
    pub fn resize(&mut self, new_rows: usize, new_cols: usize)
        requires
            old(self).wf(),
        ensures
            final(self).wf(),
            final(self)@ == old(self)@.resized(new_rows as nat, new_cols as nat),
    {
        let ghost g0 = self@;
        let new_rows = if new_rows == 0 { 1 } else { new_rows };
        let new_cols = if new_cols == 0 { 1 } else { new_cols };
        if new_rows == self.rows && new_cols == self.cols {
            return;
        }
        let blank = self.blank();
        let mut next: Vec<Vec<Cell>> = Vec::new();
        let mut r: usize = 0;
        while r < new_rows
            invariant
                r <= new_rows,
                self.wf(),
                self@ == g0,
                blank == g0.blank(),
                next@.len() == r,
                forall|i: int| 0 <= i < r ==> #[trigger] next@[i]@ == Seq::new(
                    new_cols as nat,
                    |c: int| if i < g0.rows && c < g0.cols { g0.lines[i][c] } else { blank },
                ),
            decreases new_rows - r,
        {
            let mut line: Vec<Cell> = Vec::new();
            let mut c: usize = 0;
            while c < new_cols
                invariant
                    c <= new_cols,
                    r < new_rows,
                    self.wf(),
                    self@ == g0,
                    blank == g0.blank(),
                    line@ =~= Seq::new(
                        new_cols as nat,
                        |cc: int| if r < g0.rows && cc < g0.cols { g0.lines[r as int][cc] } else { blank },
                    ).subrange(0, c as int),
                decreases new_cols - c,
            {
                let cell = if r < self.rows && c < self.cols {
                    assert(self.lines@[r as int]@ == g0.lines[r as int]);
                    self.lines[r][c]
                } else {
                    blank
                };
                line.push(cell);
                c += 1;
            }
            next.push(line);
            r += 1;
        }
        self.lines = next;
        self.rows = new_rows;
        self.cols = new_cols;
        self.cursor_row = if self.cursor_row < new_rows - 1 { self.cursor_row } else { new_rows - 1 };
        self.cursor_col = if self.cursor_col < new_cols - 1 { self.cursor_col } else { new_cols - 1 };
        self.wrap_pending = false;
        self.view_offset = 0;
        proof {
            let want = g0.resized(new_rows as nat, new_cols as nat);
            assert(self@.lines =~= want.lines);
            assert(self@ =~= want);
        }
    }

    // --- debugging / headless rendering ----------------------------------

    /// Append the glyphs of row `r`, columns `c0..c1`, to `out`.
    fn push_span(&self, out: &mut Vec<char>, r: usize, c0: usize, c1: usize)
        requires
            self.wf(),
            r < self@.rows,
            c1 <= self@.cols,
        ensures
            final(out)@ == old(out)@ + self@.span(r as int, c0 as int, c1 as int),
    {
        let ghost line = self@.lines[r as int];
        assert(self.lines@[r as int]@ == line);
        let mut c = c0;
        while c < c1
            invariant
                c0 <= c <= c1 || (c == c0 && c0 >= c1),
                c1 <= line.len(),
                self.lines@[r as int]@ == line,
                r < self.lines@.len(),
                out@ == old(out)@ + (if c0 < c { row_chars(line).subrange(c0 as int, c as int) } else { Seq::empty() }),
            decreases c1 - c,
        {
            out.push(self.lines[r][c].ch);
            c += 1;
            assert(row_chars(line).subrange(c0 as int, c as int) =~= (if c0 < c - 1 {
                row_chars(line).subrange(c0 as int, c - 1)
            } else {
                Seq::empty()
            }).push(line[c - 1].ch));
        }
    }

    /// The text from `from` to `to` (inclusive of `from`, exclusive of `to`),
    /// reading across rows, trailing white space trimmed. Used to capture a typed
    /// command between OSC marks.
    pub fn text_between(&self, from: (usize, usize), to: (usize, usize)) -> (s: String)
        requires
            self.wf(),
        ensures
            s@ == self@.text_between((from.0 as nat, from.1 as nat), (to.0 as nat, to.1 as nat)),
    {
        let (r0, c0) = from;
        let (r1, c1) = to;
        if r1 < r0 || r0 >= self.rows {
            return String::new();
        }
        let mut out: Vec<char> = Vec::new();
        if r0 == r1 {
            let e = if c1 < self.cols { c1 } else { self.cols };
            self.push_span(&mut out, r0, c0, e);
        } else {
            let cols = self.cols;
            self.push_span(&mut out, r0, c0, cols);
            let ghost first = out@;
            let last_row = if r1 < self.rows { r1 } else { self.rows };
            let mut r = r0 + 1;
            while r < last_row
                invariant
                    r0 + 1 <= r <= last_row <= self@.rows,
                    self.wf(),
                    cols == self@.cols,
                    out@ == first + self@.rows_after_newlines(r0 + 1, r as int),
                decreases last_row - r,
            {
                out.push('\n');
                let ghost before = out@;
                self.push_span(&mut out, r, 0, cols);
                assert(self@.span(r as int, 0, cols as int) =~= row_chars(self@.lines[r as int]));
                r += 1;
                assert(out@ =~= first + self@.rows_after_newlines(r0 + 1, r as int));
            }
            if r1 < self.rows {
                out.push('\n');
                let e = if c1 < self.cols { c1 } else { self.cols };
                self.push_span(&mut out, r1, 0, e);
            }
            assert(out@ =~= self@.span(r0 as int, c0 as int, self@.cols as int)
                + self@.rows_after_newlines(r0 + 1, min_nat(r1 as nat, self@.rows) as int)
                + (if r1 < self.rows {
                    seq!['\n'] + self@.span(r1 as int, 0, min_nat(c1 as nat, self@.cols) as int)
                } else {
                    Seq::empty()
                }));
        }
        let n = trim_end_len(out.as_slice(), out.len());
        assert(out@.subrange(0, out@.len() as int) == out@);
        let mut s = String::new();
        crate::text::push_chars(&mut s, out.as_slice(), 0, n);
        s
    }

    /// The glyphs of one row of cells.
    fn line_text(line: &Vec<Cell>) -> (s: String)
        ensures
            s@ == row_chars(line@),
    {
        let mut s = String::new();
        let mut c: usize = 0;
        while c < line.len()
            invariant
                c <= line@.len(),
                s@ == row_chars(line@).subrange(0, c as int),
            decreases line.len() - c,
        {
            s.push(line[c].ch);
            c += 1;
            assert(row_chars(line@).subrange(0, c as int) =~= row_chars(line@).subrange(
                0,
                c - 1,
            ).push(line@[c - 1].ch));
        }
        assert(row_chars(line@).subrange(0, c as int) =~= row_chars(line@));
        s
    }

    /// Every line as text, scrollback (oldest first) then the live screen —
    /// the line list a scrollback search runs over, by absolute index.
    pub fn all_lines_text(&self) -> (v: Vec<String>)
        requires
            self.wf(),
        ensures
            v@.len() == self@.all_lines().len(),
            forall|i: int| 0 <= i < v@.len() ==> #[trigger] v@[i]@ == row_chars(self@.all_lines()[i]),
    {
        let mut v: Vec<String> = Vec::new();
        let n = self.scrollback.len();
        let mut i: usize = 0;
        while i < n
            invariant
                i <= n == self@.scrollback.len(),
                v@.len() == i,
                forall|j: int| 0 <= j < i ==> #[trigger] v@[j]@ == row_chars(self@.all_lines()[j]),
            decreases n - i,
        {
            let t = Self::line_text(&self.scrollback[i]);
            assert(self.scrollback@[i as int]@ == self@.all_lines()[i as int]);
            v.push(t);
            i += 1;
        }
        let mut r: usize = 0;
        while r < self.rows
            invariant
                r <= self@.rows,
                n == self@.scrollback.len(),
                self.wf(),
                v@.len() == n + r,
                forall|j: int| 0 <= j < n + r ==> #[trigger] v@[j]@ == row_chars(self@.all_lines()[j]),
            decreases self.rows - r,
        {
            let t = Self::line_text(&self.lines[r]);
            assert(self.lines@[r as int]@ == self@.all_lines()[n + r]);
            v.push(t);
            r += 1;
        }
        v
    }

    /// Scroll the viewport so absolute line `abs` (an index into
    /// `all_lines_text`) is in view: a history line at the top row, a live line
    /// by returning to the live screen.
    pub fn scroll_to_line(&mut self, abs: usize)
        requires
            old(self).wf(),
        ensures
            final(self).wf(),
            final(self)@ == (GridState {
                view_offset: old(self)@.offset_for_line(abs as nat),
                ..old(self)@
            }),
    {
        let n = self.scrollback.len();
        self.view_offset = if abs < n { n - abs } else { 0 };
        assert(self@ =~= (GridState {
            view_offset: old(self)@.offset_for_line(abs as nat),
            ..old(self)@
        }));
    }

    /// Render the grid as plain text (one line per row), for headless dumps.
    pub fn to_text(&self) -> (s: String)
        requires
            self.wf(),
        ensures
            s@ == self@.text_rows(self@.rows as int),
    {
        let mut out: Vec<char> = Vec::new();
        let mut row: usize = 0;
        while row < self.rows
            invariant
                row <= self@.rows,
                self.wf(),
                out@ == self@.text_rows(row as int),
            decreases self.rows - row,
        {
            if row > 0 {
                out.push('\n');
            }
            let ghost before = out@;
            self.push_span(&mut out, row, 0, self.cols);
            assert(self@.span(row as int, 0, self@.cols as int) =~= row_chars(self@.lines[row as int]));
            row += 1;
            assert(out@ =~= self@.text_rows(row as int));
        }
        crate::text::string_of(out.as_slice())
    }
}

/// A tab stop: every eighth column, from column 0.
pub open spec fn tab_stop(m: nat) -> bool {
    m % 8 == 0
}

/// A tab moves the cursor to the next tab stop: the least multiple of 8
/// beyond the cursor's column, or the last column when no stop is left on
/// the row. Nothing else changes.
pub proof fn law_tab_goes_to_next_stop(g: GridState)
    requires
        g.wf(),
    ensures
        ({
            let c = g.cursor_col;
            let t = g.tabbed().cursor_col;
            let last = (g.cols - 1) as nat;
            &&& t <= last
            &&& (c < last ==> c < t)
            &&& (t == last || tab_stop(t))
            &&& forall|m: nat| c < m < t ==> !#[trigger] tab_stop(m)
            &&& g.tabbed().cursor_row == g.cursor_row
            &&& g.tabbed().lines == g.lines
            &&& g.tabbed().scrollback == g.scrollback
        }),
{
    let c = g.cursor_col;
    let next = (c / 8 + 1) * 8;
    assert(next % 8 == 0 && c < next && next <= c + 8) by (nonlinear_arith)
        requires
            next == (c / 8 + 1) * 8,
    ;
    assert forall|m: nat| c < m < g.tabbed().cursor_col implies !#[trigger] tab_stop(m) by {
        if m % 8 == 0 {
            assert(m >= next) by (nonlinear_arith)
                requires
                    m % 8 == 0,
                    c < m,
                    next == (c / 8 + 1) * 8,
            ;
        }
    }
}

/// The erase blank: a space with no attributes in the default foreground,
/// over the pen's background.
pub open spec fn erase_blank(g: GridState) -> Cell {
    Cell { ch: ' ', fg: Color::Default, bg: g.pen.bg, attrs: 0 }
}

/// Printing writes the glyph, in the pen's colors and attributes, into the
/// cell under the cursor (on the next row's first cell when a wrap is
/// pending and there is room below) and touches no other cell; the cursor
/// then moves one column right, or at the last column stays and a wrap
/// becomes pending.
pub proof fn law_print_writes_one_cell(g: GridState, ch: char)
    requires
        g.wf(),
    ensures
        !g.wrap_pending ==> ({
            let p = g.printed(ch);
            let (r, c) = (g.cursor_row as int, g.cursor_col as int);
            &&& p.lines[r][c] == (Cell { ch, fg: g.pen.fg, bg: g.pen.bg, attrs: g.pen.attrs })
            &&& forall|i: int, j: int|
                0 <= i < g.rows && 0 <= j < g.cols && (i != r || j != c) ==> #[trigger] p.lines[i][j]
                    == g.lines[i][j]
            &&& p.cursor_row == g.cursor_row
            &&& (c + 1 < g.cols ==> p.cursor_col == c + 1 && !p.wrap_pending)
            &&& (c + 1 == g.cols ==> p.cursor_col == c && p.wrap_pending)
        }),
        g.wrap_pending && g.cursor_row + 1 < g.rows ==> ({
            let p = g.printed(ch);
            let r = (g.cursor_row + 1) as int;
            &&& p.lines[r][0] == (Cell { ch, fg: g.pen.fg, bg: g.pen.bg, attrs: g.pen.attrs })
            &&& forall|i: int, j: int|
                0 <= i < g.rows && 0 <= j < g.cols && (i != r || j != 0) ==> #[trigger] p.lines[i][j]
                    == g.lines[i][j]
            &&& p.cursor_row == r
        }),
{
}

/// Erasing in the line blanks exactly the cells its mode names and keeps
/// every other cell and the cursor: mode 0 from the cursor to the end of the
/// row, mode 1 from the row's start through the cursor, mode 2 the whole row.
pub proof fn law_erase_in_line_blanks_its_span(g: GridState, mode: u16)
    requires
        g.wf(),
        mode <= 2,
    ensures
        ({
            let e = g.erased_in_line(mode);
            let (r, c) = (g.cursor_row as int, g.cursor_col as int);
            &&& e.cursor_row == g.cursor_row && e.cursor_col == g.cursor_col
            &&& e.lines.len() == g.lines.len()
            &&& forall|i: int, j: int|
                0 <= i < g.rows && 0 <= j < g.cols ==> #[trigger] e.lines[i][j] == if i == r && (mode == 2 || (
                mode == 0 && j >= c) || (mode == 1 && j <= c)) {
                    erase_blank(g)
                } else {
                    g.lines[i][j]
                }
        }),
{
}

/// Erasing the display blanks exactly what its mode names: mode 0 from the
/// cursor to the end of the screen, mode 1 from the screen's start through
/// the cursor, modes 2 and 3 everything; other cells and the cursor stay.
pub proof fn law_erase_in_display_blanks_its_span(g: GridState, mode: u16)
    requires
        g.wf(),
        mode <= 3,
    ensures
        ({
            let e = g.erased_in_display(mode);
            let (r, c) = (g.cursor_row as int, g.cursor_col as int);
            &&& e.cursor_row == g.cursor_row && e.cursor_col == g.cursor_col
            &&& e.lines.len() == g.lines.len()
            &&& forall|i: int, j: int|
                0 <= i < g.rows && 0 <= j < g.cols ==> #[trigger] e.lines[i][j] == if mode >= 2 || (mode == 0
                && (i > r || (i == r && j >= c))) || (mode == 1 && (i < r || (i == r && j <= c))) {
                    erase_blank(g)
                } else {
                    g.lines[i][j]
                }
        }),
{
}

/// Resizing keeps every cell that lies within both the old and the new size,
/// blanks the cells the new size adds, and keeps the cursor where it was,
/// pulled in to the new edges.
pub proof fn law_resize_keeps_the_overlap(g: GridState, nr: nat, nc: nat)
    requires
        g.wf(),
        nr >= 1,
        nc >= 1,
    ensures
        ({
            let n = g.resized(nr, nc);
            &&& n.rows == nr && n.cols == nc
            &&& n.lines.len() == nr
            &&& forall|i: int, j: int|
                0 <= i < nr && 0 <= j < nc ==> #[trigger] n.lines[i][j] == if i < g.rows && j < g.cols {
                    g.lines[i][j]
                } else {
                    erase_blank(g)
                }
            &&& n.cursor_row == (if g.cursor_row < nr { g.cursor_row } else { (nr - 1) as nat })
            &&& n.cursor_col == (if g.cursor_col < nc { g.cursor_col } else { (nc - 1) as nat })
            &&& n.scrollback == g.scrollback
        }),
{
}

/// The grid with its viewport scrolled `o` lines into history.
pub open spec fn viewed_at(g: GridState, o: nat) -> GridState {
    GridState { view_offset: o, ..g }
}

/// The viewport shows history above the live screen as one tall page: at
/// offset 0 it shows the live rows as they are; at offset o the top row is
/// the o-th line from the end of the history (a shorter archived line padded
/// with blanks); scrolling up one more line moves everything shown one row
/// down; and scrolling to an absolute line (history first, then the live
/// screen) brings that line into view, a history line at the top row.
pub proof fn law_viewport_shows_history(g: GridState, o: nat, r: int, c: int, abs: nat)
    requires
        g.wf(),
        0 <= c < g.cols,
    ensures
        0 <= r < g.rows ==> viewed_at(g, 0).visible(r, c) == g.lines[r][c],
        0 < o <= g.scrollback.len() ==> viewed_at(g, o).visible(0, c) == ({
            let line = g.scrollback[g.scrollback.len() - o];
            if c < line.len() {
                line[c]
            } else {
                crate::cell::default_cell()
            }
        }),
        o < g.scrollback.len() && 0 <= r && r + 1 < g.rows ==> viewed_at(g, o + 1).visible(r + 1, c)
            == viewed_at(g, o).visible(r, c),
        abs < g.scrollback.len() ==> ({
            let v = viewed_at(g, g.offset_for_line(abs));
            let line = g.all_lines()[abs as int];
            v.view_offset <= g.scrollback.len() && v.visible(0, c) == if c < line.len() {
                line[c]
            } else {
                crate::cell::default_cell()
            }
        }),
        g.scrollback.len() <= abs < g.all_lines().len() ==> ({
            let v = viewed_at(g, g.offset_for_line(abs));
            v.view_offset == 0 && v.visible(abs - g.scrollback.len(), c) == g.all_lines()[abs as int][c]
        }),
{
}

/// Scrolling the screen up by a line archives the top row as the newest
/// history line, keeping the most recent `max_scrollback` lines, moves each
/// other row up and blanks the bottom one. A reader scrolled back into
/// history keeps seeing exactly the same lines as output pushes in, unless
/// the view is already at the oldest line of a full history.
pub proof fn law_scroll_archives_and_anchors(g: GridState, r: int, c: int)
    requires
        g.wf(),
        g.max_scrollback > 0,
    ensures
        ({
            let s = g.scrolled_up();
            &&& g.scrollback.len() < g.max_scrollback ==> s.scrollback == g.scrollback.push(g.lines[0])
            &&& g.scrollback.len() == g.max_scrollback ==> s.scrollback == g.scrollback.drop_first().push(
                g.lines[0],
            )
            &&& s.lines.len() == g.rows
            &&& forall|i: int| 0 <= i < g.rows - 1 ==> #[trigger] s.lines[i] == g.lines[i + 1]
            &&& s.lines[g.rows - 1] == Seq::new(g.cols, |j: int| erase_blank(g))
            &&& (g.view_offset > 0 && (g.scrollback.len() < g.max_scrollback || g.view_offset
                < g.scrollback.len()) && 0 <= r < g.rows && 0 <= c < g.cols ==> s.visible(r, c) == g.visible(
                r,
                c,
            ))
        }),
{
    let s = g.scrolled_up();
    let pushed = g.scrollback.push(g.lines[0]);
    if g.scrollback.len() == g.max_scrollback {
        assert(keep_last(pushed, g.max_scrollback) =~= g.scrollback.drop_first().push(g.lines[0]));
    }
    assert(s.lines[g.rows - 1] =~= Seq::new(g.cols, |j: int| erase_blank(g)));
    let o = g.view_offset;
    if o > 0 && (g.scrollback.len() < g.max_scrollback || o < g.scrollback.len()) && 0 <= r < g.rows && 0 <= c
        < g.cols {
        let n = g.scrollback.len();
        assert(s.view_offset == o + 1);
        if r < o {
            assert(s.scrollback[s.scrollback.len() - (o + 1) + r] == g.scrollback[n - o + r]);
        } else if r == o {
            assert(s.scrollback[s.scrollback.len() - (o + 1) + r] == g.lines[0]);
        } else {
            assert(s.lines[r - (o + 1)] == g.lines[r - o]);
        }
    }
}

} // verus!
