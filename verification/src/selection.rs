//! Text selection over a pane's visible cells. Linear (reading-order) selection
//! from an `anchor` cell to a `head` cell; extraction reads through
//! `Grid::visible_cell` so it works over scrollback too.

use vstd::prelude::*;
use crate::grid::{Grid, GridState};
use crate::layout::PaneId;
use crate::text::{push_chars, trim_end_len, trim_end_seq};

verus! {

/// Reading order on (row, col) positions.
pub open spec fn pos_le(a: (usize, usize), b: (usize, usize)) -> bool {
    a.0 < b.0 || (a.0 == b.0 && a.1 <= b.1)
}

#[derive(Clone, Copy, Debug, PartialEq, Eq)]
pub struct Selection {
    pub pane: PaneId,
    /// Where the drag started (screen row, col).
    pub anchor: (usize, usize),
    /// Where the pointer is now (screen row, col).
    pub head: (usize, usize),
}

/// The glyphs shown on viewport row `r`, columns `c0..end`.
pub open spec fn visible_chars(g: GridState, r: int, c0: int, end: int) -> Seq<char> {
    Seq::new(if end > c0 { (end - c0) as nat } else { 0 }, |i: int| g.visible(r, c0 + i).ch)
}

/// The selected part of viewport row `r`, trailing white space trimmed.
pub open spec fn selected_line(g: GridState, s: (usize, usize), e: (usize, usize), r: int) -> Seq<char> {
    let last_col = g.cols - 1;
    let c0 = if r == s.0 { s.1 as int } else { 0 };
    let c1 = if r == e.0 { e.1 as int } else { last_col };
    let hi = if c1 < last_col { c1 } else { last_col };
    trim_end_seq(visible_chars(g, r, c0, hi + 1))
}

/// The selected text of rows `s.0..r`, a newline after each row but the last
/// selected one.
pub open spec fn selected_rows(g: GridState, s: (usize, usize), e: (usize, usize), r: int) -> Seq<char>
    decreases r - s.0,
{
    if r <= s.0 {
        Seq::empty()
    } else {
        selected_rows(g, s, e, r - 1) + selected_line(g, s, e, r - 1) + (if r - 1 != e.0 {
            seq!['\n']
        } else {
            Seq::empty()
        })
    }
}

/// The selected text between reading-order positions `s` and `e` (inclusive),
/// over the rows that exist.
pub open spec fn selected_text(g: GridState, s: (usize, usize), e: (usize, usize)) -> Seq<char> {
    let end = if e.0 < g.rows { e.0 + 1 } else { g.rows as int };
    selected_rows(g, s, e, end)
}

/// The glyphs of viewport row `r` from column `a` up to (not including) `b`.
pub open spec fn row_glyphs(g: GridState, r: int, a: int, b: int) -> Seq<char> {
    Seq::new(if a < b { (b - a) as nat } else { 0nat }, |i: int| g.visible(r, a + i).ch)
}

/// Each selected row gives exactly its selected cells, trailing blanks
/// trimmed: the first row from the start column to the end of the row, every
/// row strictly between from column 0 to the last column, the last row from
/// column 0 through the end column, and a one-row selection from the start
/// column through the end column.
pub proof fn law_selection_copies_whole_middle_rows(
    g: GridState,
    s: (usize, usize),
    e: (usize, usize),
    r: int,
)
    requires
        g.wf(),
        s.1 < g.cols,
        e.1 < g.cols,
    ensures
        s.0 < r < e.0 ==> selected_line(g, s, e, r) == trim_end_seq(row_glyphs(g, r, 0, g.cols as int)),
        r == s.0 && s.0 < e.0 ==> selected_line(g, s, e, r) == trim_end_seq(
            row_glyphs(g, r, s.1 as int, g.cols as int),
        ),
        s.0 < e.0 && r == e.0 ==> selected_line(g, s, e, r) == trim_end_seq(
            row_glyphs(g, r, 0, e.1 + 1),
        ),
        r == s.0 && r == e.0 ==> selected_line(g, s, e, r) == trim_end_seq(
            row_glyphs(g, r, s.1 as int, e.1 + 1),
        ),
{
    let last = g.cols - 1;
    if s.0 < r < e.0 {
        assert(visible_chars(g, r, 0, last + 1) =~= row_glyphs(g, r, 0, g.cols as int));
    }
    if r == s.0 && s.0 < e.0 {
        assert(visible_chars(g, r, s.1 as int, last + 1) =~= row_glyphs(g, r, s.1 as int, g.cols as int));
    }
    if s.0 < e.0 && r == e.0 {
        assert(visible_chars(g, r, 0, e.1 + 1) =~= row_glyphs(g, r, 0, e.1 + 1));
    }
    if r == s.0 && r == e.0 {
        assert(visible_chars(g, r, s.1 as int, e.1 + 1) =~= row_glyphs(g, r, s.1 as int, e.1 + 1));
    }
}

proof fn lemma_rows_from_front(g: GridState, s: (usize, usize), e: (usize, usize), k: int)
    requires
        s.0 < k,
        s.0 < e.0,
        s.0 + 1 <= usize::MAX,
    ensures
        selected_rows(g, s, e, k) == selected_line(g, s, e, s.0 as int) + seq!['\n'] + selected_rows(
            g,
            ((s.0 + 1) as usize, 0usize),
            e,
            k,
        ),
    decreases k - s.0,
{
    let s2 = ((s.0 + 1) as usize, 0usize);
    if k == s.0 + 1 {
        assert(selected_rows(g, s, e, s.0 as int) =~= Seq::<char>::empty());
        assert(selected_rows(g, s2, e, k) =~= Seq::<char>::empty());
        assert(Seq::<char>::empty() + selected_line(g, s, e, s.0 as int) + seq!['\n'] =~= selected_line(
            g,
            s,
            e,
            s.0 as int,
        ) + seq!['\n'] + Seq::<char>::empty());
    } else {
        lemma_rows_from_front(g, s, e, k - 1);
        assert(selected_line(g, s, e, k - 1) == selected_line(g, s2, e, k - 1));
        let sep = if k - 1 != e.0 { seq!['\n'] } else { Seq::<char>::empty() };
        let a = selected_line(g, s, e, s.0 as int) + seq!['\n'];
        assert(a + selected_rows(g, s2, e, k - 1) + selected_line(g, s, e, k - 1) + sep =~= a + (
        selected_rows(g, s2, e, k - 1) + selected_line(g, s2, e, k - 1) + sep));
    }
}

/// The copied text of a selection spanning several rows is its first row's
/// selected cells, a newline, then the copied text of the rest starting at
/// column 0 of the next row; a one-row selection copies just its row.
pub proof fn law_selection_text_reads_row_by_row(g: GridState, s: (usize, usize), e: (usize, usize))
    requires
        s.0 <= e.0 < g.rows,
    ensures
        s.0 < e.0 ==> selected_text(g, s, e) == selected_line(g, s, e, s.0 as int) + seq!['\n']
            + selected_text(g, ((s.0 + 1) as usize, 0usize), e),
        s.0 == e.0 ==> selected_text(g, s, e) == selected_line(g, s, e, s.0 as int),
{
    if s.0 < e.0 {
        lemma_rows_from_front(g, s, e, e.0 + 1);
    } else {
        assert(selected_rows(g, s, e, s.0 as int) =~= Seq::<char>::empty());
        assert(Seq::<char>::empty() + selected_line(g, s, e, s.0 as int) + Seq::<char>::empty() =~= selected_line(
            g,
            s,
            e,
            s.0 as int,
        ));
    }
}

impl Selection {
    /// (start, end) in reading order.
    pub open spec fn normalized_spec(self) -> ((usize, usize), (usize, usize)) {
        if pos_le(self.anchor, self.head) {
            (self.anchor, self.head)
        } else {
            (self.head, self.anchor)
        }
    }

    /// Whether the selection covers (row, col), both ends included.
    pub open spec fn contains_spec(self, row: usize, col: usize) -> bool {
        pos_le(self.normalized_spec().0, (row, col)) && pos_le((row, col), self.normalized_spec().1)
    }

    pub fn new(pane: PaneId, pos: (usize, usize)) -> (s: Self)
        ensures
            s == (Selection { pane, anchor: pos, head: pos }),
    {
        Selection { pane, anchor: pos, head: pos }
    }

    pub fn set_head(&mut self, pos: (usize, usize))
        ensures
            *final(self) == (Selection { head: pos, ..*old(self) }),
    {
        self.head = pos;
    }

    /// (start, end) in reading order (start <= end).
    pub fn normalized(&self) -> (r: ((usize, usize), (usize, usize)))
        ensures
            r == self.normalized_spec(),
    {
        let a = self.anchor;
        let h = self.head;
        if a.0 < h.0 || (a.0 == h.0 && a.1 <= h.1) {
            (a, h)
        } else {
            (h, a)
        }
    }

    /// Is (row, col) within the selection? Inclusive of both ends.
    pub fn contains(&self, row: usize, col: usize) -> (b: bool)
        ensures
            b == self.contains_spec(row, col),
    {
        let (s, e) = self.normalized();
        let after_start = s.0 < row || (s.0 == row && s.1 <= col);
        let before_end = row < e.0 || (row == e.0 && col <= e.1);
        after_start && before_end
    }

    /// The selected text, with trailing spaces trimmed per line and a newline
    /// between rows.
    pub fn text(&self, grid: &Grid) -> (t: String)
        requires
            grid.wf(),
        ensures
            t@ == selected_text(grid@, self.normalized_spec().0, self.normalized_spec().1),
    {
        let (s, e) = self.normalized();
        let rows = grid.rows();
        let last_col = grid.cols() - 1;
        let end: usize = if e.0 < rows { e.0 + 1 } else { rows };
        let mut out = String::new();
        if s.0 >= end {
            return out;
        }
        let mut row = s.0;
        while row < end
            invariant
                s.0 <= row <= end <= grid@.rows,
                end == (if e.0 < grid@.rows { e.0 + 1 } else { grid@.rows as int }),
                last_col == grid@.cols - 1,
                last_col < usize::MAX,
                grid.wf(),
                out@ == selected_rows(grid@, s, e, row as int),
            decreases end - row,
        {
            let c0: usize = if row == s.0 { s.1 } else { 0 };
            let c1: usize = if row == e.0 { e.1 } else { last_col };
            let hi: usize = if c1 < last_col { c1 } else { last_col };
            let mut line: Vec<char> = Vec::new();
            let mut col = c0;
            while col <= hi
                invariant
                    c0 <= col,
                    col <= hi + 1 || col == c0,
                    hi < grid@.cols,
                    hi < usize::MAX,
                    row < grid@.rows,
                    grid.wf(),
                    line@ == visible_chars(grid@, row as int, c0 as int, col as int),
                decreases hi + 1 - col,
            {
                line.push(grid.visible_cell(row, col).ch);
                col += 1;
                assert(line@ =~= visible_chars(grid@, row as int, c0 as int, col as int));
            }
            assert(line@ =~= visible_chars(grid@, row as int, c0 as int, hi + 1));
            let n = trim_end_len(line.as_slice(), line.len());
            assert(line@.subrange(0, line@.len() as int) =~= line@);
            push_chars(&mut out, line.as_slice(), 0, n);
            if row != e.0 {
                out.push('\n');
            }
            row += 1;
            assert(out@ =~= selected_rows(grid@, s, e, row as int));
        }
        out
    }
}

/// A selection covers the same cells and yields the same text whichever way it
/// was dragged.
pub proof fn law_drag_direction_irrelevant(pane: PaneId, a: (usize, usize), h: (usize, usize), g: GridState)
    ensures
        forall|row: usize, col: usize|
            #![trigger (Selection { pane, anchor: a, head: h }).contains_spec(row, col)]
            (Selection { pane, anchor: a, head: h }).contains_spec(row, col) == (Selection {
                pane,
                anchor: h,
                head: a,
            }).contains_spec(row, col),
        selected_text(
            g,
            (Selection { pane, anchor: a, head: h }).normalized_spec().0,
            (Selection { pane, anchor: a, head: h }).normalized_spec().1,
        ) == selected_text(
            g,
            (Selection { pane, anchor: h, head: a }).normalized_spec().0,
            (Selection { pane, anchor: h, head: a }).normalized_spec().1,
        ),
{
    if pos_le(a, h) && pos_le(h, a) {
        assert(a == h);
    }
}

// --- dragging -------------------------------------------------------------------

/// A left-button step of the pointer that no program takes (it is not
/// reported): a press, a release, or a move.
#[derive(Clone, Copy, Debug, PartialEq, Eq)]
pub enum PointerStep {
    Press,
    Release,
    Move,
}

/// What a pointer step does to the selection of an open text panel.
#[derive(Clone, Copy, Debug, PartialEq, Eq)]
pub enum PanelSelect {
    Keep,
    /// Start a selection at this (line, col).
    Begin((usize, usize)),
    /// Move the selection's head to this (line, col).
    Extend((usize, usize)),
}

/// The window's local selection: whether a left-button drag is selecting,
/// and the selection in the panes.
#[derive(Clone, Copy, Debug, PartialEq, Eq)]
pub struct DragState {
    pub selecting: bool,
    pub selection: Option<Selection>,
}

/// One pointer step. A press starts selecting: over an open panel at the
/// panel cell under the pointer, else a fresh selection at the pane cell
/// under it (none when there is none). A release stops selecting. A move
/// while selecting extends the panel's selection, or moves the head of the
/// pane selection when the pointer is over a cell of the same pane.
pub open spec fn drag_step_spec(
    st: DragState,
    step: PointerStep,
    panel_open: bool,
    panel_cell: Option<(usize, usize)>,
    grid_cell: Option<(PaneId, usize, usize)>,
) -> (DragState, PanelSelect) {
    match step {
        PointerStep::Press => if panel_open {
            (
                DragState { selecting: true, ..st },
                match panel_cell {
                    Some(c) => PanelSelect::Begin(c),
                    None => PanelSelect::Keep,
                },
            )
        } else {
            (
                DragState {
                    selecting: true,
                    selection: match grid_cell {
                        Some((p, r, c)) => Some(Selection { pane: p, anchor: (r, c), head: (r, c) }),
                        None => None,
                    },
                },
                PanelSelect::Keep,
            )
        },
        PointerStep::Release => (DragState { selecting: false, ..st }, PanelSelect::Keep),
        PointerStep::Move => if !st.selecting {
            (st, PanelSelect::Keep)
        } else if panel_open {
            (
                st,
                match panel_cell {
                    Some(c) => PanelSelect::Extend(c),
                    None => PanelSelect::Keep,
                },
            )
        } else {
            match (grid_cell, st.selection) {
                (Some((p, r, c)), Some(sel)) => if sel.pane == p {
                    (
                        DragState { selection: Some(Selection { head: (r, c), ..sel }), ..st },
                        PanelSelect::Keep,
                    )
                } else {
                    (st, PanelSelect::Keep)
                },
                _ => (st, PanelSelect::Keep),
            }
        },
    }
}

/// One step of a local (not reported) left-button selection.
pub fn drag_step(
    st: DragState,
    step: PointerStep,
    panel_open: bool,
    panel_cell: Option<(usize, usize)>,
    grid_cell: Option<(PaneId, usize, usize)>,
) -> (r: (DragState, PanelSelect))
    ensures
        r == drag_step_spec(st, step, panel_open, panel_cell, grid_cell),
{
    match step {
        PointerStep::Press => {
            if panel_open {
                let ps = match panel_cell {
                    Some(c) => PanelSelect::Begin(c),
                    None => PanelSelect::Keep,
                };
                (DragState { selecting: true, selection: st.selection }, ps)
            } else {
                let selection = match grid_cell {
                    Some((p, r, c)) => Some(Selection::new(p, (r, c))),
                    None => None,
                };
                (DragState { selecting: true, selection }, PanelSelect::Keep)
            }
        },
        PointerStep::Release => (DragState { selecting: false, selection: st.selection }, PanelSelect::Keep),
        PointerStep::Move => {
            if !st.selecting {
                (st, PanelSelect::Keep)
            } else if panel_open {
                let ps = match panel_cell {
                    Some(c) => PanelSelect::Extend(c),
                    None => PanelSelect::Keep,
                };
                (st, ps)
            } else {
                match (grid_cell, st.selection) {
                    (Some((p, r, c)), Some(sel)) => {
                        if sel.pane == p {
                            let mut s2 = sel;
                            s2.set_head((r, c));
                            (DragState { selecting: st.selecting, selection: Some(s2) }, PanelSelect::Keep)
                        } else {
                            (st, PanelSelect::Keep)
                        }
                    },
                    _ => (st, PanelSelect::Keep),
                }
            }
        },
    }
}

} // verus!
