//! The command-recall overlay: a searchable list of past commands, drawn over
//! the panes. The filtering and selection logic lives here; the window draws it.

use vstd::prelude::*;
use crate::block::Block;
use crate::pane::Rect;
use crate::text::{chars_of, contains_chars, has_sub, lowercase, push_chars, push_str};

verus! {

/// How many result rows the overlay shows at once.
pub const VISIBLE_ROWS: usize = 12;

/// The widest the overlay gets, in columns.
pub const MAX_COLS: usize = 70;

/// Whether some block of `s` ran command `c`.
pub open spec fn has_command(s: Seq<Block>, c: Seq<char>) -> bool {
    exists|j: int| 0 <= j < s.len() && #[trigger] s[j].command@ == c
}

/// `s` keeping only the first block of each command.
pub open spec fn dedup_by_command(s: Seq<Block>) -> Seq<Block>
    decreases s.len(),
{
    if s.len() == 0 {
        s
    } else {
        let p = dedup_by_command(s.drop_last());
        if has_command(s.drop_last(), s.last().command@) {
            p
        } else {
            p.push(s.last())
        }
    }
}

/// Whether a block's command matches the (lowercased) query.
pub open spec fn block_matches(b: Block, q: Seq<char>) -> bool {
    q.len() == 0 || has_sub(lowercase(b.command@), q)
}

/// The indices among the first `n` blocks whose command matches `q`.
pub open spec fn matching(all: Seq<Block>, q: Seq<char>, n: int) -> Seq<usize>
    decreases n,
{
    if n <= 0 {
        Seq::empty()
    } else if block_matches(all[n - 1], q) {
        matching(all, q, n - 1).push((n - 1) as usize)
    } else {
        matching(all, q, n - 1)
    }
}

/// Pixels between the overlay's border and its text.
pub const PAD: usize = 8;

/// Where the overlay sits in the window, and how much of it is text.
#[derive(Clone, Copy, Debug, PartialEq, Eq, Structural)]
pub struct RecallGeo {
    /// The overlay's box.
    pub rect: Rect,
    /// Columns of text per row.
    pub cols: usize,
    /// Result rows the box has room for.
    pub rows: usize,
    /// Top-left pixel of the query line.
    pub text_x: usize,
    pub text_y: usize,
}

/// `a - b`, or 0 when `b` exceeds `a`.
pub open spec fn sat_sub(a: int, b: int) -> int {
    if a >= b { a - b } else { 0 }
}

/// Text columns in a window `w` pixels wide with cells `cw` wide: the window
/// less four cells, at most `MAX_COLS` and at least 10.
pub open spec fn overlay_cols(w: int, cw: int) -> int {
    let fit = sat_sub(w / cw, 4);
    let c = if fit < MAX_COLS { fit } else { MAX_COLS as int };
    if c < 10 { 10 } else { c }
}

/// Result rows shown for `n` results: up to `VISIBLE_ROWS`, at least one.
pub open spec fn overlay_rows(n: int) -> int {
    let r = if n < VISIBLE_ROWS { n } else { VISIBLE_ROWS as int };
    if r < 1 { 1 } else { r }
}

/// The overlay box for `n` results in a `w`×`h` window of `cw`×`ch` cells:
/// centred across, a sixth of the way down, one query row above the results.
pub open spec fn overlay_geo(n: int, w: int, h: int, cw: int, ch: int) -> RecallGeo {
    let cols = overlay_cols(w, cw);
    let rows = overlay_rows(n);
    let pw = cols * cw + 2 * PAD;
    let ph = (rows + 1) * ch + 2 * PAD;
    let x = sat_sub(w, pw) / 2;
    let y = h / 6;
    RecallGeo {
        rect: Rect { x: x as usize, y: y as usize, w: pw as usize, h: ph as usize },
        cols: cols as usize,
        rows: rows as usize,
        text_x: (x + PAD) as usize,
        text_y: (y + PAD) as usize,
    }
}

pub struct Recall {
    /// History, most-recent-first and deduped by command.
    all: Vec<Block>,
    query: String,
    /// Indices into `all` matching the query.
    results: Vec<usize>,
    selected: usize,
    /// Index of the first visible result row.
    scroll: usize,
}

impl Recall {
    pub closed spec fn all_spec(self) -> Seq<Block> {
        self.all@
    }

    pub closed spec fn query_spec(self) -> Seq<char> {
        self.query@
    }

    pub closed spec fn results_spec(self) -> Seq<usize> {
        self.results@
    }

    pub closed spec fn selected_spec(self) -> int {
        self.selected as int
    }

    pub closed spec fn scroll_spec(self) -> int {
        self.scroll as int
    }

    /// The results are the matches of the query, and the selection is a result
    /// (or 0 when there is none) shown within the visible window.
    pub open spec fn wf(self) -> bool {
        &&& self.results_spec() == matching(
            self.all_spec(),
            lowercase(self.query_spec()),
            self.all_spec().len() as int,
        )
        &&& (self.results_spec().len() == 0 ==> self.selected_spec() == 0)
        &&& (self.results_spec().len() > 0 ==> self.selected_spec() < self.results_spec().len())
        &&& self.scroll_spec() <= self.selected_spec() < self.scroll_spec() + VISIBLE_ROWS
    }

    /// Open over the stored history (oldest first) plus this session's blocks
    /// (the most recent), listed most-recent-first with each command once, at
    /// its latest run.
    pub fn open(stored: Vec<Block>, session: Vec<Block>) -> (r: Self)
        ensures
            r.wf(),
            r.all_spec() == dedup_by_command((stored@ + session@).reverse()),
            r.query_spec() == Seq::<char>::empty(),
            r.selected_spec() == 0,
            r.scroll_spec() == 0,
    {
        let mut blocks = stored;
        let mut tail = session;
        blocks.append(&mut tail);
        let ghost rev = blocks@.reverse();
        let n = blocks.len();
        let mut all: Vec<Block> = Vec::new();
        let mut k: usize = 0;
        while k < n
            invariant
                k <= n,
                blocks@.len() == n - k,
                rev.len() == n,
                forall|j: int| 0 <= j < n - k ==> #[trigger] blocks@[j] == rev[n - 1 - j],
                all@ == dedup_by_command(rev.take(k as int)),
                forall|c: Seq<char>|
                    has_command(all@, c) <==> #[trigger] has_command(rev.take(k as int), c),
            decreases n - k,
        {
            let b = blocks.pop().unwrap();
            let ghost pre = rev.take(k as int);
            assert(b == rev[k as int]);
            assert(rev.take(k + 1).drop_last() =~= pre);
            assert(rev.take(k + 1).last() == b);
            let mut seen = false;
            let mut j: usize = 0;
            while j < all.len()
                invariant
                    j <= all@.len(),
                    seen == (exists|i: int| 0 <= i < j && #[trigger] all@[i].command@ == b.command@),
                decreases all.len() - j,
            {
                if all[j].command == b.command {
                    seen = true;
                }
                j += 1;
            }
            let ghost before = all@;
            if !seen {
                all.push(b);
            }
            k += 1;
            proof {
                let now = rev.take(k as int);
                assert(now.drop_last() =~= pre);
                assert(seen == has_command(before, b.command@));
                assert forall|c: Seq<char>| has_command(all@, c) <==> #[trigger] has_command(now, c) by {
                    if has_command(now, c) {
                        let w = choose|w: int| 0 <= w < now.len() && #[trigger] now[w].command@ == c;
                        if w < now.len() - 1 {
                            assert(pre[w].command@ == c);
                            assert(has_command(pre, c));
                        }
                    }
                    if has_command(pre, c) {
                        let w = choose|w: int| 0 <= w < pre.len() && #[trigger] pre[w].command@ == c;
                        assert(now[w].command@ == c);
                    }
                    if has_command(all@, c) && !has_command(before, c) {
                        assert(all@.last().command@ == c);
                    }
                    if has_command(before, c) {
                        let w = choose|w: int| 0 <= w < before.len() && #[trigger] before[w].command@ == c;
                        assert(all@[w].command@ == c);
                    }
                    if has_command(all@, c) {
                        let w = choose|w: int| 0 <= w < all@.len() && #[trigger] all@[w].command@ == c;
                        if w < before.len() {
                            assert(before[w].command@ == c);
                        }
                    }
                }
            }
        }
        assert(rev.take(n as int) =~= rev);
        let mut r = Recall { all, query: String::new(), results: Vec::new(), selected: 0, scroll: 0 };
        r.refilter();
        r
    }

    /// Recompute the results for the query and go back to the first one.
    fn refilter(&mut self)
        ensures
            final(self).wf(),
            final(self).all_spec() == old(self).all_spec(),
            final(self).query_spec() == old(self).query_spec(),
            final(self).selected_spec() == 0,
            final(self).scroll_spec() == 0,
    {
        let q = chars_of(self.query.as_str().to_lowercase().as_str());
        let mut results: Vec<usize> = Vec::new();
        let mut i: usize = 0;
        while i < self.all.len()
            invariant
                i <= self.all@.len(),
                q@ == lowercase(self.query@),
                results@ == matching(self.all@, q@, i as int),
            decreases self.all.len() - i,
        {
            let hay = chars_of(self.all[i].command.as_str().to_lowercase().as_str());
            if q.len() == 0 || contains_chars(hay.as_slice(), q.as_slice()) {
                results.push(i);
            }
            i += 1;
        }
        self.results = results;
        self.selected = 0;
        self.scroll = 0;
    }

    /// Type a char into the query.
    pub fn on_char(&mut self, c: char)
        ensures
            final(self).wf(),
            final(self).all_spec() == old(self).all_spec(),
            final(self).query_spec() == old(self).query_spec().push(c),
            final(self).selected_spec() == 0,
            final(self).scroll_spec() == 0,
    {
        self.query.push(c);
        self.refilter();
    }

    /// Delete the last char of the query.
    pub fn on_backspace(&mut self)
        ensures
            final(self).wf(),
            final(self).all_spec() == old(self).all_spec(),
            final(self).query_spec() == (if old(self).query_spec().len() == 0 {
                old(self).query_spec()
            } else {
                old(self).query_spec().drop_last()
            }),
            final(self).selected_spec() == 0,
            final(self).scroll_spec() == 0,
    {
        let v = chars_of(self.query.as_str());
        if v.len() > 0 {
            let mut q = String::new();
            push_chars(&mut q, v.as_slice(), 0, v.len() - 1);
            assert(v@.subrange(0, v@.len() - 1) =~= v@.drop_last());
            self.query = q;
        }
        self.refilter();
    }

    /// Move the selection by `delta`, clamped to the results, scrolling the
    /// window just enough to keep it visible.
    pub fn move_sel(&mut self, delta: isize)
        requires
            old(self).wf(),
        ensures
            final(self).wf(),
            final(self).all_spec() == old(self).all_spec(),
            final(self).query_spec() == old(self).query_spec(),
            final(self).results_spec() == old(self).results_spec(),
            old(self).results_spec().len() == 0 ==> final(self).selected_spec() == old(
                self,
            ).selected_spec() && final(self).scroll_spec() == old(self).scroll_spec(),
            old(self).results_spec().len() > 0 ==> {
                let n = old(self).results_spec().len() as int;
                let t = old(self).selected_spec() + delta;
                let sel = if t < 0 {
                    0
                } else if t > n - 1 {
                    n - 1
                } else {
                    t
                };
                &&& final(self).selected_spec() == sel
                &&& final(self).scroll_spec() == if sel < old(self).scroll_spec() {
                    sel
                } else if sel >= old(self).scroll_spec() + VISIBLE_ROWS {
                    sel + 1 - VISIBLE_ROWS
                } else {
                    old(self).scroll_spec()
                }
            },
    {
        if self.results.len() == 0 {
            return;
        }
        let n = self.results.len();
        let t: i128 = self.selected as i128 + delta as i128;
        let sel: usize = if t < 0 {
            0
        } else if t > (n - 1) as i128 {
            n - 1
        } else {
            t as usize
        };
        self.selected = sel;
        if sel < self.scroll {
            self.scroll = sel;
        } else if sel - self.scroll >= VISIBLE_ROWS {
            self.scroll = sel + 1 - VISIBLE_ROWS;
        }
    }

    /// The command of the selected result.
    pub fn selected_command(&self) -> (c: Option<String>)
        requires
            self.wf(),
        ensures
            match c {
                Some(s) => self.results_spec().len() > 0 && s@ == self.all_spec()[self.results_spec()[self.selected_spec()] as int].command@,
                None => self.results_spec().len() == 0,
            },
    {
        if self.selected < self.results.len() {
            let i = self.results[self.selected];
            proof {
                lemma_matching_in_range(self.all@, lowercase(self.query@), self.all@.len() as int);
            }
            Some(self.all[i].command.clone())
        } else {
            None
        }
    }

    /// The output captured for the selected result's block (for "copy block
    /// output").
    pub fn selected_output(&self) -> (o: Option<String>)
        requires
            self.wf(),
        ensures
            match o {
                Some(s) => self.results_spec().len() > 0 && s@ == self.all_spec()[self.results_spec()[self.selected_spec()] as int].output@,
                None => self.results_spec().len() == 0,
            },
    {
        if self.selected < self.results.len() {
            let i = self.results[self.selected];
            proof {
                lemma_matching_in_range(self.all@, lowercase(self.query@), self.all@.len() as int);
            }
            Some(self.all[i].output.clone())
        } else {
            None
        }
    }

    /// The overlay's geometry in a `w`×`h` window of `cw`×`ch` cells.
    pub fn geo(&self, w: usize, h: usize, cw: usize, ch: usize) -> (g: RecallGeo)
        requires
            cw >= 1,
            overlay_cols(w as int, cw as int) * cw + 2 * PAD <= usize::MAX,
            (overlay_rows(self.results_spec().len() as int) + 1) * ch + 2 * PAD <= usize::MAX,
        ensures
            g == overlay_geo(self.results_spec().len() as int, w as int, h as int, cw as int, ch as int),
    {
        let fit = (w / cw).saturating_sub(4);
        let c = if fit < MAX_COLS { fit } else { MAX_COLS };
        let cols = if c < 10 { 10 } else { c };
        let n = self.results.len();
        let r = if n < VISIBLE_ROWS { n } else { VISIBLE_ROWS };
        let rows = if r < 1 { 1 } else { r };
        let pw = cols * cw + 2 * PAD;
        let ph = (rows + 1) * ch + 2 * PAD;
        let x = w.saturating_sub(pw) / 2;
        let y = h / 6;
        RecallGeo { rect: Rect::new(x, y, pw, ph), cols, rows, text_x: x + PAD, text_y: y + PAD }
    }

    /// The query line as shown: `> ` and the query, cut to `cols`.
    pub fn prompt(&self, cols: usize) -> (p: String)
        ensures
            p@ == truncated("> "@ + self.query_spec(), cols as nat),
    {
        let mut line = String::new();
        push_str(&mut line, "> ");
        push_str(&mut line, self.query.as_str());
        proof {
            reveal_strlit("> ");
        }
        truncate(line.as_str(), cols)
    }

    /// The result rows on screen, top to bottom: each command cut to `cols`,
    /// and whether it is the selected one. The window starts at the scroll
    /// position and shows up to `rows` results.
    pub fn shown(&self, rows: usize, cols: usize) -> (v: Vec<(String, bool)>)
        requires
            self.wf(),
        ensures
            v@.len() == (if rows < sat_sub(self.results_spec().len() as int, self.scroll_spec()) {
                rows as int
            } else {
                sat_sub(self.results_spec().len() as int, self.scroll_spec())
            }),
            forall|k: int|
                0 <= k < v@.len() ==> {
                    let r = self.scroll_spec() + k;
                    &&& (#[trigger] v@[k]).0@ == truncated(
                        self.all_spec()[self.results_spec()[r] as int].command@,
                        cols as nat,
                    )
                    &&& v@[k].1 == (r == self.selected_spec())
                },
    {
        proof {
            lemma_matching_in_range(self.all@, lowercase(self.query@), self.all@.len() as int);
        }
        let avail = self.results.len().saturating_sub(self.scroll);
        assert(avail == sat_sub(self.results@.len() as int, self.scroll as int));
        let n = if rows < avail { rows } else { avail };
        let mut v: Vec<(String, bool)> = Vec::new();
        let mut k: usize = 0;
        while k < n
            invariant
                self.wf(),
                n == (if rows < avail { rows } else { avail }),
                avail == sat_sub(self.results@.len() as int, self.scroll as int),
                k <= n,
                v@.len() == k,
                forall|i: int| 0 <= i < self.results@.len() ==> #[trigger] self.results@[i] < self.all@.len(),
                forall|j: int|
                    0 <= j < k ==> {
                        let r = self.scroll + j;
                        &&& (#[trigger] v@[j]).0@ == truncated(self.all@[self.results@[r] as int].command@, cols as nat)
                        &&& v@[j].1 == (r == self.selected)
                    },
            decreases n - k,
        {
            let len = self.results.len();
            assert(self.scroll + k < len);
            let ridx = self.scroll + k;
            let line = truncate(self.all[self.results[ridx]].command.as_str(), cols);
            v.push((line, ridx == self.selected));
            k += 1;
        }
        v
    }

    /// The listed history, most recent first.
    pub fn entries(&self) -> (e: &Vec<Block>)
        ensures
            e@ == self.all_spec(),
    {
        &self.all
    }

    /// Indices into `entries` of the blocks matching the query.
    pub fn results(&self) -> (r: &Vec<usize>)
        ensures
            r@ == self.results_spec(),
    {
        &self.results
    }

    /// Position of the selection among the results.
    pub fn selected(&self) -> (s: usize)
        ensures
            s == self.selected_spec(),
    {
        self.selected
    }

    /// Index of the first visible result row.
    pub fn scroll(&self) -> (s: usize)
        ensures
            s == self.scroll_spec(),
    {
        self.scroll
    }

    pub fn query(&self) -> (q: &str)
        ensures
            q@ == self.query_spec(),
    {
        self.query.as_str()
    }
}

proof fn lemma_matching_in_range(all: Seq<Block>, q: Seq<char>, n: int)
    requires
        0 <= n <= all.len(),
    ensures
        forall|i: int| 0 <= i < matching(all, q, n).len() ==> #[trigger] matching(all, q, n)[i] < n,
    decreases n,
{
    if n > 0 {
        lemma_matching_in_range(all, q, n - 1);
        let p = matching(all, q, n - 1);
        assert forall|i: int| 0 <= i < matching(all, q, n).len() implies #[trigger] matching(
            all,
            q,
            n,
        )[i] < n by {
            if i < p.len() {
                assert(matching(all, q, n)[i] == p[i]);
            }
        }
    }
}

/// The recall list names every command of the history exactly once, and the
/// block it lists for a command is that command's first block in the given
/// (most-recent-first) order.
pub proof fn law_recall_lists_each_command_once(s: Seq<Block>)
    ensures
        forall|i: int, j: int|
            0 <= i < j < dedup_by_command(s).len() ==> #[trigger] dedup_by_command(s)[i].command@
                != #[trigger] dedup_by_command(s)[j].command@,
        forall|c: Seq<char>| #[trigger] has_command(dedup_by_command(s), c) <==> has_command(s, c),
        forall|i: int|
            0 <= i < dedup_by_command(s).len() ==> exists|k: int|
                0 <= k < s.len() && s[k] == #[trigger] dedup_by_command(s)[i] && !has_command(
                    s.take(k),
                    s[k].command@,
                ),
    decreases s.len(),
{
    if s.len() > 0 {
        let pre = s.drop_last();
        law_recall_lists_each_command_once(pre);
        let p = dedup_by_command(pre);
        let d = dedup_by_command(s);
        assert forall|c: Seq<char>| #[trigger] has_command(d, c) <==> has_command(s, c) by {
            if has_command(s, c) {
                let w = choose|w: int| 0 <= w < s.len() && #[trigger] s[w].command@ == c;
                if w < s.len() - 1 {
                    assert(pre[w].command@ == c);
                    assert(has_command(pre, c));
                    assert(has_command(p, c));
                    let v = choose|v: int| 0 <= v < p.len() && #[trigger] p[v].command@ == c;
                    assert(d[v].command@ == c);
                } else if !has_command(pre, c) {
                    assert(d[d.len() - 1].command@ == c);
                } else {
                    assert(has_command(p, c));
                    let v = choose|v: int| 0 <= v < p.len() && #[trigger] p[v].command@ == c;
                    assert(d[v].command@ == c);
                }
            }
            if has_command(d, c) {
                let w = choose|w: int| 0 <= w < d.len() && #[trigger] d[w].command@ == c;
                if w < p.len() {
                    assert(p[w].command@ == c);
                    assert(has_command(p, c));
                    assert(has_command(pre, c));
                    let v = choose|v: int| 0 <= v < pre.len() && #[trigger] pre[v].command@ == c;
                    assert(s[v].command@ == c);
                } else {
                    assert(s[s.len() - 1].command@ == c);
                }
            }
        }
        assert forall|i: int|
            0 <= i < d.len() implies exists|k: int|
                0 <= k < s.len() && s[k] == #[trigger] d[i] && !has_command(s.take(k), s[k].command@) by {
            if i < p.len() {
                let k = choose|k: int|
                    0 <= k < pre.len() && pre[k] == #[trigger] p[i] && !has_command(pre.take(k), pre[k].command@);
                assert(pre.take(k) =~= s.take(k));
                assert(s[k] == d[i]);
            } else {
                let k = s.len() - 1;
                assert(s.take(k) =~= pre);
                assert(s[k] == d[i]);
            }
        }
    }
}

/// Typing a char into the query and deleting it again gives back the query
/// and the results as they were.
pub proof fn law_backspace_undoes_typing(r0: Recall, r1: Recall, r2: Recall, c: char)
    requires
        r0.wf(),
        r1.wf(),
        r2.wf(),
        r1.all_spec() == r0.all_spec(),
        r1.query_spec() == r0.query_spec().push(c),
        r2.all_spec() == r1.all_spec(),
        r2.query_spec() == (if r1.query_spec().len() == 0 {
            r1.query_spec()
        } else {
            r1.query_spec().drop_last()
        }),
    ensures
        r2.query_spec() == r0.query_spec(),
        r2.results_spec() == r0.results_spec(),
{
    assert(r0.query_spec().push(c).drop_last() =~= r0.query_spec());
}

/// `s` cut to at most `max` chars, an ellipsis marking a cut.
pub open spec fn truncated(s: Seq<char>, max: nat) -> Seq<char> {
    if s.len() <= max {
        s
    } else {
        s.take(if max >= 1 { max - 1 } else { 0 }) + seq!['…']
    }
}

/// `s` cut to at most `max` chars, ending in `…` when something was cut.
pub fn truncate(s: &str, max: usize) -> (r: String)
    ensures
        r@ == truncated(s@, max as nat),
{
    let v = chars_of(s);
    if v.len() <= max {
        return s.to_owned();
    }
    let keep = if max >= 1 { max - 1 } else { 0 };
    let mut out = String::new();
    push_chars(&mut out, v.as_slice(), 0, keep);
    out.push('…');
    out
}

/// The results of a query are exactly the blocks whose command matches it
/// (every block for an empty query), listed once each in the order the
/// history holds them.
pub proof fn law_results_filter_in_order(all: Seq<Block>, q: Seq<char>, n: int)
    requires
        0 <= n <= all.len(),
        n <= usize::MAX + 1,
    ensures
        forall|k: int|
            0 <= k < matching(all, q, n).len() ==> {
                let i = #[trigger] matching(all, q, n)[k];
                i < n && block_matches(all[i as int], q)
            },
        forall|j: int, k: int|
            0 <= j < k < matching(all, q, n).len() ==> #[trigger] matching(all, q, n)[j] < #[trigger] matching(
                all,
                q,
                n,
            )[k],
        forall|i: int|
            0 <= i < n && #[trigger] block_matches(all[i], q) ==> exists|k: int|
                0 <= k < matching(all, q, n).len() && #[trigger] matching(all, q, n)[k] == i,
        q.len() == 0 ==> matching(all, q, n).len() == n,
    decreases n,
{
    if n > 0 {
        law_results_filter_in_order(all, q, n - 1);
        let prev = matching(all, q, n - 1);
        if block_matches(all[n - 1], q) {
            let m = matching(all, q, n);
            assert(m == prev.push((n - 1) as usize));
            assert forall|i: int| 0 <= i < n && #[trigger] block_matches(all[i], q) implies exists|k: int|
                0 <= k < m.len() && #[trigger] m[k] == i by {
                if i == n - 1 {
                    assert(m[prev.len() as int] == i);
                } else {
                    let k = choose|k: int| 0 <= k < prev.len() && #[trigger] prev[k] == i;
                    assert(m[k] == prev[k]);
                }
            }
        } else {
            assert(matching(all, q, n) == prev);
        }
    }
}

/// The overlay is as wide as the window allows less four cells, but no
/// narrower than 10 columns nor wider than `MAX_COLS`; it shows one row per
/// result up to `VISIBLE_ROWS`, and at least one; and its box is centred
/// across the window (when it fits) a sixth of the way down.
pub proof fn law_overlay_fits_and_centres(n: int, w: int, h: int, cw: int, ch: int)
    requires
        cw > 0,
        w >= 0,
        h >= 0,
        ch >= 0,
        n >= 0,
    ensures
        ({
            let cols = overlay_cols(w, cw);
            let rows = overlay_rows(n);
            let pw = cols * cw + 2 * PAD;
            let x = sat_sub(w, pw) / 2;
            &&& 10 <= cols <= MAX_COLS
            &&& (10 <= w / cw - 4 <= MAX_COLS ==> cols == w / cw - 4)
            &&& 1 <= rows <= VISIBLE_ROWS
            &&& (1 <= n <= VISIBLE_ROWS ==> rows == n)
            &&& (pw <= w ==> 0 <= w - pw - 2 * x <= 1)
            &&& overlay_geo(n, w, h, cw, ch).rect.y == (h / 6) as usize
        }),
{
}

} // verus!
