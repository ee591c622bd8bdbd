//! Scrollback text search: an incremental `/` search over a terminal's history
//! and live screen. Matching is case-insensitive: the query and each line are
//! lowercased, and a match's column and length count chars of the lowercased
//! line (the same as the screen's for ASCII text).
//!
//! The window feeds the line list (`Grid::all_lines_text`) and routes keys;
//! the renderer paints the highlights.

use vstd::prelude::*;
use crate::text::{chars_of, lowercase, push_chars, starts_with_at};

verus! {

/// One match: an absolute line index (see `Grid::all_lines_text`), the starting
/// column, and the match length in chars.
#[derive(Clone, Copy, Debug, PartialEq, Eq, Structural)]
pub struct Match {
    pub line: usize,
    pub col: usize,
    pub len: usize,
}

/// The starting columns of the non-overlapping occurrences of `q` in `hay`,
/// scanning left to right from column `from`.
pub open spec fn occ_from(hay: Seq<char>, q: Seq<char>, from: int) -> Seq<int>
    decreases hay.len() - from,
{
    if q.len() == 0 || from < 0 || from + q.len() > hay.len() {
        Seq::empty()
    } else if hay.subrange(from, from + q.len()) == q {
        seq![from] + occ_from(hay, q, from + q.len())
    } else {
        occ_from(hay, q, from + 1)
    }
}

/// Matches on line `line` at the given columns, each `len` chars long.
pub open spec fn to_matches(cols: Seq<int>, line: int, len: int) -> Seq<Match> {
    Seq::new(cols.len(), |i: int| Match { line: line as usize, col: cols[i] as usize, len: len as usize })
}

/// All matches of the (lowercased) query `q` in the first `n` lines.
pub open spec fn all_matches(lines: Seq<Seq<char>>, q: Seq<char>, n: int) -> Seq<Match>
    decreases n,
{
    if n <= 0 {
        Seq::empty()
    } else {
        all_matches(lines, q, n - 1) + to_matches(
            occ_from(lowercase(lines[n - 1]), q, 0),
            n - 1,
            q.len() as int,
        )
    }
}

/// The index of the first match at or after position `i` whose line is at
/// least `a`; 0 when there is none.
pub open spec fn first_on_or_after(ms: Seq<Match>, a: int, i: int) -> int
    decreases ms.len() - i,
{
    if i < 0 || i >= ms.len() {
        0
    } else if ms[i].line >= a {
        i
    } else {
        first_on_or_after(ms, a, i + 1)
    }
}

/// Whether match `m` covers the cell at (`line`, `col`).
pub open spec fn covers(m: Match, line: int, col: int) -> bool {
    m.line == line && m.col <= col < m.col + m.len
}

/// The index of the first match from position `i` on that covers the cell.
pub open spec fn first_cover(ms: Seq<Match>, line: int, col: int, i: int) -> Option<int>
    decreases ms.len() - i,
{
    if i < 0 || i >= ms.len() {
        None
    } else if covers(ms[i], line, col) {
        Some(i)
    } else {
        first_cover(ms, line, col, i + 1)
    }
}

/// The texts of a list of lines.
pub open spec fn texts(lines: Seq<String>) -> Seq<Seq<char>> {
    lines.map_values(|s: String| s@)
}

/// The starting columns of the non-overlapping occurrences of `q` in `hay`,
/// left to right; none for an empty `q`.
pub fn occurrences(hay: &[char], q: &[char]) -> (cols: Vec<usize>)
    ensures
        cols@.len() == occ_from(hay@, q@, 0).len(),
        forall|j: int| 0 <= j < cols@.len() ==> #[trigger] cols@[j] as int == occ_from(hay@, q@, 0)[j],
{
    let mut cols: Vec<usize> = Vec::new();
    let qlen = q.len();
    if qlen == 0 {
        return cols;
    }
    let mut from: usize = 0;
    while from <= hay.len() && qlen <= hay.len() - from
        invariant
            qlen == q@.len() > 0,
            from <= hay@.len() + 1,
            cols@.map_values(|c: usize| c as int) + occ_from(hay@, q@, from as int) == occ_from(hay@, q@, 0),
        decreases hay.len() + 1 - from,
    {
        assert(hay@.subrange(from as int, hay@.len() as int).subrange(0, qlen as int) =~= hay@.subrange(
            from as int,
            from + qlen,
        ));
        if starts_with_at(hay, from, q) {
            let ghost rest = occ_from(hay@, q@, from + qlen);
            assert(cols@.push(from).map_values(|c: usize| c as int) =~= cols@.map_values(|c: usize| c as int).push(
                from as int,
            ));
            assert(cols@.map_values(|c: usize| c as int).push(from as int) + rest =~= cols@.map_values(
                |c: usize| c as int,
            ) + (seq![from as int] + rest));
            cols.push(from);
            from += qlen;
        } else {
            from += 1;
        }
    }
    assert(occ_from(hay@, q@, from as int) =~= Seq::<int>::empty());
    assert(cols@.map_values(|c: usize| c as int) + Seq::<int>::empty() =~= cols@.map_values(|c: usize| c as int));
    proof {
        let m = cols@.map_values(|c: usize| c as int);
        assert forall|j: int| 0 <= j < cols@.len() implies #[trigger] cols@[j] as int == occ_from(hay@, q@, 0)[j] by {
            assert(m[j] == cols@[j] as int);
        }
    }
    cols
}

pub struct Search {
    query: String,
    matches: Vec<Match>,
    /// Index into `matches` of the "current" (brightly highlighted) one.
    current: usize,
}

impl Search {
    pub closed spec fn query_spec(self) -> Seq<char> {
        self.query@
    }

    pub closed spec fn matches_spec(self) -> Seq<Match> {
        self.matches@
    }

    pub closed spec fn current_spec(self) -> int {
        self.current as int
    }

    /// The current index points at a match whenever there is one, and the
    /// matches can be counted in a `usize`.
    pub open spec fn wf(self) -> bool {
        &&& self.matches_spec().len() <= usize::MAX
        &&& (self.matches_spec().len() == 0 || 0 <= self.current_spec() < self.matches_spec().len())
    }

    /// The current match, if any.
    pub open spec fn current_match_spec(self) -> Option<Match> {
        if 0 <= self.current_spec() < self.matches_spec().len() {
            Some(self.matches_spec()[self.current_spec()])
        } else {
            None
        }
    }

    /// The matches of `query` over `lines`: none for an empty query.
    pub open spec fn matches_for(query: Seq<char>, lines: Seq<Seq<char>>) -> Seq<Match> {
        if query.len() == 0 {
            Seq::empty()
        } else {
            all_matches(lines, lowercase(query), lines.len() as int)
        }
    }

    /// After recomputing the matches, the current one is the first on or after
    /// the line of the previous current match (else the first).
    pub open spec fn refiltered(self, before: Option<Match>, query: Seq<char>, lines: Seq<Seq<char>>) -> bool {
        &&& self.wf()
        &&& self.query_spec() == query
        &&& self.matches_spec() == Self::matches_for(query, lines)
        &&& self.current_spec() == match before {
            Some(m) => first_on_or_after(self.matches_spec(), m.line as int, 0),
            None => 0,
        }
    }

    pub fn new() -> (s: Self)
        ensures
            s.wf(),
            s.query_spec() == Seq::<char>::empty(),
            s.matches_spec() == Seq::<Match>::empty(),
            s.current_spec() == 0,
    {
        Search { query: String::new(), matches: Vec::new(), current: 0 }
    }

    pub fn query(&self) -> (q: &str)
        ensures
            q@ == self.query_spec(),
    {
        self.query.as_str()
    }

    /// (current 1-based, total) — for the `/foo (2/7)` status line; `(0, 0)`
    /// when there are no matches.
    pub fn counts(&self) -> (c: (usize, usize))
        requires
            self.wf(),
        ensures
            c == (if self.matches_spec().len() == 0 {
                (0usize, 0usize)
            } else {
                ((self.current_spec() + 1) as usize, self.matches_spec().len() as usize)
            }),
    {
        if self.matches.len() == 0 {
            (0, 0)
        } else {
            (self.current + 1, self.matches.len())
        }
    }

    /// Type a char into the query and re-run the search over `lines`.
    pub fn on_char(&mut self, c: char, lines: &[String])
        requires
            old(self).wf(),
        ensures
            final(self).refiltered(
                old(self).current_match_spec(),
                old(self).query_spec().push(c),
                texts(lines@),
            ),
    {
        let ghost before = self.current_match_spec();
        self.query.push(c);
        assert(self.current_match_spec() == before);
        self.refilter(lines);
    }

    /// Delete the last char of the query and re-run the search over `lines`.
    pub fn on_backspace(&mut self, lines: &[String])
        requires
            old(self).wf(),
        ensures
            final(self).refiltered(
                old(self).current_match_spec(),
                if old(self).query_spec().len() == 0 {
                    old(self).query_spec()
                } else {
                    old(self).query_spec().drop_last()
                },
                texts(lines@),
            ),
    {
        let ghost before = self.current_match_spec();
        let v = chars_of(self.query.as_str());
        if v.len() > 0 {
            let mut q = String::new();
            push_chars(&mut q, v.as_slice(), 0, v.len() - 1);
            assert(v@.subrange(0, v@.len() - 1) =~= v@.drop_last());
            self.query = q;
        }
        assert(self.current_match_spec() == before);
        self.refilter(lines);
    }

    /// Recompute all matches for the current query, keeping the current
    /// selection on the nearest still-valid match.
    fn refilter(&mut self, lines: &[String])
        requires
            old(self).wf(),
        ensures
            final(self).refiltered(old(self).current_match_spec(), old(self).query_spec(), texts(lines@)),
    {
        let anchor = self.current_match();
        let ghost lv = texts(lines@);
        let q = self.query.as_str().to_lowercase();
        let qv = chars_of(q.as_str());
        let mut matches: Vec<Match> = Vec::new();
        if qv.len() > 0 {
            let mut idx: usize = 0;
            while idx < lines.len()
                invariant
                    idx <= lines@.len(),
                    lv == texts(lines@),
                    qv@ == lowercase(self.query@),
                    qv@.len() > 0,
                    matches@ == all_matches(lv, qv@, idx as int),
                decreases lines.len() - idx,
            {
                let hay = chars_of(lines[idx].as_str().to_lowercase().as_str());
                assert(hay@ == lowercase(lv[idx as int]));
                let ghost base = matches@;
                let cols = occurrences(hay.as_slice(), qv.as_slice());
                let qlen = qv.len();
                let mut k: usize = 0;
                while k < cols.len()
                    invariant
                        qlen == qv@.len(),
                        cols@.len() == occ_from(hay@, qv@, 0).len(),
                        forall|j: int| 0 <= j < cols@.len() ==> #[trigger] cols@[j] as int == occ_from(hay@, qv@, 0)[j],
                        k <= cols@.len(),
                        matches@ == base + to_matches(occ_from(hay@, qv@, 0).take(k as int), idx as int, qlen as int),
                    decreases cols.len() - k,
                {
                    matches.push(Match { line: idx, col: cols[k], len: qlen });
                    assert(to_matches(occ_from(hay@, qv@, 0).take(k + 1), idx as int, qlen as int) =~= to_matches(
                        occ_from(hay@, qv@, 0).take(k as int),
                        idx as int,
                        qlen as int,
                    ).push(Match { line: idx, col: cols[k as int], len: qlen }));
                    k += 1;
                }
                assert(occ_from(hay@, qv@, 0).take(k as int) =~= occ_from(hay@, qv@, 0));
                assert(matches@ =~= all_matches(lv, qv@, idx + 1));
                idx += 1;
            }
            assert(lv.len() == lines@.len());
        }
        let ghost ms = matches@;
        let cur: usize = match anchor {
            Some(a) => {
                let mut i: usize = 0;
                while i < matches.len() && matches[i].line < a.line
                    invariant
                        i <= matches@.len(),
                        matches@ == ms,
                        first_on_or_after(ms, a.line as int, 0) == first_on_or_after(
                            ms,
                            a.line as int,
                            i as int,
                        ),
                    decreases matches.len() - i,
                {
                    i += 1;
                }
                if i < matches.len() { i } else { 0 }
            },
            None => 0,
        };
        let n = matches.len();
        assert(matches@.len() == n);
        self.matches = matches;
        self.current = cur;
    }

    /// The current match, if any.
    pub fn current_match(&self) -> (m: Option<Match>)
        ensures
            m == self.current_match_spec(),
    {
        if self.current < self.matches.len() {
            Some(self.matches[self.current])
        } else {
            None
        }
    }

    /// Advance the selection by `delta` matches, wrapping around. Returns the new
    /// current match (so the caller can scroll it into view).
    pub fn step(&mut self, delta: isize) -> (m: Option<Match>)
        requires
            old(self).wf(),
        ensures
            final(self).wf(),
            final(self).query_spec() == old(self).query_spec(),
            final(self).matches_spec() == old(self).matches_spec(),
            old(self).matches_spec().len() == 0 ==> m is None && final(self).current_spec()
                == old(self).current_spec(),
            old(self).matches_spec().len() > 0 ==> final(self).current_spec() == (old(
                self,
            ).current_spec() + delta) % (old(self).matches_spec().len() as int),
            m == final(self).current_match_spec(),
    {
        if self.matches.len() == 0 {
            return None;
        }
        let n = self.matches.len();
        let x: i128 = self.current as i128 + delta as i128;
        let next: usize = if x >= 0 {
            let r = (x as u128) % (n as u128);
            r as usize
        } else {
            let y: u128 = (-x) as u128;
            let r = y % (n as u128);
            proof {
                let yi = y as int;
                let ni = n as int;
                let ri = r as int;
                vstd::arithmetic::div_mod::lemma_fundamental_div_mod(yi, ni);
                let qi = yi / ni;
                assert(-yi == (-qi) * ni - ri) by (nonlinear_arith)
                    requires
                        yi == ni * qi + ri,
                ;
                assert(-yi == (-qi - 1) * ni + (ni - ri)) by (nonlinear_arith)
                    requires
                        -yi == (-qi) * ni - ri,
                ;
                if ri == 0 {
                    vstd::arithmetic::div_mod::lemma_fundamental_div_mod_converse(
                        -yi,
                        ni,
                        -(yi / ni),
                        0,
                    );
                } else {
                    vstd::arithmetic::div_mod::lemma_fundamental_div_mod_converse(
                        -yi,
                        ni,
                        -(yi / ni) - 1,
                        ni - ri,
                    );
                }
            }
            if r == 0 {
                0
            } else {
                (n as u128 - r) as usize
            }
        };
        self.current = next;
        self.current_match()
    }

    /// Is the cell at (`line`, `col`) inside any match? Returns whether it is in
    /// a match at all and whether that match is the current one.
    pub fn hit(&self, line: usize, col: usize) -> (h: Option<bool>)
        ensures
            h == (match first_cover(self.matches_spec(), line as int, col as int, 0) {
                Some(i) => Some(self.current_match_spec() == Some(self.matches_spec()[i])),
                None => None::<bool>,
            }),
    {
        let cur = self.current_match();
        let mut i: usize = 0;
        while i < self.matches.len()
            invariant
                i <= self.matches@.len(),
                cur == self.current_match_spec(),
                first_cover(self.matches@, line as int, col as int, 0) == first_cover(
                    self.matches@,
                    line as int,
                    col as int,
                    i as int,
                ),
            decreases self.matches.len() - i,
        {
            let m = self.matches[i];
            if m.line == line && col >= m.col && col - m.col < m.len {
                let same = match cur {
                    Some(c) => c.line == m.line && c.col == m.col && c.len == m.len,
                    None => false,
                };
                return Some(same);
            }
            i += 1;
        }
        None
    }
}

/// Typing a char into the query and deleting it again (over the same lines)
/// gives back the query and its matches; and an empty query has no matches,
/// hence no current one.
pub proof fn law_backspace_undoes_typing(s0: Search, s1: Search, s2: Search, c: char, lines: Seq<Seq<char>>)
    requires
        s0.wf(),
        s0.matches_spec() == Search::matches_for(s0.query_spec(), lines),
        s1.refiltered(s0.current_match_spec(), s0.query_spec().push(c), lines),
        s2.refiltered(
            s1.current_match_spec(),
            if s1.query_spec().len() == 0 {
                s1.query_spec()
            } else {
                s1.query_spec().drop_last()
            },
            lines,
        ),
    ensures
        s2.query_spec() == s0.query_spec(),
        s2.matches_spec() == s0.matches_spec(),
        s0.query_spec().len() == 0 ==> s2.matches_spec().len() == 0 && s2.current_match_spec() is None,
{
    assert(s0.query_spec().push(c).drop_last() =~= s0.query_spec());
}

/// Stepping the current match by `delta` and then by `-delta` comes back to
/// where it was: the cycle through matches wraps the same way both ways.
pub proof fn law_step_round_trip(current: int, delta: int, n: int)
    requires
        0 <= current < n,
    ensures
        ((current + delta) % n - delta) % n == current,
{
    let x = current + delta;
    vstd::arithmetic::div_mod::lemma_fundamental_div_mod(x, n);
    let q = x / n;
    let r = x % n;
    assert(r - delta == (-q) * n + current) by (nonlinear_arith)
        requires
            x == n * q + r,
            x == current + delta,
    ;
    vstd::arithmetic::div_mod::lemma_fundamental_div_mod_converse(r - delta, n, -q, current);
}

/// The occurrences the search reports on a line are the leftmost
/// non-overlapping ones: each reported column starts a copy of the query,
/// each report starts at or after the end of the one before, and every copy
/// of the query on the line is covered by a reported one that starts at or
/// before it. An empty query finds nothing.
pub proof fn law_occurrences_leftmost_apart(hay: Seq<char>, q: Seq<char>, from: int)
    requires
        0 <= from,
    ensures
        q.len() == 0 ==> occ_from(hay, q, from).len() == 0,
        forall|i: int|
            0 <= i < occ_from(hay, q, from).len() ==> {
                let p = #[trigger] occ_from(hay, q, from)[i];
                &&& from <= p && p + q.len() <= hay.len()
                &&& hay.subrange(p, p + q.len()) == q
            },
        forall|i: int, j: int|
            0 <= i < j < occ_from(hay, q, from).len() ==> #[trigger] occ_from(hay, q, from)[i] + q.len()
                <= #[trigger] occ_from(hay, q, from)[j],
        forall|p: int|
            from <= p && p + q.len() <= hay.len() && q.len() > 0 && #[trigger] hay.subrange(p, p + q.len())
                == q ==> exists|k: int|
                0 <= k < occ_from(hay, q, from).len() && #[trigger] occ_from(hay, q, from)[k] <= p
                    < occ_from(hay, q, from)[k] + q.len(),
    decreases hay.len() - from,
{
    let occ = occ_from(hay, q, from);
    if q.len() == 0 || from + q.len() > hay.len() {
    } else if hay.subrange(from, from + q.len()) == q {
        let rest = occ_from(hay, q, from + q.len());
        law_occurrences_leftmost_apart(hay, q, from + q.len());
        assert(occ == seq![from] + rest);
        assert forall|i: int| 0 <= i < occ.len() implies {
            let p = #[trigger] occ[i];
            &&& from <= p && p + q.len() <= hay.len()
            &&& hay.subrange(p, p + q.len()) == q
        } by {
            if i > 0 {
                assert(occ[i] == rest[i - 1]);
            }
        }
        assert forall|i: int, j: int| 0 <= i < j < occ.len() implies #[trigger] occ[i] + q.len()
            <= #[trigger] occ[j] by {
            assert(occ[j] == rest[j - 1]);
            if i > 0 {
                assert(occ[i] == rest[i - 1]);
            }
        }
        assert forall|p: int|
            from <= p && p + q.len() <= hay.len() && q.len() > 0 && #[trigger] hay.subrange(p, p + q.len())
                == q implies exists|k: int|
            0 <= k < occ.len() && #[trigger] occ[k] <= p < occ[k] + q.len() by {
            if p < from + q.len() {
                assert(occ[0] == from);
            } else {
                let k = choose|k: int| 0 <= k < rest.len() && #[trigger] rest[k] <= p < rest[k] + q.len();
                assert(occ[k + 1] == rest[k]);
            }
        }
    } else {
        let rest = occ_from(hay, q, from + 1);
        law_occurrences_leftmost_apart(hay, q, from + 1);
        assert(occ == rest);
        assert forall|p: int|
            from <= p && p + q.len() <= hay.len() && q.len() > 0 && #[trigger] hay.subrange(p, p + q.len())
                == q implies exists|k: int|
            0 <= k < occ.len() && #[trigger] occ[k] <= p < occ[k] + q.len() by {
            if p == from {
                assert(false);
            }
        }
    }
}

/// A cell is reported as hit exactly when some match covers it, and the
/// match reported is the first one in the list that does.
pub proof fn law_hit_finds_first_cover(ms: Seq<Match>, line: int, col: int, i: int)
    requires
        0 <= i,
    ensures
        (first_cover(ms, line, col, i) is Some) == (exists|k: int| i <= k < ms.len() && #[trigger] covers(ms[k], line, col)),
        first_cover(ms, line, col, i) matches Some(k) ==> i <= k < ms.len() && covers(ms[k], line, col)
            && forall|j: int| i <= j < k ==> !#[trigger] covers(ms[j], line, col),
    decreases ms.len() - i,
{
    if i < ms.len() && !covers(ms[i], line, col) {
        law_hit_finds_first_cover(ms, line, col, i + 1);
    }
}

/// When the query changes, the current match moves to the first match on or
/// after the line the old current match was on, or to the first match when
/// none lies that far down.
pub proof fn law_reanchor_first_on_or_after(ms: Seq<Match>, a: int, i: int)
    requires
        0 <= i,
    ensures
        ({
            let r = first_on_or_after(ms, a, i);
            &&& (exists|k: int| i <= k < ms.len() && #[trigger] ms[k].line >= a) ==> {
                &&& i <= r < ms.len() && ms[r].line >= a
                &&& forall|j: int| i <= j < r ==> #[trigger] ms[j].line < a
            }
            &&& (forall|k: int| i <= k < ms.len() ==> #[trigger] ms[k].line < a) ==> r == 0
        }),
    decreases ms.len() - i,
{
    if i < ms.len() && ms[i].line < a {
        law_reanchor_first_on_or_after(ms, a, i + 1);
    }
}

/// The search's matches over the first `n` lines are every leftmost
/// non-overlapping copy of the (case-folded) query in the case-folded lines,
/// in reading order: each match lies on one of those lines, is as long as
/// the query and starts a copy of it; a later match lies on a later line or
/// further right on the same line without overlapping; and every copy of the
/// query on those lines is covered by a match starting at or before it.
pub proof fn law_matches_in_reading_order(lines: Seq<Seq<char>>, q: Seq<char>, n: int)
    requires
        0 <= n <= lines.len(),
        n <= usize::MAX,
        q.len() > 0,
        forall|l: int| 0 <= l < lines.len() ==> #[trigger] lowercase(lines[l]).len() <= usize::MAX,
    ensures
        forall|k: int|
            0 <= k < all_matches(lines, q, n).len() ==> {
                let m = #[trigger] all_matches(lines, q, n)[k];
                let hay = lowercase(lines[m.line as int]);
                &&& m.line < n && m.len == q.len()
                &&& m.col + q.len() <= hay.len()
                &&& hay.subrange(m.col as int, m.col + q.len()) == q
            },
        forall|j: int, k: int|
            0 <= j < k < all_matches(lines, q, n).len() ==> {
                let a = #[trigger] all_matches(lines, q, n)[j];
                let b = #[trigger] all_matches(lines, q, n)[k];
                a.line < b.line || (a.line == b.line && a.col + q.len() <= b.col)
            },
        forall|l: int, p: int|
            0 <= l < n && 0 <= p && p + q.len() <= lowercase(lines[l]).len() && #[trigger] lowercase(
                lines[l],
            ).subrange(p, p + q.len()) == q ==> exists|k: int|
                0 <= k < all_matches(lines, q, n).len() && #[trigger] all_matches(lines, q, n)[k].line == l
                    && all_matches(lines, q, n)[k].col <= p < all_matches(lines, q, n)[k].col + q.len(),
    decreases n,
{
    if n > 0 {
        law_matches_in_reading_order(lines, q, n - 1);
        let prev = all_matches(lines, q, n - 1);
        let hay = lowercase(lines[n - 1]);
        let occ = occ_from(hay, q, 0);
        let here = to_matches(occ, n - 1, q.len() as int);
        law_occurrences_leftmost_apart(hay, q, 0);
        let all = all_matches(lines, q, n);
        assert(all == prev + here);
        assert forall|k: int| 0 <= k < all.len() implies {
            let m = #[trigger] all[k];
            let h = lowercase(lines[m.line as int]);
            &&& m.line < n && m.len == q.len()
            &&& m.col + q.len() <= h.len()
            &&& h.subrange(m.col as int, m.col + q.len()) == q
        } by {
            if k >= prev.len() {
                let i = k - prev.len();
                assert(all[k] == here[i]);
                assert(occ[i] + q.len() <= hay.len());
            } else {
                assert(all[k] == prev[k]);
            }
        }
        assert forall|j: int, k: int| 0 <= j < k < all.len() implies {
            let a = #[trigger] all[j];
            let b = #[trigger] all[k];
            a.line < b.line || (a.line == b.line && a.col + q.len() <= b.col)
        } by {
            if k >= prev.len() {
                let kk = k - prev.len();
                assert(all[k] == here[kk]);
                assert(occ[kk] + q.len() <= hay.len());
                if j >= prev.len() {
                    let jj = j - prev.len();
                    assert(all[j] == here[jj]);
                    assert(occ[jj] + q.len() <= occ[kk]);
                } else {
                    assert(all[j] == prev[j]);
                }
            } else {
                assert(all[k] == prev[k]);
                assert(all[j] == prev[j]);
            }
        }
        assert forall|l: int, p: int|
            0 <= l < n && 0 <= p && p + q.len() <= lowercase(lines[l]).len() && #[trigger] lowercase(
                lines[l],
            ).subrange(p, p + q.len()) == q implies exists|k: int|
            0 <= k < all.len() && #[trigger] all[k].line == l && all[k].col <= p < all[k].col + q.len() by {
            if l < n - 1 {
                let k = choose|k: int|
                    0 <= k < prev.len() && #[trigger] prev[k].line == l && prev[k].col <= p < prev[k].col
                        + q.len();
                assert(all[k] == prev[k]);
            } else {
                let i = choose|i: int| 0 <= i < occ.len() && #[trigger] occ[i] <= p < occ[i] + q.len();
                assert(occ[i] + q.len() <= hay.len());
                assert(all[prev.len() + i] == here[i]);
            }
        }
    }
}

} // verus!
