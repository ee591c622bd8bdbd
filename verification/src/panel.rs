//! A modal text panel — for longer content like AI answers. Word-wraps the
//! body, scrolls, supports mouse text selection (mark + copy), an optional
//! interactive input line for chat, and a table mode (header band over aligned
//! rows). The window draws it from the geometry computed here.

use vstd::prelude::*;
use crate::pane::Rect;
use crate::text::{chars_of, push_chars, push_str, string_of, trim_seq, trim_string};

verus! {

/// The widest a panel gets, in columns.
pub const MAX_COLS: usize = 76;
/// The most body rows a panel shows at once.
pub const MAX_ROWS: usize = 22;
/// Padding inside the panel border, in pixels.
pub const PAD: usize = 10;
/// Spaces between table columns.
pub const SEP: usize = 2;
/// The narrowest a table column is shrunk to.
pub const MINW: usize = 3;

/// The key hints under a read-only panel.
pub const FOOTER_HINT: &'static str = "drag to select · Ctrl-Shift-C copy · ↑/↓ scroll · Esc close";

// --- word wrap ---------------------------------------------------------------

/// Move the part of `line` beyond `cols` chars onto new lines, `cols` at a time.
pub open spec fn hard_split(out: Seq<Seq<char>>, line: Seq<char>, cols: nat) -> (Seq<Seq<char>>, Seq<char>)
    decreases line.len(),
{
    if cols >= 1 && line.len() > cols {
        hard_split(out.push(line.take(cols as int)), line.skip(cols as int), cols)
    } else {
        (out, line)
    }
}

/// Place one word after the current line: joined with a space when it fits,
/// else starting a new line; an overlong result is hard-split.
pub open spec fn place_word(out: Seq<Seq<char>>, line: Seq<char>, word: Seq<char>, cols: nat) -> (
    Seq<Seq<char>>,
    Seq<char>,
) {
    if line.len() == 0 {
        hard_split(out, word, cols)
    } else if line.len() + 1 + word.len() <= cols {
        hard_split(out, line.push(' ') + word, cols)
    } else {
        hard_split(out.push(line), word, cols)
    }
}

/// The wrapping state after some chars of the body: finished lines, the line
/// being filled, and the word being read.
pub struct WrapState {
    pub out: Seq<Seq<char>>,
    pub line: Seq<char>,
    pub word: Seq<char>,
}

/// Take one char of the body: a space ends a word, a newline ends a word and
/// the line, anything else extends the word.
pub open spec fn wrap_step(st: WrapState, c: char, cols: nat) -> WrapState {
    if c == ' ' {
        let (o, l) = place_word(st.out, st.line, st.word, cols);
        WrapState { out: o, line: l, word: Seq::empty() }
    } else if c == '\n' {
        let (o, l) = place_word(st.out, st.line, st.word, cols);
        WrapState { out: o.push(l), line: Seq::empty(), word: Seq::empty() }
    } else {
        WrapState { out: st.out, line: st.line, word: st.word.push(c) }
    }
}

pub open spec fn wrap_fold(s: Seq<char>, cols: nat) -> WrapState
    decreases s.len(),
{
    if s.len() == 0 {
        WrapState { out: Seq::empty(), line: Seq::empty(), word: Seq::empty() }
    } else {
        wrap_step(wrap_fold(s.drop_last(), cols), s.last(), cols)
    }
}

/// Greedy word-wrap of `s` to `cols` columns: newlines kept, words separated
/// by single spaces moved whole to the next line when they do not fit, and
/// overlong words hard-split.
pub open spec fn wrap_spec(s: Seq<char>, cols: nat) -> Seq<Seq<char>> {
    let st = wrap_fold(s, cols);
    let (o, l) = place_word(st.out, st.line, st.word, cols);
    o.push(l)
}

/// The texts of a list of strings.
pub open spec fn texts(v: Seq<String>) -> Seq<Seq<char>> {
    v.map_values(|s: String| s@)
}

/// Append `line[from..]` to `out` in pieces of `cols` chars, the last piece
/// (at most `cols` chars) left as the current line.
fn hard_split_exec(out: &mut Vec<String>, line: Vec<char>, cols: usize) -> (rest: Vec<char>)
    requires
        cols >= 1,
    ensures
        (texts(final(out)@), rest@) == hard_split(texts(old(out)@), line@, cols as nat),
    decreases line@.len(),
{
    if line.len() > cols {
        let mut head = String::new();
        push_chars(&mut head, line.as_slice(), 0, cols);
        let mut tail: Vec<char> = Vec::new();
        let mut i = cols;
        while i < line.len()
            invariant
                cols <= i <= line@.len(),
                tail@ == line@.subrange(cols as int, i as int),
            decreases line.len() - i,
        {
            tail.push(line[i]);
            i += 1;
        }
        assert(head@ =~= line@.take(cols as int));
        assert(tail@ =~= line@.skip(cols as int));
        let ghost before = texts(out@);
        out.push(head);
        assert(texts(out@) =~= before.push(line@.take(cols as int)));
        hard_split_exec(out, tail, cols)
    } else {
        line
    }
}

/// Place `word` after `line` (see `place_word`).
fn place_word_exec(out: &mut Vec<String>, line: Vec<char>, word: &Vec<char>, cols: usize) -> (rest: Vec<char>)
    requires
        cols >= 1,
    ensures
        (texts(final(out)@), rest@) == place_word(texts(old(out)@), line@, word@, cols as nat),
{
    if line.len() == 0 {
        hard_split_exec(out, copy_chars(word), cols)
    } else if line.len() < cols && word.len() <= cols - line.len() - 1 {
        let mut joined = line;
        joined.push(' ');
        let ghost j = joined@;
        let mut i: usize = 0;
        while i < word.len()
            invariant
                i <= word@.len(),
                joined@ == j + word@.subrange(0, i as int),
            decreases word.len() - i,
        {
            joined.push(word[i]);
            i += 1;
        }
        assert(word@.subrange(0, word@.len() as int) =~= word@);
        hard_split_exec(out, joined, cols)
    } else {
        let ghost before = texts(out@);
        let ghost lv = line@;
        out.push(string_of(line.as_slice()));
        assert(texts(out@) =~= before.push(lv));
        hard_split_exec(out, copy_chars(word), cols)
    }
}

fn copy_chars(v: &Vec<char>) -> (r: Vec<char>)
    ensures
        r@ == v@,
{
    let mut r: Vec<char> = Vec::new();
    let mut i: usize = 0;
    while i < v.len()
        invariant
            i <= v@.len(),
            r@ == v@.subrange(0, i as int),
        decreases v.len() - i,
    {
        r.push(v[i]);
        i += 1;
    }
    assert(r@ =~= v@);
    r
}

/// Greedy word-wrap to `cols`, preserving newlines and hard-splitting overlong
/// words.
pub fn wrap(body: &str, cols: usize) -> (lines: Vec<String>)
    requires
        cols >= 1,
    ensures
        texts(lines@) == wrap_spec(body@, cols as nat),
{
    let s = chars_of(body);
    let mut out: Vec<String> = Vec::new();
    let mut line: Vec<char> = Vec::new();
    let mut word: Vec<char> = Vec::new();
    let mut i: usize = 0;
    assert(s@.subrange(0, 0) =~= Seq::<char>::empty());
    assert(texts(out@) =~= Seq::<Seq<char>>::empty());
    while i < s.len()
        invariant
            i <= s@.len(),
            cols >= 1,
            wrap_fold(s@.subrange(0, i as int), cols as nat) == (WrapState {
                out: texts(out@),
                line: line@,
                word: word@,
            }),
        decreases s.len() - i,
    {
        let c = s[i];
        assert(s@.subrange(0, i + 1).drop_last() =~= s@.subrange(0, i as int));
        if c == ' ' {
            line = place_word_exec(&mut out, line, &word, cols);
            word = Vec::new();
        } else if c == '\n' {
            let rest = place_word_exec(&mut out, line, &word, cols);
            let ghost before = texts(out@);
            let ghost rv = rest@;
            out.push(string_of(rest.as_slice()));
            assert(texts(out@) =~= before.push(rv));
            line = Vec::new();
            word = Vec::new();
        } else {
            word.push(c);
        }
        i += 1;
    }
    assert(s@.subrange(0, i as int) =~= s@);
    let rest = place_word_exec(&mut out, line, &word, cols);
    let ghost before = texts(out@);
    let ghost rv = rest@;
    out.push(string_of(rest.as_slice()));
    assert(texts(out@) =~= before.push(rv));
    out
}

/// Every line that greedy wrapping produces fits in `cols` columns.
pub proof fn law_wrap_fits(s: Seq<char>, cols: nat)
    requires
        cols >= 1,
    ensures
        forall|i: int| 0 <= i < wrap_spec(s, cols).len() ==> #[trigger] wrap_spec(s, cols)[i].len() <= cols,
{
    lemma_fold_fits(s, cols);
    let st = wrap_fold(s, cols);
    lemma_place_word_fits(st.out, st.line, st.word, cols);
}

/// All finished lines fit.
pub open spec fn all_fit(out: Seq<Seq<char>>, cols: nat) -> bool {
    forall|i: int| 0 <= i < out.len() ==> #[trigger] out[i].len() <= cols
}

proof fn lemma_hard_split_fits(out: Seq<Seq<char>>, line: Seq<char>, cols: nat)
    requires
        cols >= 1,
        all_fit(out, cols),
    ensures
        all_fit(hard_split(out, line, cols).0, cols),
        hard_split(out, line, cols).1.len() <= cols,
    decreases line.len(),
{
    if line.len() > cols {
        let o = out.push(line.take(cols as int));
        assert(all_fit(o, cols)) by {
            assert forall|i: int| 0 <= i < o.len() implies #[trigger] o[i].len() <= cols by {
                if i < out.len() {
                    assert(o[i] == out[i]);
                }
            }
        }
        lemma_hard_split_fits(o, line.skip(cols as int), cols);
    }
}

proof fn lemma_place_word_fits(out: Seq<Seq<char>>, line: Seq<char>, word: Seq<char>, cols: nat)
    requires
        cols >= 1,
        all_fit(out, cols),
        line.len() <= cols,
    ensures
        all_fit(place_word(out, line, word, cols).0, cols),
        place_word(out, line, word, cols).1.len() <= cols,
{
    if line.len() == 0 {
        lemma_hard_split_fits(out, word, cols);
    } else if line.len() + 1 + word.len() <= cols {
        lemma_hard_split_fits(out, line.push(' ') + word, cols);
    } else {
        let o = out.push(line);
        assert(all_fit(o, cols)) by {
            assert forall|i: int| 0 <= i < o.len() implies #[trigger] o[i].len() <= cols by {
                if i < out.len() {
                    assert(o[i] == out[i]);
                }
            }
        }
        lemma_hard_split_fits(o, word, cols);
    }
}

proof fn lemma_fold_fits(s: Seq<char>, cols: nat)
    requires
        cols >= 1,
    ensures
        all_fit(wrap_fold(s, cols).out, cols),
        wrap_fold(s, cols).line.len() <= cols,
    decreases s.len(),
{
    if s.len() > 0 {
        lemma_fold_fits(s.drop_last(), cols);
        let st = wrap_fold(s.drop_last(), cols);
        let c = s.last();
        if c == ' ' || c == '\n' {
            lemma_place_word_fits(st.out, st.line, st.word, cols);
            let (o, l) = place_word(st.out, st.line, st.word, cols);
            if c == '\n' {
                assert(all_fit(o.push(l), cols)) by {
                    assert forall|i: int| 0 <= i < o.push(l).len() implies #[trigger] o.push(l)[i].len()
                        <= cols by {
                        if i < o.len() {
                            assert(o.push(l)[i] == o[i]);
                        }
                    }
                }
            }
        }
    }
}

// --- tables ----------------------------------------------------------------

/// `s` left-justified to `w` columns, cut with a trailing `…` when too long.
pub open spec fn pad_trunc_spec(s: Seq<char>, w: nat) -> Seq<char> {
    if s.len() > w {
        if w == 0 {
            Seq::empty()
        } else {
            s.take(w - 1).push('…')
        }
    } else {
        s + Seq::new((w - s.len()) as nat, |i: int| ' ')
    }
}

/// Left-justify `s` to `w` columns, truncating with a trailing `…` if too long.
pub fn pad_trunc(s: &str, w: usize) -> (r: String)
    ensures
        r@ == pad_trunc_spec(s@, w as nat),
{
    let v = chars_of(s);
    let n = v.len();
    if n > w {
        if w == 0 {
            return String::new();
        }
        let mut t = String::new();
        push_chars(&mut t, v.as_slice(), 0, w - 1);
        t.push('…');
        assert(v@.subrange(0, w - 1) =~= s@.take(w - 1));
        t
    } else {
        let mut t = s.to_owned();
        let mut k: usize = 0;
        while k < w - n
            invariant
                n == s@.len() <= w,
                k <= w - n,
                t@ == s@ + Seq::new(k as nat, |i: int| ' '),
            decreases w - n - k,
        {
            t.push(' ');
            k += 1;
            assert(t@ =~= s@ + Seq::new(k as nat, |i: int| ' '));
        }
        t
    }
}

/// The width of column `i` of a row: its cell's length, 0 past its end.
pub open spec fn cell_len(cells: Seq<Seq<char>>, i: int) -> nat {
    if 0 <= i < cells.len() {
        cells[i].len()
    } else {
        0
    }
}

pub open spec fn max_nat(a: nat, b: nat) -> nat {
    if a >= b { a } else { b }
}

/// The longest of the first `n` rows.
pub open spec fn max_row_len(rows: Seq<Seq<Seq<char>>>, n: int) -> nat
    decreases n,
{
    if n <= 0 {
        0
    } else {
        max_nat(max_row_len(rows, n - 1), rows[n - 1].len())
    }
}

/// The number of table columns: the most cells in the header or any row, and
/// at least one.
pub open spec fn table_cols(headers: Seq<Seq<char>>, rows: Seq<Seq<Seq<char>>>) -> nat {
    max_nat(max_nat(headers.len(), max_row_len(rows, rows.len() as int)), 1)
}

/// The widest cell of column `i` among the header and the first `n` rows.
pub open spec fn natural_width(headers: Seq<Seq<char>>, rows: Seq<Seq<Seq<char>>>, i: int, n: int) -> nat
    decreases n,
{
    if n <= 0 {
        cell_len(headers, i)
    } else {
        max_nat(natural_width(headers, rows, i, n - 1), cell_len(rows[n - 1], i))
    }
}

/// Each column's widest cell.
pub open spec fn natural_widths(headers: Seq<Seq<char>>, rows: Seq<Seq<Seq<char>>>) -> Seq<nat> {
    Seq::new(
        table_cols(headers, rows),
        |i: int| natural_width(headers, rows, i, rows.len() as int),
    )
}

pub open spec fn sum(w: Seq<nat>) -> nat
    decreases w.len(),
{
    if w.len() == 0 {
        0
    } else {
        sum(w.drop_last()) + w.last()
    }
}

/// The index of the widest column, the last one among equals.
pub open spec fn last_argmax(w: Seq<nat>) -> int
    decreases w.len(),
{
    if w.len() <= 1 {
        0
    } else {
        let k = last_argmax(w.drop_last());
        if w.last() >= w[k] {
            w.len() - 1
        } else {
            k
        }
    }
}

pub proof fn lemma_last_argmax(w: Seq<nat>)
    requires
        w.len() >= 1,
    ensures
        0 <= last_argmax(w) < w.len(),
        forall|j: int| 0 <= j < w.len() ==> #[trigger] w[j] <= w[last_argmax(w)],
        forall|j: int| last_argmax(w) < j < w.len() ==> #[trigger] w[j] < w[last_argmax(w)],
    decreases w.len(),
{
    if w.len() > 1 {
        lemma_last_argmax(w.drop_last());
        let k = last_argmax(w.drop_last());
        assert forall|j: int| 0 <= j < w.len() - 1 implies #[trigger] w[j] == w.drop_last()[j] by {}
    }
}

pub proof fn lemma_sum_update(w: Seq<nat>, i: int, v: nat)
    requires
        0 <= i < w.len(),
    ensures
        sum(w.update(i, v)) + w[i] == sum(w) + v,
    decreases w.len(),
{
    if i < w.len() - 1 {
        lemma_sum_update(w.drop_last(), i, v);
        assert(w.update(i, v).drop_last() =~= w.drop_last().update(i, v));
    } else {
        assert(w.update(i, v).drop_last() =~= w.drop_last());
    }
}

/// Shrink the widest column (last among equals) one column at a time until the
/// widths fit `budget`, stopping when the widest is already at `MINW`.
pub open spec fn shrink(w: Seq<nat>, budget: nat) -> Seq<nat>
    decreases sum(w),
{
    if w.len() == 0 || sum(w) <= budget {
        w
    } else {
        let mi = last_argmax(w);
        if w[mi] <= MINW {
            w
        } else {
            proof {
                lemma_last_argmax(w);
                lemma_sum_update(w, mi, (w[mi] - 1) as nat);
            }
            shrink(w.update(mi, (w[mi] - 1) as nat), budget)
        }
    }
}

/// The text of column `i` of a row ("" past its end).
pub open spec fn cell_text(cells: Seq<Seq<char>>, i: int) -> Seq<char> {
    if 0 <= i < cells.len() {
        cells[i]
    } else {
        Seq::empty()
    }
}

/// The first `n` columns of a row, each padded or cut to its width, two
/// spaces apart.
pub open spec fn fmt_cols(cells: Seq<Seq<char>>, widths: Seq<nat>, n: int) -> Seq<char>
    decreases n,
{
    if n <= 0 {
        Seq::empty()
    } else {
        fmt_cols(cells, widths, n - 1) + (if n - 1 > 0 { seq![' ', ' '] } else { Seq::empty() })
            + pad_trunc_spec(cell_text(cells, n - 1), widths[n - 1])
    }
}

/// The column widths of a table drawn within `cols` columns.
pub open spec fn table_widths(headers: Seq<Seq<char>>, rows: Seq<Seq<Seq<char>>>, cols: nat) -> Seq<nat> {
    let n = table_cols(headers, rows);
    let sep_total = SEP * (n - 1);
    let budget = max_nat(if cols >= sep_total { (cols - sep_total) as nat } else { 0 }, (n * MINW) as nat);
    shrink(natural_widths(headers, rows), budget)
}

/// The display lines of a table: the header, then each row.
pub open spec fn table_lines(headers: Seq<Seq<char>>, rows: Seq<Seq<Seq<char>>>, cols: nat) -> Seq<Seq<char>> {
    let w = table_widths(headers, rows, cols);
    let n = table_cols(headers, rows) as int;
    seq![fmt_cols(headers, w, n)] + Seq::new(rows.len(), |r: int| fmt_cols(rows[r], w, n))
}

/// The texts of each row of cells.
pub open spec fn row_texts(rows: Seq<Vec<String>>) -> Seq<Seq<Seq<char>>> {
    rows.map_values(|r: Vec<String>| texts(r@))
}

/// Tables whose sizes keep every width sum within machine words.
pub open spec fn table_fits(headers: Seq<Seq<char>>, rows: Seq<Seq<Seq<char>>>) -> bool {
    sum(natural_widths(headers, rows)) + (SEP + MINW) * table_cols(headers, rows) <= usize::MAX
}

pub open spec fn nats(v: Seq<usize>) -> Seq<nat> {
    v.map_values(|x: usize| x as nat)
}

fn char_count(s: &String) -> (n: usize)
    ensures
        n == s@.len(),
{
    chars_of(s.as_str()).len()
}

proof fn lemma_sum_take(w: Seq<nat>, k: int)
    requires
        0 <= k < w.len(),
    ensures
        sum(w.take(k + 1)) == sum(w.take(k)) + w[k],
        sum(w.take(k + 1)) <= sum(w) || k + 1 < w.len(),
{
    assert(w.take(k + 1).drop_last() =~= w.take(k));
}

proof fn lemma_sum_prefix_le(w: Seq<nat>, k: int)
    requires
        0 <= k <= w.len(),
    ensures
        sum(w.take(k)) <= sum(w),
    decreases w.len() - k,
{
    if k < w.len() {
        lemma_sum_prefix_le(w, k + 1);
        lemma_sum_take(w, k);
    } else {
        assert(w.take(k) =~= w);
    }
}

/// The sum of the widths.
fn sum_widths(w: &Vec<usize>, bound: Ghost<nat>) -> (s: usize)
    requires
        sum(nats(w@)) <= bound@ <= usize::MAX,
    ensures
        s == sum(nats(w@)),
{
    let mut s: usize = 0;
    let mut k: usize = 0;
    while k < w.len()
        invariant
            k <= w@.len(),
            sum(nats(w@)) <= usize::MAX,
            s == sum(nats(w@).take(k as int)),
        decreases w.len() - k,
    {
        proof {
            lemma_sum_take(nats(w@), k as int);
            lemma_sum_prefix_le(nats(w@), k + 1);
        }
        s = s + w[k];
        k += 1;
    }
    assert(nats(w@).take(k as int) =~= nats(w@));
    s
}

/// The index of the widest column, the last one among equals.
fn widest(w: &Vec<usize>) -> (mi: usize)
    requires
        w@.len() >= 1,
    ensures
        mi == last_argmax(nats(w@)),
{
    let mut mi: usize = 0;
    let mut k: usize = 1;
    while k < w.len()
        invariant
            1 <= k <= w@.len(),
            mi == last_argmax(nats(w@).take(k as int)),
            mi < k,
        decreases w.len() - k,
    {
        proof {
            assert(nats(w@).take(k + 1).drop_last() =~= nats(w@).take(k as int));
        }
        if w[k] >= w[mi] {
            mi = k;
        }
        k += 1;
    }
    assert(nats(w@).take(k as int) =~= nats(w@));
    mi
}

/// One table row as a display line: each of `ncols` columns padded or cut to
/// its width, two spaces apart.
fn fmt_row(cells: &Vec<String>, widths: &Vec<usize>) -> (line: String)
    ensures
        line@ == fmt_cols(texts(cells@), nats(widths@), widths@.len() as int),
{
    let mut line = String::new();
    let mut i: usize = 0;
    while i < widths.len()
        invariant
            i <= widths@.len(),
            line@ == fmt_cols(texts(cells@), nats(widths@), i as int),
        decreases widths.len() - i,
    {
        if i > 0 {
            push_str(&mut line, "  ");
            proof {
                reveal_strlit("  ");
            }
        }
        let cell: &str = if i < cells.len() { cells[i].as_str() } else { "" };
        proof {
            reveal_strlit("");
        }
        let piece = pad_trunc(cell, widths[i]);
        push_str(&mut line, piece.as_str());
        i += 1;
        assert(line@ =~= fmt_cols(texts(cells@), nats(widths@), i as int));
    }
    line
}

/// Render a table to fixed-width display lines (header first, then rows) and
/// return them with the total table width in columns. Columns are sized to the
/// widest cell, then shrunk widest-first and truncated with `…` to fit `cols`.
pub fn render_table(headers: &Vec<String>, rows: &Vec<Vec<String>>, cols: usize) -> (r: (Vec<String>, usize))
    requires
        table_fits(texts(headers@), row_texts(rows@)),
    ensures
        texts(r.0@) == table_lines(texts(headers@), row_texts(rows@), cols as nat),
        r.1 == sum(table_widths(texts(headers@), row_texts(rows@), cols as nat)) + SEP * (table_cols(
            texts(headers@),
            row_texts(rows@),
        ) - 1),
{
    let ghost hs = texts(headers@);
    let ghost rs = row_texts(rows@);
    // The number of columns.
    let mut most: usize = 0;
    let mut k: usize = 0;
    while k < rows.len()
        invariant
            k <= rows@.len(),
            rs == row_texts(rows@),
            most == max_row_len(rs, k as int),
        decreases rows.len() - k,
    {
        if rows[k].len() > most {
            most = rows[k].len();
        }
        k += 1;
    }
    let mut ncols = if headers.len() > most { headers.len() } else { most };
    if ncols == 0 {
        ncols = 1;
    }
    assert(ncols == table_cols(hs, rs));
    // Each column's widest cell.
    let mut widths: Vec<usize> = Vec::new();
    let mut i: usize = 0;
    while i < ncols
        invariant
            i <= ncols == table_cols(hs, rs),
            hs == texts(headers@),
            rs == row_texts(rows@),
            table_fits(hs, rs),
            nats(widths@) == natural_widths(hs, rs).take(i as int),
        decreases ncols - i,
    {
        let mut w: usize = if i < headers.len() { char_count(&headers[i]) } else { 0 };
        let mut r: usize = 0;
        while r < rows.len()
            invariant
                i < ncols == table_cols(hs, rs),
                r <= rows@.len(),
                rs == row_texts(rows@),
                hs == texts(headers@),
                w == natural_width(hs, rs, i as int, r as int),
            decreases rows.len() - r,
        {
            let c: usize = if i < rows[r].len() { char_count(&rows[r][i]) } else { 0 };
            assert(rs[r as int] == texts(rows@[r as int]@));
            if c > w {
                w = c;
            }
            r += 1;
        }
        proof {
            assert(natural_widths(hs, rs)[i as int] == w);
            assert(natural_widths(hs, rs).take(i + 1) =~= natural_widths(hs, rs).take(i as int).push(w as nat));
        }
        widths.push(w);
        assert(nats(widths@) =~= natural_widths(hs, rs).take(i + 1));
        i += 1;
    }
    assert(natural_widths(hs, rs).take(ncols as int) =~= natural_widths(hs, rs));
    let ghost natural = natural_widths(hs, rs);
    // Shrink the widest column until the table fits the budget.
    let sep_total = SEP * (ncols - 1);
    let budget = if cols > sep_total { cols - sep_total } else { 0 };
    let budget = if budget > ncols * MINW { budget } else { ncols * MINW };
    let mut done = false;
    while !done
        invariant
            widths@.len() == ncols >= 1,
            sum(nats(widths@)) <= sum(natural) <= usize::MAX,
            shrink(nats(widths@), budget as nat) == shrink(natural, budget as nat),
            done ==> shrink(nats(widths@), budget as nat) == nats(widths@),
        decreases sum(nats(widths@)) + (if done { 0int } else { 1int }),
    {
        let total = sum_widths(&widths, Ghost(sum(natural)));
        if total <= budget {
            done = true;
        } else {
            let mi = widest(&widths);
            proof {
                lemma_last_argmax(nats(widths@));
            }
            if widths[mi] <= MINW {
                done = true;
            } else {
                let ghost before = nats(widths@);
                let nw = widths[mi] - 1;
                widths.set(mi, nw);
                proof {
                    assert(nats(widths@) =~= before.update(mi as int, nw as nat));
                    lemma_sum_update(before, mi as int, nw as nat);
                }
            }
        }
    }
    assert(nats(widths@) == table_widths(hs, rs, cols as nat));
    // Format the header and rows.
    let mut lines: Vec<String> = Vec::new();
    lines.push(fmt_row(headers, &widths));
    let mut r: usize = 0;
    while r < rows.len()
        invariant
            r <= rows@.len(),
            widths@.len() == ncols == table_cols(hs, rs),
            nats(widths@) == table_widths(hs, rs, cols as nat),
            rs == row_texts(rows@),
            hs == texts(headers@),
            texts(lines@) == table_lines(hs, rs, cols as nat).take(r + 1),
        decreases rows.len() - r,
    {
        let line = fmt_row(&rows[r], &widths);
        let ghost before = texts(lines@);
        lines.push(line);
        proof {
            assert(rs[r as int] == texts(rows@[r as int]@));
            assert(texts(lines@) =~= before.push(lines@[r + 1]@));
            let tl = table_lines(hs, rs, cols as nat);
            assert(tl[r + 1] == fmt_cols(rs[r as int], nats(widths@), ncols as int));
            assert(tl.take(r + 2) =~= tl.take(r + 1).push(tl[r + 1]));
            assert(texts(lines@) =~= tl.take(r + 2));
        }
        r += 1;
    }
    assert(table_lines(hs, rs, cols as nat).take(rows@.len() as int + 1) =~= table_lines(hs, rs, cols as nat));
    let total = sum_widths(&widths, Ghost(sum(natural)));
    (lines, total + sep_total)
}

// --- the panel ----------------------------------------------------------------

/// `parts` joined by `sep`.
pub open spec fn join(parts: Seq<Seq<char>>, sep: char) -> Seq<char>
    decreases parts.len(),
{
    if parts.len() == 0 {
        Seq::empty()
    } else if parts.len() == 1 {
        parts[0]
    } else {
        join(parts.drop_last(), sep).push(sep) + parts.last()
    }
}

/// Append `parts` joined by `sep` to `out`.
fn push_joined(out: &mut String, parts: &Vec<String>, sep: char)
    ensures
        final(out)@ == old(out)@ + join(texts(parts@), sep),
{
    let mut i: usize = 0;
    while i < parts.len()
        invariant
            i <= parts@.len(),
            out@ == old(out)@ + join(texts(parts@).take(i as int), sep),
        decreases parts.len() - i,
    {
        let ghost before = out@;
        if i > 0 {
            out.push(sep);
        }
        push_str(out, parts[i].as_str());
        proof {
            let t = texts(parts@).take(i + 1);
            assert(t.drop_last() =~= texts(parts@).take(i as int));
            if i == 0 {
                assert(texts(parts@).take(0) =~= Seq::<Seq<char>>::empty());
            }
        }
        i += 1;
        assert(out@ =~= old(out)@ + join(texts(parts@).take(i as int), sep));
    }
    assert(texts(parts@).take(i as int) =~= texts(parts@));
}

/// A table's cells as tab-separated values: the header line, then a line per
/// row.
pub open spec fn tsv(headers: Seq<Seq<char>>, rows: Seq<Seq<Seq<char>>>, n: int) -> Seq<char>
    decreases n,
{
    if n <= 0 {
        join(headers, '\t')
    } else {
        tsv(headers, rows, n - 1).push('\n') + join(rows[n - 1], '\t')
    }
}

/// Reading-order comparison of (line, col) positions.
pub open spec fn before_or_at(a: (usize, usize), b: (usize, usize)) -> bool {
    a.0 < b.0 || (a.0 == b.0 && a.1 <= b.1)
}

/// The selected chars of line `li`.
pub open spec fn line_part(lines: Seq<Seq<char>>, s: (usize, usize), e: (usize, usize), li: int) -> Seq<char> {
    let chars = lines[li];
    let n = chars.len() as int;
    let c0a = if li == s.0 { s.1 as int } else { 0 };
    let c1a = if li == e.0 { e.1 as int } else { n };
    let c0 = if c0a < n { c0a } else { n };
    let c1 = if c1a < n { c1a } else { n };
    chars.subrange(c0, if c1 > c0 { c1 } else { c0 })
}

/// The selected text of lines `s.0..li`, a newline after each line but `e.0`.
pub open spec fn selected_lines(lines: Seq<Seq<char>>, s: (usize, usize), e: (usize, usize), li: int) -> Seq<char>
    decreases li - s.0,
{
    if li <= s.0 {
        Seq::empty()
    } else {
        selected_lines(lines, s, e, li - 1) + line_part(lines, s, e, li - 1) + (if li - 1 != e.0 {
            seq!['\n']
        } else {
            Seq::empty()
        })
    }
}

/// Cached geometry, computed the same way for drawing and hit-testing.
#[derive(Clone, Copy, Debug, PartialEq, Eq, Structural)]
pub struct Geo {
    pub rect: Rect,
    pub content_x: usize,
    pub content_y: usize,
    pub cw: usize,
    pub ch: usize,
    pub rows: usize,
}

/// Raw table data, kept for TSV copy and header/zebra styling.
pub struct TableMeta {
    headers: Vec<String>,
    rows: Vec<Vec<String>>,
}

pub struct TextPanel {
    title: String,
    lines: Vec<String>,
    scroll: usize,
    cols: usize,
    /// Selection over wrapped lines: (line, col) char indices.
    anchor: Option<(usize, usize)>,
    head: (usize, usize),
    /// Whether the panel takes a typed input line (chat).
    pub interactive: bool,
    /// The plugin that opened the panel.
    pub owner: usize,
    input: String,
    /// When set, the panel renders as a table; the raw cells are kept for TSV
    /// copy, `lines` holds the rendered fixed-width rows.
    table: Option<TableMeta>,
}

/// The panel width in columns for a window `max_cols` wide.
pub open spec fn panel_cols(max_cols: usize) -> usize {
    if max_cols < 10 {
        10
    } else if max_cols > MAX_COLS {
        MAX_COLS
    } else {
        max_cols
    }
}

impl TextPanel {
    pub closed spec fn title_spec(self) -> Seq<char> {
        self.title@
    }

    pub closed spec fn lines_spec(self) -> Seq<Seq<char>> {
        texts(self.lines@)
    }

    pub closed spec fn scroll_spec(self) -> int {
        self.scroll as int
    }

    pub closed spec fn cols_spec(self) -> int {
        self.cols as int
    }

    pub closed spec fn anchor_spec(self) -> Option<(usize, usize)> {
        self.anchor
    }

    pub closed spec fn head_spec(self) -> (usize, usize) {
        self.head
    }

    pub closed spec fn interactive_spec(self) -> bool {
        self.interactive
    }

    pub closed spec fn owner_spec(self) -> usize {
        self.owner
    }

    pub closed spec fn input_spec(self) -> Seq<char> {
        self.input@
    }

    /// The header and rows of a table panel.
    pub closed spec fn table_spec(self) -> Option<(Seq<Seq<char>>, Seq<Seq<Seq<char>>>)> {
        match self.table {
            Some(t) => Some((texts(t.headers@), row_texts(t.rows@))),
            None => None,
        }
    }

    /// How many body rows show at once.
    pub open spec fn visible_rows_spec(self) -> int {
        let n = self.lines_spec().len() as int;
        if n > MAX_ROWS as int {
            MAX_ROWS as int
        } else if n < 1 {
            1
        } else {
            n
        }
    }

    /// The furthest the body scrolls.
    pub open spec fn max_scroll(self) -> int {
        let m = self.lines_spec().len() - self.visible_rows_spec();
        if m > 0 { m } else { 0 }
    }

    /// A panel always has a body line and stays scrolled within its body.
    pub open spec fn wf(self) -> bool {
        &&& self.lines_spec().len() >= 1
        &&& 0 <= self.scroll_spec() <= self.max_scroll()
        &&& self.cols_spec() >= 1
    }

    /// A text panel `max_cols` wide at most, the body word-wrapped to fit.
    pub fn new(title: String, body: &str, max_cols: usize, interactive: bool, owner: usize) -> (p: Self)
        ensures
            p.wf(),
            p.title_spec() == title@,
            p.cols_spec() == panel_cols(max_cols),
            p.lines_spec() == wrap_spec(body@, panel_cols(max_cols) as nat),
            p.scroll_spec() == 0,
            p.anchor_spec() is None,
            p.interactive_spec() == interactive,
            p.owner_spec() == owner,
            p.input_spec() == Seq::<char>::empty(),
            p.table_spec() is None,
    {
        let cols = if max_cols < 10 {
            10
        } else if max_cols > MAX_COLS {
            MAX_COLS
        } else {
            max_cols
        };
        let lines = wrap(body, cols);
        proof {
            lemma_wrap_nonempty(body@, cols as nat);
        }
        TextPanel {
            title,
            lines,
            scroll: 0,
            cols,
            anchor: None,
            head: (0, 0),
            interactive,
            owner,
            input: String::new(),
            table: None,
        }
    }

    /// A read-only panel rendering a table: a header row over aligned rows.
    /// Columns are sized to their widest cell, then shrunk widest-first and
    /// truncated with `…` to fit `max_cols`.
    pub fn new_table(
        title: String,
        headers: Vec<String>,
        rows: Vec<Vec<String>>,
        max_cols: usize,
        owner: usize,
    ) -> (p: Self)
        requires
            table_fits(texts(headers@), row_texts(rows@)),
        ensures
            p.wf(),
            p.title_spec() == title@,
            p.lines_spec() == table_lines(texts(headers@), row_texts(rows@), panel_cols(max_cols) as nat),
            p.scroll_spec() == 0,
            p.anchor_spec() is None,
            !p.interactive_spec(),
            p.owner_spec() == owner,
            p.table_spec() == Some((texts(headers@), row_texts(rows@))),
    {
        let cap = if max_cols < 10 {
            10
        } else if max_cols > MAX_COLS {
            MAX_COLS
        } else {
            max_cols
        };
        let (lines, width) = render_table(&headers, &rows, cap);
        assert(texts(lines@).len() >= 1);
        TextPanel {
            title,
            lines,
            scroll: 0,
            cols: if width > 10 { width } else { 10 },
            anchor: None,
            head: (0, 0),
            interactive: false,
            owner,
            input: String::new(),
            table: Some(TableMeta { headers, rows }),
        }
    }

    /// How many body rows show at once.
    pub fn visible_rows(&self) -> (n: usize)
        ensures
            n == self.visible_rows_spec(),
    {
        let n = self.lines.len();
        if n > MAX_ROWS {
            MAX_ROWS
        } else if n < 1 {
            1
        } else {
            n
        }
    }

    /// The scroll step of a page.
    pub fn page(&self) -> (p: isize)
        ensures
            p == self.visible_rows_spec() - 1,
    {
        self.visible_rows() as isize - 1
    }

    /// Scroll the body by `delta` lines, clamped to the body.
    pub fn scroll(&mut self, delta: isize)
        requires
            old(self).wf(),
        ensures
            final(self).wf(),
            final(self).scroll_spec() == ({
                let t = old(self).scroll_spec() + delta;
                if t < 0 {
                    0
                } else if t > old(self).max_scroll() {
                    old(self).max_scroll()
                } else {
                    t
                }
            }),
            final(self).lines_spec() == old(self).lines_spec(),
            final(self).anchor_spec() == old(self).anchor_spec(),
            final(self).head_spec() == old(self).head_spec(),
            final(self).input_spec() == old(self).input_spec(),
    {
        let vis = self.visible_rows();
        let max: usize = if self.lines.len() > vis { self.lines.len() - vis } else { 0 };
        let t: i128 = self.scroll as i128 + delta as i128;
        self.scroll = if t < 0 {
            0
        } else if t > max as i128 {
            max
        } else {
            t as usize
        };
    }

    // --- interactive input ------------------------------------------------

    pub fn on_char(&mut self, c: char)
        ensures
            final(self).input_spec() == old(self).input_spec().push(c),
            final(self).lines_spec() == old(self).lines_spec(),
            final(self).scroll_spec() == old(self).scroll_spec(),
            final(self).cols_spec() == old(self).cols_spec(),
    {
        self.input.push(c);
    }

    pub fn on_backspace(&mut self)
        ensures
            final(self).input_spec() == (if old(self).input_spec().len() == 0 {
                old(self).input_spec()
            } else {
                old(self).input_spec().drop_last()
            }),
            final(self).lines_spec() == old(self).lines_spec(),
            final(self).scroll_spec() == old(self).scroll_spec(),
            final(self).cols_spec() == old(self).cols_spec(),
    {
        let v = chars_of(self.input.as_str());
        if v.len() > 0 {
            let mut q = String::new();
            push_chars(&mut q, v.as_slice(), 0, v.len() - 1);
            assert(v@.subrange(0, v@.len() - 1) =~= v@.drop_last());
            self.input = q;
        }
    }

    /// Take the typed input (when it is not all white space), clearing it.
    pub fn take_input(&mut self) -> (r: Option<String>)
        ensures
            trim_seq(old(self).input_spec()).len() == 0 ==> r is None && final(self).input_spec()
                == old(self).input_spec(),
            trim_seq(old(self).input_spec()).len() > 0 ==> (r matches Some(s) && s@ == old(
                self,
            ).input_spec() && final(self).input_spec() == Seq::<char>::empty()),
            final(self).lines_spec() == old(self).lines_spec(),
            final(self).scroll_spec() == old(self).scroll_spec(),
            final(self).cols_spec() == old(self).cols_spec(),
    {
        let t = trim_string(self.input.as_str());
        if t.as_str().is_empty() {
            None
        } else {
            let mut taken = String::new();
            std::mem::swap(&mut taken, &mut self.input);
            Some(taken)
        }
    }

    // --- geometry and selection -----------------------------------------

    /// The panel fits in machine coordinates for a `w`×`h` window and
    /// `cw`×`ch` cells.
    pub open spec fn geo_fits(self, w: usize, h: usize, cw: usize, ch: usize) -> bool {
        &&& self.cols_spec() * cw + 2 * PAD <= usize::MAX
        &&& (MAX_ROWS + 3) * ch + 2 * PAD <= usize::MAX
        &&& w + PAD <= usize::MAX
        &&& h + PAD + 2 * ch <= usize::MAX
    }

    /// The panel's geometry: centered horizontally, a third of the way down,
    /// the body below the title.
    pub open spec fn geo_spec(self, w: usize, h: usize, cw: usize, ch: usize) -> Geo {
        let rows = self.visible_rows_spec();
        let extra = if self.interactive_spec() { 1int } else { 0int };
        let panel_w = self.cols_spec() * cw + PAD * 2;
        let panel_h = (rows + 2 + extra) * ch + PAD * 2;
        let px = (if w >= panel_w { w - panel_w } else { 0 }) / 2;
        let py = (if h >= panel_h { h - panel_h } else { 0 }) / 3;
        Geo {
            rect: Rect { x: px as usize, y: py as usize, w: panel_w as usize, h: panel_h as usize },
            content_x: (px + PAD) as usize,
            content_y: (py + PAD + ch + ch / 2) as usize,
            cw,
            ch,
            rows: rows as usize,
        }
    }

    /// The panel's geometry in a `w`×`h` window with `cw`×`ch` cells.
    pub fn geo(&self, w: usize, h: usize, cw: usize, ch: usize) -> (g: Geo)
        requires
            self.geo_fits(w, h, cw, ch),
        ensures
            g == self.geo_spec(w, h, cw, ch),
    {
        let rows = self.visible_rows();
        let extra: usize = if self.interactive { 1 } else { 0 };
        proof {
            assert(self.cols_spec() * cw + 2 * PAD <= usize::MAX);
            assert((rows + 2 + extra) * ch <= (MAX_ROWS + 3) * ch) by (nonlinear_arith)
                requires
                    rows + 2 + extra <= MAX_ROWS + 3,
            ;
        }
        let panel_w = self.cols * cw + PAD * 2;
        let panel_h = (rows + 2 + extra) * ch + PAD * 2;
        let px = w.saturating_sub(panel_w) / 2;
        let py = h.saturating_sub(panel_h) / 3;
        Geo {
            rect: Rect::new(px, py, panel_w, panel_h),
            content_x: px + PAD,
            content_y: py + PAD + ch + ch / 2,
            cw,
            ch,
            rows,
        }
    }

    /// Map a pixel to a (line, col) within the body, if it's over the text.
    pub fn cell_at(&self, px: usize, py: usize, w: usize, h: usize, cw: usize, ch: usize) -> (r: Option<(usize, usize)>)
        requires
            self.wf(),
            cw >= 1,
            ch >= 1,
            self.geo_fits(w, h, cw, ch),
        ensures
            r == ({
                let g = self.geo_spec(w, h, cw, ch);
                if px < g.content_x || py < g.content_y {
                    None
                } else {
                    let row = (py - g.content_y) / (ch as int);
                    let line = self.scroll_spec() + row;
                    if row >= g.rows || line >= self.lines_spec().len() {
                        None
                    } else {
                        let c = (px - g.content_x) / (cw as int);
                        let n = self.lines_spec()[line].len() as int;
                        Some((line as usize, (if c < n { c } else { n }) as usize))
                    }
                }
            }),
    {
        let g = self.geo(w, h, cw, ch);
        if px < g.content_x || py < g.content_y {
            return None;
        }
        let row = (py - g.content_y) / g.ch;
        if row >= g.rows {
            return None;
        }
        let total = self.lines.len();
        proof {
            assert(self.lines_spec().len() == self.lines@.len());
            assert(row < self.visible_rows_spec());
            assert(self.scroll + row < total || (total <= MAX_ROWS && self.scroll == 0));
        }
        let line = self.scroll + row;
        if line >= self.lines.len() {
            return None;
        }
        let c = (px - g.content_x) / g.cw;
        let n = chars_of(self.lines[line].as_str()).len();
        Some((line, if c < n { c } else { n }))
    }

    pub fn begin_select(&mut self, pos: (usize, usize))
        ensures
            final(self).anchor_spec() == Some(pos),
            final(self).head_spec() == pos,
            final(self).lines_spec() == old(self).lines_spec(),
            final(self).scroll_spec() == old(self).scroll_spec(),
            final(self).cols_spec() == old(self).cols_spec(),
            final(self).table_spec() == old(self).table_spec(),
    {
        self.anchor = Some(pos);
        self.head = pos;
    }

    pub fn extend_select(&mut self, pos: (usize, usize))
        ensures
            final(self).anchor_spec() == old(self).anchor_spec(),
            final(self).head_spec() == pos,
            final(self).lines_spec() == old(self).lines_spec(),
            final(self).scroll_spec() == old(self).scroll_spec(),
            final(self).cols_spec() == old(self).cols_spec(),
            final(self).table_spec() == old(self).table_spec(),
    {
        self.head = pos;
    }

    /// The selection's ends in reading order, if a selection was begun.
    pub open spec fn normalized_spec(self) -> Option<((usize, usize), (usize, usize))> {
        match self.anchor_spec() {
            Some(a) => Some(
                if before_or_at(a, self.head_spec()) {
                    (a, self.head_spec())
                } else {
                    (self.head_spec(), a)
                },
            ),
            None => None,
        }
    }

    fn normalized(&self) -> (r: Option<((usize, usize), (usize, usize))>)
        ensures
            r == self.normalized_spec(),
    {
        let a = match self.anchor {
            Some(a) => a,
            None => return None,
        };
        let h = self.head;
        if a.0 < h.0 || (a.0 == h.0 && a.1 <= h.1) {
            Some((a, h))
        } else {
            Some((h, a))
        }
    }

    /// What copying takes: the selected text, or with no (or an empty)
    /// selection the whole body — a table's cells as TSV.
    pub open spec fn copy_text_spec(self) -> Seq<char> {
        match self.normalized_spec() {
            Some((s, e)) if s != e => {
                let last = self.lines_spec().len() - 1;
                let end = if (e.0 as int) < last { e.0 as int } else { last };
                selected_lines(self.lines_spec(), s, e, end + 1)
            },
            _ => match self.table_spec() {
                Some((h, r)) => tsv(h, r, r.len() as int),
                None => join(self.lines_spec(), '\n'),
            },
        }
    }

    /// Selected text, or the whole body if nothing is selected.
    pub fn copy_text(&self) -> (t: String)
        requires
            self.wf(),
        ensures
            t@ == self.copy_text_spec(),
    {
        match self.normalized() {
            Some((s, e)) => {
                if s.0 != e.0 || s.1 != e.1 {
                    let last = self.lines.len() - 1;
                    let end = if e.0 < last { e.0 } else { last };
                    let mut out = String::new();
                    if s.0 > end {
                        return out;
                    }
                    let mut li = s.0;
                    while li <= end
                        invariant
                            s.0 <= li <= end + 1,
                            end < self.lines@.len(),
                            end < usize::MAX,
                            out@ == selected_lines(self.lines_spec(), s, e, li as int),
                        decreases end + 1 - li,
                    {
                        let chars = chars_of(self.lines[li].as_str());
                        let n = chars.len();
                        let c0a = if li == s.0 { s.1 } else { 0 };
                        let c1a = if li == e.0 { e.1 } else { n };
                        let c0 = if c0a < n { c0a } else { n };
                        let c1 = if c1a < n { c1a } else { n };
                        push_chars(&mut out, chars.as_slice(), c0, if c1 > c0 { c1 } else { c0 });
                        if li != e.0 {
                            out.push('\n');
                        }
                        li += 1;
                        assert(out@ =~= selected_lines(self.lines_spec(), s, e, li as int));
                    }
                    return out;
                }
            },
            None => {},
        }
        match &self.table {
            Some(t) => {
                let mut out = String::new();
                push_joined(&mut out, &t.headers, '\t');
                let mut r: usize = 0;
                while r < t.rows.len()
                    invariant
                        r <= t.rows@.len(),
                        out@ == tsv(texts(t.headers@), row_texts(t.rows@), r as int),
                    decreases t.rows.len() - r,
                {
                    out.push('\n');
                    push_joined(&mut out, &t.rows[r], '\t');
                    r += 1;
                }
                out
            },
            None => {
                let mut out = String::new();
                push_joined(&mut out, &self.lines, '\n');
                out
            },
        }
    }

    /// Selected (start, end) columns of body line `line_idx` (of `line_len`
    /// chars), if it is highlighted.
    pub fn sel_cols(&self, line_idx: usize, line_len: usize) -> (r: Option<(usize, usize)>)
        ensures
            r == (match self.normalized_spec() {
                Some((s, e)) => if s == e || line_idx < s.0 || line_idx > e.0 {
                    None
                } else {
                    let c0 = if line_idx == s.0 { s.1 } else { 0 };
                    let c1 = if line_idx == e.0 { e.1 } else { line_len };
                    Some(
                        (
                            if c0 < line_len { c0 } else { line_len },
                            if c1 < line_len { c1 } else { line_len },
                        ),
                    )
                },
                None => None,
            }),
    {
        let (s, e) = match self.normalized() {
            Some(p) => p,
            None => return None,
        };
        if (s.0 == e.0 && s.1 == e.1) || line_idx < s.0 || line_idx > e.0 {
            return None;
        }
        let c0 = if line_idx == s.0 { s.1 } else { 0 };
        let c1 = if line_idx == e.0 { e.1 } else { line_len };
        Some((if c0 < line_len { c0 } else { line_len }, if c1 < line_len { c1 } else { line_len }))
    }

    /// The rendered body lines.
    pub fn lines(&self) -> (l: &Vec<String>)
        ensures
            texts(l@) == self.lines_spec(),
    {
        &self.lines
    }

    pub fn title(&self) -> (t: &str)
        ensures
            t@ == self.title_spec(),
    {
        self.title.as_str()
    }

    /// The typed input line.
    pub fn input(&self) -> (t: &str)
        ensures
            t@ == self.input_spec(),
    {
        self.input.as_str()
    }

    /// The footer line: the input prompt of an interactive panel, else the
    /// key hints.
    pub fn footer(&self) -> (f: String)
        ensures
            f@ == (if self.interactive_spec() {
                "> "@ + self.input_spec()
            } else {
                FOOTER_HINT@
            }),
    {
        let mut f = String::new();
        if self.interactive {
            push_str(&mut f, "> ");
            push_str(&mut f, self.input.as_str());
            proof {
                reveal_strlit("> ");
            }
        } else {
            push_str(&mut f, FOOTER_HINT);
        }
        f
    }

    /// The first body line shown.
    pub fn scroll_pos(&self) -> (s: usize)
        ensures
            s == self.scroll_spec(),
    {
        self.scroll
    }

    /// The panel width in columns.
    pub fn cols(&self) -> (c: usize)
        ensures
            c == self.cols_spec(),
    {
        self.cols
    }

    /// Whether the panel shows a table.
    pub fn is_table(&self) -> (b: bool)
        ensures
            b == self.table_spec() is Some,
    {
        self.table.is_some()
    }

    /// How line `idx` is painted: a table's first line is its header band and
    /// every other line after it a stripe (zebra rows); text lines are plain.
    pub fn band(&self, idx: usize) -> (b: Band)
        ensures
            b == (if self.table_spec() is Some && idx == 0 {
                Band::Header
            } else if self.table_spec() is Some && idx % 2 == 0 {
                Band::Stripe
            } else {
                Band::Plain
            }),
    {
        if self.table.is_some() && idx == 0 {
            Band::Header
        } else if self.table.is_some() && idx % 2 == 0 {
            Band::Stripe
        } else {
            Band::Plain
        }
    }
}

/// How a panel line is painted.
#[derive(Clone, Copy, Debug, PartialEq, Eq, Structural)]
pub enum Band {
    /// A table's header: its own background and text color.
    Header,
    /// A striped table row.
    Stripe,
    /// Text on the panel's background.
    Plain,
}

proof fn lemma_wrap_nonempty(s: Seq<char>, cols: nat)
    ensures
        wrap_spec(s, cols).len() >= 1,
{
}

// --- trees ---------------------------------------------------------------------

/// A tree a plugin shows: a node with a label and child trees, or a bare list
/// of trees (shown at the list's own depth).
pub enum Tree {
    Node { label: String, children: Vec<Tree> },
    List(Vec<Tree>),
}

/// The lines of a tree in pre-order, each node's label after `ind`, its
/// children indented two spaces further.
pub open spec fn tree_lines_spec(t: Tree, ind: Seq<char>) -> Seq<Seq<char>>
    decreases t, 1int,
{
    match t {
        Tree::Node { label, children } => seq![ind + label@] + forest_lines_spec(
            children@,
            ind + seq![' ', ' '],
        ),
        Tree::List(v) => forest_lines_spec(v@, ind),
    }
}

/// The lines of a list of trees, one after another, all after `ind`.
pub open spec fn forest_lines_spec(ts: Seq<Tree>, ind: Seq<char>) -> Seq<Seq<char>>
    decreases ts, 0int,
{
    if ts.len() == 0 {
        Seq::empty()
    } else {
        tree_lines_spec(ts[0], ind) + forest_lines_spec(ts.subrange(1, ts.len() as int), ind)
    }
}

fn copy_string(s: &String) -> (r: String)
    ensures
        r@ == s@,
{
    let mut r = String::new();
    push_str(&mut r, s.as_str());
    r
}

fn push_tree(t: &Tree, ind: &String, out: &mut Vec<String>)
    ensures
        texts(final(out)@) == texts(old(out)@) + tree_lines_spec(*t, ind@),
    decreases *t, 1int,
{
    match t {
        Tree::Node { label, children } => {
            let mut line = copy_string(ind);
            push_str(&mut line, label.as_str());
            let ghost before = out@;
            out.push(line);
            assert(texts(out@) =~= texts(before) + seq![ind@ + label@]);
            let mut deeper = copy_string(ind);
            push_str(&mut deeper, "  ");
            proof {
                reveal_strlit("  ");
                assert("  "@ =~= seq![' ', ' ']);
            }
            push_forest(children, &deeper, out);
            assert(texts(out@) =~= texts(old(out)@) + tree_lines_spec(*t, ind@));
        },
        Tree::List(v) => {
            push_forest(v, ind, out);
        },
    }
}

proof fn lemma_forest_split(ts: Seq<Tree>, i: int, ind: Seq<char>)
    requires
        0 <= i < ts.len(),
    ensures
        forest_lines_spec(ts.subrange(i, ts.len() as int), ind) == tree_lines_spec(ts[i], ind)
            + forest_lines_spec(ts.subrange(i + 1, ts.len() as int), ind),
{
    let r = ts.subrange(i, ts.len() as int);
    assert(r[0] == ts[i]);
    assert(r.subrange(1, r.len() as int) =~= ts.subrange(i + 1, ts.len() as int));
}

fn push_forest(v: &Vec<Tree>, ind: &String, out: &mut Vec<String>)
    ensures
        texts(final(out)@) == texts(old(out)@) + forest_lines_spec(v@, ind@),
    decreases v@, 0int,
{
    let mut i: usize = 0;
    assert(v@.subrange(0, v@.len() as int) =~= v@);
    while i < v.len()
        invariant
            i <= v@.len(),
            texts(old(out)@) + forest_lines_spec(v@, ind@) == texts(out@) + forest_lines_spec(
                v@.subrange(i as int, v@.len() as int),
                ind@,
            ),
        decreases v.len() - i,
    {
        proof {
            lemma_forest_split(v@, i as int, ind@);
        }
        let ghost before = out@;
        push_tree(&v[i], ind, out);
        assert(texts(before) + (tree_lines_spec(v@[i as int], ind@) + forest_lines_spec(
            v@.subrange(i + 1, v@.len() as int),
            ind@,
        )) =~= texts(out@) + forest_lines_spec(v@.subrange(i + 1, v@.len() as int), ind@));
        i += 1;
    }
    assert(forest_lines_spec(v@.subrange(i as int, v@.len() as int), ind@) =~= Seq::<Seq<char>>::empty());
    assert(texts(out@) + Seq::<Seq<char>>::empty() =~= texts(out@));
}

/// A tree's lines in pre-order, each node's label indented two spaces per
/// level (the trees of a bare list at the list's own level).
pub fn tree_lines(t: &Tree) -> (lines: Vec<String>)
    ensures
        texts(lines@) == tree_lines_spec(*t, Seq::empty()),
{
    let mut out: Vec<String> = Vec::new();
    let ind = String::new();
    push_tree(t, &ind, &mut out);
    assert(texts(Seq::<String>::empty()) =~= Seq::<Seq<char>>::empty());
    assert(Seq::<Seq<char>>::empty() + tree_lines_spec(*t, Seq::empty()) =~= tree_lines_spec(
        *t,
        Seq::empty(),
    ));
    out
}

/// Fitting a cell to `w` columns gives exactly `w` columns: a text that fits
/// is kept whole and padded with spaces; a longer one keeps its first `w - 1`
/// chars and ends in `…`.
pub proof fn law_pad_trunc_exact_width(s: Seq<char>, w: nat)
    ensures
        pad_trunc_spec(s, w).len() == w,
        s.len() <= w ==> pad_trunc_spec(s, w).subrange(0, s.len() as int) == s && forall|i: int|
            s.len() <= i < w ==> #[trigger] pad_trunc_spec(s, w)[i] == ' ',
        s.len() > w && w > 0 ==> pad_trunc_spec(s, w).subrange(0, w - 1) == s.subrange(0, w - 1)
            && pad_trunc_spec(s, w)[w - 1] == '…',
{
    if s.len() <= w {
        assert(pad_trunc_spec(s, w).subrange(0, s.len() as int) =~= s);
    } else if w > 0 {
        assert(pad_trunc_spec(s, w).subrange(0, w - 1) =~= s.subrange(0, w - 1));
    }
}

/// The width of the first `n` formatted columns: their widths and the two
/// spaces between neighbours.
pub open spec fn fmt_width(widths: Seq<nat>, n: int) -> int
    decreases n,
{
    if n <= 0 {
        0
    } else {
        fmt_width(widths, n - 1) + (if n - 1 > 0 { 2int } else { 0 }) + widths[n - 1]
    }
}

proof fn lemma_fmt_cols_width(cells: Seq<Seq<char>>, widths: Seq<nat>, n: int)
    requires
        n <= widths.len(),
    ensures
        fmt_cols(cells, widths, n).len() == fmt_width(widths, n),
    decreases n,
{
    if n > 0 {
        lemma_fmt_cols_width(cells, widths, n - 1);
        law_pad_trunc_exact_width(cell_text(cells, n - 1), widths[n - 1]);
    }
}

proof fn lemma_shrink_len(w: Seq<nat>, budget: nat)
    ensures
        shrink(w, budget).len() == w.len(),
    decreases sum(w),
{
    if w.len() > 0 && sum(w) > budget {
        let mi = last_argmax(w);
        if w[mi] > MINW {
            lemma_last_argmax(w);
            lemma_sum_update(w, mi, (w[mi] - 1) as nat);
            lemma_shrink_len(w.update(mi, (w[mi] - 1) as nat), budget);
        }
    }
}

/// Every line of a rendered table, the header and each row alike, has the
/// same width: the column widths and the two-space gaps, whatever the cells
/// hold.
pub proof fn law_table_lines_align(headers: Seq<Seq<char>>, rows: Seq<Seq<Seq<char>>>, cols: nat)
    ensures
        forall|r: int|
            0 <= r < table_lines(headers, rows, cols).len() ==> #[trigger] table_lines(headers, rows, cols)[r].len()
                == fmt_width(table_widths(headers, rows, cols), table_cols(headers, rows) as int),
{
    let w = table_widths(headers, rows, cols);
    let n = table_cols(headers, rows) as int;
    let t = table_lines(headers, rows, cols);
    let nn = table_cols(headers, rows);
    let sep_total = SEP * (nn - 1);
    let budget = max_nat(if cols >= sep_total { (cols - sep_total) as nat } else { 0 }, (nn * MINW) as nat);
    lemma_shrink_len(natural_widths(headers, rows), budget);
    assert forall|r: int| 0 <= r < t.len() implies #[trigger] t[r].len() == fmt_width(w, n) by {
        if r == 0 {
            lemma_fmt_cols_width(headers, w, n);
        } else {
            lemma_fmt_cols_width(rows[r - 1], w, n);
        }
    }
}

/// A panel selection from (line, col) `s` to `e` copies the first line from
/// `s`'s column on, every line between whole, and the last line up to `e`'s
/// column (columns past a line's end meaning its end).
pub proof fn law_panel_selection_takes_whole_middle_lines(
    lines: Seq<Seq<char>>,
    s: (usize, usize),
    e: (usize, usize),
    li: int,
)
    requires
        s.0 <= li <= e.0,
        li < lines.len(),
    ensures
        ({
            let n = lines[li].len() as int;
            let from = if li == s.0 && (s.1 as int) < n { s.1 as int } else if li == s.0 { n } else { 0 };
            let to = if li == e.0 && (e.1 as int) < n { e.1 as int } else { n };
            line_part(lines, s, e, li) == lines[li].subrange(from, if to > from { to } else { from })
        }),
        s.0 < li < e.0 ==> line_part(lines, s, e, li) == lines[li],
{
    assert(lines[li].subrange(0, lines[li].len() as int) =~= lines[li]);
}

} // verus!
