//! Command blocks: turning the byte stream into structured records of
//! "what ran and what it produced", driven by OSC 133 semantic-prompt marks.
//!
//! Lifecycle the shell emits:
//!   OSC 133;A  prompt start
//!   OSC 133;B  command start (cursor is where you type) — we mark the position
//!   OSC 133;C  output start  — we read the command from the grid, open a block
//!   OSC 133;D;<code>  command end — we close the block with its exit code

use vstd::prelude::*;
use vstd::utf8::{decode_utf8, valid_utf8};

use crate::grid::{Grid, GridState};
use crate::text::{chars_of, is_prefix, trim_seq, trim_string};

verus! {

/// Cap on the output captured per block (in UTF-8 bytes), so a `yes`-style
/// flood can't grow unbounded.
pub const MAX_OUTPUT: usize = 65536;

#[derive(Debug, Clone)]
pub struct Block {
    pub command: String,
    pub output: String,
    pub exit_code: Option<i32>,
    pub cwd: Option<String>,
    pub started_at_ms: u64,
}

impl Block {
    /// A field-for-field copy.
    pub fn duplicate(&self) -> (b: Block)
        ensures
            b == *self,
    {
        Block {
            command: self.command.clone(),
            output: self.output.clone(),
            exit_code: self.exit_code,
            cwd: match &self.cwd {
                Some(c) => Some(c.clone()),
                None => None,
            },
            started_at_ms: self.started_at_ms,
        }
    }
}

/// A block being accumulated between OSC 133;C and ;D.
pub struct OpenBlock {
    pub command: String,
    pub output: String,
    pub cwd: Option<String>,
    pub started_at_ms: u64,
    pub truncated: bool,
}

/// The milliseconds since the Unix epoch by `std::time::SystemTime::now` (0
/// if the clock is before it). Nothing is claimed of the value: it is the
/// machine's clock.
#[verifier::external_body]
fn now_ms() -> u64 {
    std::time::SystemTime::now().duration_since(std::time::UNIX_EPOCH).map(
        |d| d.as_millis() as u64,
    ).unwrap_or(0)
}

/// `std::str::from_utf8`, owned: `Some` exactly for valid UTF-8, holding the
/// decoded chars.
#[verifier::external_body]
fn utf8_string(bytes: &[u8]) -> (r: Option<String>)
    ensures
        r is Some <==> valid_utf8(bytes@),
        r matches Some(s) ==> s@ == decode_utf8(bytes@),
{
    std::str::from_utf8(bytes).ok().map(|s| s.to_string())
}

pub struct BlockTracker {
    /// Cursor position recorded at the `B` mark, used to read the command text.
    command_mark: Option<(usize, usize)>,
    /// Latest cwd reported via OSC 7.
    cwd: Option<String>,
    open: Option<OpenBlock>,
    /// Blocks finished this session (kept for the recall UI).
    history: Vec<Block>,
    /// Blocks finished since the last `drain_completed` (for event emission).
    completed: Vec<Block>,
}

impl BlockTracker {
    pub closed spec fn command_mark(&self) -> Option<(usize, usize)> {
        self.command_mark
    }

    pub closed spec fn cwd(&self) -> Option<String> {
        self.cwd
    }

    pub closed spec fn open_block(&self) -> Option<OpenBlock> {
        self.open
    }

    pub closed spec fn history_view(&self) -> Seq<Block> {
        self.history@
    }

    pub closed spec fn completed_view(&self) -> Seq<Block> {
        self.completed@
    }

    /// Everything but the open block is unchanged between `a` and `b`.
    pub open spec fn same_but_open(a: &BlockTracker, b: &BlockTracker) -> bool {
        &&& a.command_mark() == b.command_mark()
        &&& a.cwd() == b.cwd()
        &&& a.history_view() == b.history_view()
        &&& a.completed_view() == b.completed_view()
    }

    /// `n` is `o` after an `A` mark: the command mark is cleared.
    pub open spec fn prompt_start_post(o: &BlockTracker, n: &BlockTracker) -> bool {
        &&& n.command_mark() is None
        &&& n.cwd() == o.cwd()
        &&& n.open_block() == o.open_block()
        &&& n.history_view() == o.history_view()
        &&& n.completed_view() == o.completed_view()
    }

    /// `n` is `o` after a `B` mark at (`row`, `col`).
    pub open spec fn command_start_post(o: &BlockTracker, n: &BlockTracker, row: usize, col: usize) -> bool {
        &&& n.command_mark() == Some((row, col))
        &&& n.cwd() == o.cwd()
        &&& n.open_block() == o.open_block()
        &&& n.history_view() == o.history_view()
        &&& n.completed_view() == o.completed_view()
    }

    /// `n` is `o` with a fresh block opened for `command` (no output yet, the
    /// current cwd, the mark cleared).
    pub open spec fn output_start_post(o: &BlockTracker, n: &BlockTracker, command: Seq<char>) -> bool {
        &&& n.command_mark() is None
        &&& n.cwd() == o.cwd()
        &&& n.history_view() == o.history_view()
        &&& n.completed_view() == o.completed_view()
        &&& n.open_block() matches Some(b) && {
            &&& b.command@ == command
            &&& b.output@ == Seq::<char>::empty()
            &&& b.cwd == o.cwd()
            &&& !b.truncated
        }
    }

    /// `n` is `o` after a `D` mark with `exit_code`: an open block is closed and
    /// appended (command trimmed) to the history and the completed list.
    pub open spec fn command_end_post(o: &BlockTracker, n: &BlockTracker, exit_code: Option<i32>) -> bool {
        &&& n.command_mark() == o.command_mark()
        &&& n.cwd() == o.cwd()
        &&& n.open_block() is None
        &&& match o.open_block() {
            None => {
                &&& n.history_view() == o.history_view()
                &&& n.completed_view() == o.completed_view()
            },
            Some(ob) => {
                let b = n.history_view().last();
                &&& n.history_view().len() == o.history_view().len() + 1
                &&& n.history_view().drop_last() == o.history_view()
                &&& n.completed_view() == o.completed_view().push(b)
                &&& b.command@ == trim_seq(ob.command@)
                &&& b.output == ob.output
                &&& b.exit_code == exit_code
                &&& b.cwd == ob.cwd
                &&& b.started_at_ms == ob.started_at_ms
            },
        }
    }

    /// `n` is `o` after an OSC 7 payload `uri`.
    pub open spec fn set_cwd_post(o: &BlockTracker, n: &BlockTracker, uri: Seq<u8>) -> bool {
        &&& n.command_mark() == o.command_mark()
        &&& n.open_block() == o.open_block()
        &&& n.history_view() == o.history_view()
        &&& n.completed_view() == o.completed_view()
        &&& valid_utf8(uri) ==> (n.cwd() matches Some(c) && c@ == cwd_of_uri(decode_utf8(uri)))
        &&& !valid_utf8(uri) ==> n.cwd() == o.cwd()
    }

    /// `n` is `o` after printing `c`: captured as output of an open block while
    /// the output is under `MAX_OUTPUT` bytes, else the block is marked truncated.
    pub open spec fn feed_output_post(o: &BlockTracker, n: &BlockTracker, c: char) -> bool {
        &&& BlockTracker::same_but_open(o, n)
        &&& match o.open_block() {
            None => n.open_block() is None,
            Some(ob) => n.open_block() matches Some(nb) && {
                &&& nb.command == ob.command
                &&& nb.cwd == ob.cwd
                &&& nb.started_at_ms == ob.started_at_ms
                &&& if (vstd::utf8::encode_utf8(ob.output@).len() as usize) < MAX_OUTPUT {
                    nb.output@ == ob.output@.push(c) && nb.truncated == ob.truncated
                } else {
                    nb.output == ob.output && nb.truncated
                }
            },
        }
    }

    /// A tracker that never persists anything by itself: no mark, no cwd, no
    /// open block, no history.
    pub fn new_in_memory() -> (t: Self)
        ensures
            t.command_mark() is None,
            t.cwd() is None,
            t.open_block() is None,
            t.history_view() == Seq::<Block>::empty(),
            t.completed_view() == Seq::<Block>::empty(),
    {
        BlockTracker {
            command_mark: None,
            cwd: None,
            open: None,
            history: Vec::new(),
            completed: Vec::new(),
        }
    }

    pub fn history(&self) -> (h: &[Block])
        ensures
            h@ == self.history_view(),
    {
        self.history.as_slice()
    }

    /// Take the blocks finished since the last call (for event emission).
    pub fn drain_completed(&mut self) -> (out: Vec<Block>)
        ensures
            out@ == old(self).completed_view(),
            final(self).completed_view() == Seq::<Block>::empty(),
            final(self).command_mark() == old(self).command_mark(),
            final(self).cwd() == old(self).cwd(),
            final(self).open_block() == old(self).open_block(),
            final(self).history_view() == old(self).history_view(),
    {
        let mut out: Vec<Block> = Vec::new();
        std::mem::swap(&mut out, &mut self.completed);
        out
    }

    pub fn last(&self) -> (b: Option<&Block>)
        ensures
            self.history_view().len() == 0 ==> b is None,
            self.history_view().len() > 0 ==> b == Some(&self.history_view().last()),
    {
        if self.history.len() == 0 {
            None
        } else {
            Some(&self.history[self.history.len() - 1])
        }
    }

    // --- OSC 133 marks ---------------------------------------------------

    /// `A`: a new prompt; forget any command mark.
    pub fn prompt_start(&mut self)
        ensures
            BlockTracker::prompt_start_post(old(self), final(self)),

    {
        self.command_mark = None;
    }

    /// `B`: remember where the typed command will begin.
    pub fn command_start(&mut self, row: usize, col: usize)
        ensures
            BlockTracker::command_start_post(old(self), final(self), row, col),

    {
        self.command_mark = Some((row, col));
    }

    /// `C` with no explicit command: read the command text from `grid` (between
    /// the B mark and the cursor); without a mark the command is empty.
    pub fn output_start(&mut self, grid: &Grid)
        requires
            grid.wf(),
        ensures
            BlockTracker::output_start_post(
                old(self),
                final(self),
                match old(self).command_mark() {
                    Some((r, c)) => grid@.text_between(
                        (r as nat, c as nat),
                        (grid@.cursor_row, grid@.cursor_col),
                    ),
                    None => Seq::<char>::empty(),
                },
            ),

    {
        let command = match self.command_mark {
            Some(mark) => grid.text_between(mark, (grid.cursor_row(), grid.cursor_col())),
            None => String::new(),
        };
        self.command_mark = None;
        self.open_block_with(command);
    }

    /// `C` with the exact command supplied by the shell (preferred — robust
    /// regardless of prompt theme).
    pub fn output_start_with_command(&mut self, command: String)
        ensures
            BlockTracker::output_start_post(old(self), final(self), command@),

    {
        self.command_mark = None;
        self.open_block_with(command);
    }

    /// Open a block for `command`, stamped with the current time and cwd.
    fn open_block_with(&mut self, command: String)
        ensures
            final(self).command_mark() == old(self).command_mark(),
            final(self).cwd() == old(self).cwd(),
            final(self).history_view() == old(self).history_view(),
            final(self).completed_view() == old(self).completed_view(),
            final(self).open_block() matches Some(o) && {
                &&& o.command == command
                &&& o.output@ == Seq::<char>::empty()
                &&& o.cwd == old(self).cwd()
                &&& !o.truncated
            },
    {
        let cwd = match &self.cwd {
            Some(c) => Some(c.clone()),
            None => None,
        };
        self.open = Some(
            OpenBlock { command, output: String::new(), cwd, started_at_ms: now_ms(), truncated: false },
        );
    }

    /// `D;<code>`: close the open block (its command trimmed) and record it in
    /// the history and the completed list. Nothing happens without an open block.
    pub fn command_end(&mut self, exit_code: Option<i32>)
        ensures
            BlockTracker::command_end_post(old(self), final(self), exit_code),

    {
        let mut taken: Option<OpenBlock> = None;
        std::mem::swap(&mut taken, &mut self.open);
        match taken {
            None => {},
            Some(open) => {
                let block = Block {
                    command: trim_string(open.command.as_str()),
                    output: open.output,
                    exit_code,
                    cwd: open.cwd,
                    started_at_ms: open.started_at_ms,
                };
                self.completed.push(block.duplicate());
                self.history.push(block);
                proof {
                    assert(self.history@.drop_last() =~= old(self).history_view());
                }
            },
        }
    }

    /// A printed char arrived; if a block is open, capture it as output (until
    /// the output reaches `MAX_OUTPUT` bytes, after which it is only marked
    /// truncated).
    pub fn feed_output(&mut self, c: char)
        ensures
            BlockTracker::feed_output_post(old(self), final(self), c),

    {
        match &mut self.open {
            None => {},
            Some(open) => {
                if open.output.as_str().len() < MAX_OUTPUT {
                    open.output.push(c);
                } else {
                    open.truncated = true;
                }
            },
        }
    }

    /// OSC 7: `file://host/path` — record the working directory (the path part
    /// of a `file://` URI, else the whole payload). Payloads that are not UTF-8
    /// are ignored.
    pub fn set_cwd_from_uri(&mut self, uri: &[u8])
        ensures
            BlockTracker::set_cwd_post(old(self), final(self), uri@),

    {
        match utf8_string(uri) {
            None => {},
            Some(s) => {
                let v = chars_of(s.as_str());
                self.cwd = Some(cwd_from_chars(v.as_slice()));
            },
        }
    }
}

proof fn lemma_encode_push(s: Seq<char>, c: char)
    ensures
        vstd::utf8::encode_utf8(s.push(c)) == vstd::utf8::encode_utf8(s)
            + vstd::utf8::encode_scalar(c as u32),
    decreases s.len(),
{
    if s.len() == 0 {
        assert(s.push(c).drop_first() =~= Seq::<char>::empty());
        assert(s.push(c)[0] == c);
        assert(vstd::utf8::encode_utf8(Seq::<char>::empty()) =~= Seq::<u8>::empty());
        assert(vstd::utf8::encode_utf8(s) =~= Seq::<u8>::empty());
        assert(vstd::utf8::encode_utf8(s.push(c)) =~= vstd::utf8::encode_scalar(c as u32));
    } else {
        assert(s.push(c).drop_first() =~= s.drop_first().push(c));
        lemma_encode_push(s.drop_first(), c);
        assert(vstd::utf8::encode_utf8(s.push(c)) =~= vstd::utf8::encode_utf8(s)
            + vstd::utf8::encode_scalar(c as u32));
    }
}

/// Capturing output keeps an open block within `MAX_OUTPUT` bytes plus the
/// one character that crossed the cap (at most 4 bytes), however much is fed.
pub proof fn law_output_capped(o: &BlockTracker, n: &BlockTracker, c: char)
    requires
        BlockTracker::feed_output_post(o, n, c),
        o.open_block() matches Some(ob) ==> vstd::utf8::encode_utf8(ob.output@).len() < MAX_OUTPUT
            + 4,
    ensures
        n.open_block() matches Some(nb) ==> vstd::utf8::encode_utf8(nb.output@).len() < MAX_OUTPUT
            + 4,
{
    if let Some(ob) = o.open_block() {
        lemma_encode_push(ob.output@, c);
    }
}

/// What a block captures of the printed chars `cs`: each char while the
/// captured output is under `MAX_OUTPUT` bytes, none after.
pub open spec fn captured(cs: Seq<char>) -> Seq<char>
    decreases cs.len(),
{
    if cs.len() == 0 {
        Seq::empty()
    } else {
        let a = captured(cs.drop_last());
        if (vstd::utf8::encode_utf8(a).len() as usize) < MAX_OUTPUT {
            a.push(cs.last())
        } else {
            a
        }
    }
}

/// Output within the cap is captured whole.
proof fn lemma_captured_whole(cs: Seq<char>)
    requires
        vstd::utf8::encode_utf8(cs).len() <= MAX_OUTPUT,
    ensures
        captured(cs) == cs,
    decreases cs.len(),
{
    if cs.len() > 0 {
        let p = cs.drop_last();
        assert(p.push(cs.last()) =~= cs);
        lemma_encode_push(p, cs.last());
        assert(vstd::utf8::encode_scalar(cs.last() as u32).len() >= 1);
        lemma_captured_whole(p);
    }
}

/// While the printed chars of a block arrive, the block stays open with its
/// command and cwd, its output is what `captured` keeps, and nothing else of
/// the tracker changes.
proof fn lemma_feeds(t2: BlockTracker, feeds: Seq<BlockTracker>, cs: Seq<char>, j: int)
    requires
        feeds.len() == cs.len() + 1,
        feeds[0] == t2,
        t2.open_block() matches Some(o) && o.output@ == Seq::<char>::empty(),
        forall|i: int| 0 <= i < cs.len() ==> BlockTracker::feed_output_post(
            &#[trigger] feeds[i],
            &feeds[i + 1],
            cs[i],
        ),
        0 <= j <= cs.len(),
    ensures
        BlockTracker::same_but_open(&t2, &feeds[j]),
        feeds[j].open_block() matches Some(o) && {
            &&& o.command == t2.open_block()->0.command
            &&& o.cwd == t2.open_block()->0.cwd
            &&& o.started_at_ms == t2.open_block()->0.started_at_ms
            &&& o.output@ == captured(cs.take(j))
        },
    decreases j,
{
    if j == 0 {
        assert(cs.take(0) =~= Seq::<char>::empty());
    } else {
        lemma_feeds(t2, feeds, cs, j - 1);
        assert(BlockTracker::feed_output_post(&feeds[j - 1], &feeds[j], cs[j - 1]));
        assert(cs.take(j).drop_last() =~= cs.take(j - 1));
        assert(cs.take(j).last() == cs[j - 1]);
    }
}

/// A command's block records what ran and what it printed: after the `B`
/// mark at (`row`, `col`), the `C` mark reading the command off the grid,
/// the printed chars `cs` and the `D` mark with `exit_code`, the history
/// (and the completed list) gain exactly one block, holding the grid's text
/// from the mark to the cursor (trimmed), the output captured of `cs` (all of
/// it within the cap), the exit code, and the cwd at the `C` mark.
pub proof fn law_block_capture(
    t0: BlockTracker,
    t1: BlockTracker,
    t2: BlockTracker,
    feeds: Seq<BlockTracker>,
    t4: BlockTracker,
    row: usize,
    col: usize,
    g: GridState,
    cs: Seq<char>,
    exit_code: Option<i32>,
)
    requires
        BlockTracker::command_start_post(&t0, &t1, row, col),
        BlockTracker::output_start_post(
            &t1,
            &t2,
            match t1.command_mark() {
                Some((r, c)) => g.text_between((r as nat, c as nat), (g.cursor_row, g.cursor_col)),
                None => Seq::<char>::empty(),
            },
        ),
        feeds.len() == cs.len() + 1,
        feeds[0] == t2,
        forall|i: int| 0 <= i < cs.len() ==> BlockTracker::feed_output_post(
            &#[trigger] feeds[i],
            &feeds[i + 1],
            cs[i],
        ),
        BlockTracker::command_end_post(&feeds.last(), &t4, exit_code),
    ensures
        t4.history_view().len() == t0.history_view().len() + 1,
        t4.history_view().drop_last() == t0.history_view(),
        t4.completed_view() == t0.completed_view().push(t4.history_view().last()),
        t4.history_view().last().command@ == trim_seq(
            g.text_between((row as nat, col as nat), (g.cursor_row, g.cursor_col)),
        ),
        t4.history_view().last().output@ == captured(cs),
        t4.history_view().last().exit_code == exit_code,
        t4.history_view().last().cwd == t0.cwd(),
        vstd::utf8::encode_utf8(cs).len() <= MAX_OUTPUT ==> t4.history_view().last().output@ == cs,
        t4.open_block() is None,
        t4.command_mark() is None,
{
    lemma_feeds(t2, feeds, cs, cs.len() as int);
    assert(cs.take(cs.len() as int) =~= cs);
    assert(feeds.last() == feeds[cs.len() as int]);
    if vstd::utf8::encode_utf8(cs).len() <= MAX_OUTPUT {
        lemma_captured_whole(cs);
    }
}

/// The scheme every OSC 7 payload is expected to carry.
pub open spec fn file_scheme() -> Seq<char> {
    seq!['f', 'i', 'l', 'e', ':', '/', '/']
}

/// The directory an OSC 7 payload names: for `file://host/path`, the `/path`
/// after the host; otherwise (no scheme, or no `/` after the host) the whole
/// payload.
pub open spec fn cwd_of_uri(s: Seq<char>) -> Seq<char> {
    if is_prefix(file_scheme(), s) {
        let rest = s.subrange(7, s.len() as int);
        if exists|i: int| 0 <= i < rest.len() && rest[i] == '/' {
            let i = choose|i: int|
                0 <= i < rest.len() && rest[i] == '/' && forall|j: int| 0 <= j < i ==> rest[j] != '/';
            rest.subrange(i, rest.len() as int)
        } else {
            s
        }
    } else {
        s
    }
}

fn cwd_from_chars(v: &[char]) -> (r: String)
    ensures
        r@ == cwd_of_uri(v@),
{
    let scheme = ['f', 'i', 'l', 'e', ':', '/', '/'];
    assert(scheme@ =~= file_scheme());
    assert(v@.subrange(0, v@.len() as int) =~= v@);
    if crate::text::starts_with_at(v, 0, &scheme) {
        let ghost rest = v@.subrange(7, v@.len() as int);
        let mut i: usize = 7;
        while i < v.len()
            invariant
                7 <= i <= v@.len(),
                is_prefix(file_scheme(), v@),
                rest == v@.subrange(7, v@.len() as int),
                forall|j: int| 0 <= j < i - 7 ==> rest[j] != '/',
            decreases v.len() - i,
        {
            if v[i] == '/' {
                let ghost k = (i - 7) as int;
                proof {
                    assert(rest[k] == '/');
                    let c = choose|c: int|
                        0 <= c < rest.len() && rest[c] == '/' && forall|j: int| 0 <= j < c ==> rest[j] != '/';
                    assert(c == k) by {
                        if c < k {
                            assert(rest[c] != '/');
                        } else if c > k {
                            assert(rest[k] != '/');
                        }
                    }
                }
                let mut r = String::new();
                crate::text::push_chars(&mut r, v, i, v.len());
                assert(rest.subrange(k, rest.len() as int) =~= v@.subrange(i as int, v@.len() as int));
                return r;
            }
            i += 1;
        }
        assert(!exists|i: int| 0 <= i < rest.len() && rest[i] == '/');
        crate::text::string_of(v)
    } else {
        crate::text::string_of(v)
    }
}

// --- base64 ---------------------------------------------------------------

/// The 6-bit value of a standard base64 symbol.
pub open spec fn b64_value(c: u8) -> Option<u32> {
    if 65 <= c <= 90 {
        Some((c - 65) as u32)
    } else if 97 <= c <= 122 {
        Some((c - 97 + 26) as u32)
    } else if 48 <= c <= 57 {
        Some((c - 48 + 52) as u32)
    } else if c == 43 {
        Some(62)
    } else if c == 47 {
        Some(63)
    } else {
        None
    }
}

/// Padding and line breaks, which the decoder skips.
pub open spec fn b64_skipped(c: u8) -> bool {
    c == 61 || c == 10 || c == 13
}

pub open spec fn pow2_small(k: nat) -> nat {
    if k == 0 {
        1
    } else if k == 2 {
        4
    } else if k == 4 {
        16
    } else {
        64
    }
}

/// Decoding `input` given `bits` leftover bits of value `acc`: every symbol
/// adds 6 bits, and a byte is emitted (the top 8 of the pending bits) as soon
/// as 8 are pending. `None` at the first symbol that is not base64.
pub open spec fn b64_decode_from(input: Seq<u8>, acc: nat, bits: nat) -> Option<Seq<u8>>
    decreases input.len(),
{
    if input.len() == 0 {
        Some(Seq::empty())
    } else if b64_skipped(input[0]) {
        b64_decode_from(input.drop_first(), acc, bits)
    } else {
        match b64_value(input[0]) {
            None => None,
            Some(v) => {
                let acc1: nat = acc * 64 + v as nat;
                let bits1 = bits + 6;
                if bits1 >= 8 {
                    let k = (bits1 - 8) as nat;
                    match b64_decode_from(input.drop_first(), acc1 % pow2_small(k), k) {
                        None => None,
                        Some(rest) => Some(seq![(acc1 / pow2_small(k)) as u8] + rest),
                    }
                } else {
                    b64_decode_from(input.drop_first(), acc1, bits1)
                }
            },
        }
    }
}

/// The bytes of standard base64 `input` (padding and CR/LF ignored), or `None`
/// if it holds any other byte.
pub open spec fn b64_decode(input: Seq<u8>) -> Option<Seq<u8>> {
    b64_decode_from(input, 0, 0)
}

fn b64_val(c: u8) -> (r: Option<u32>)
    ensures
        r == b64_value(c),
{
    if 65u8 <= c && c <= 90u8 {
        Some((c - 65u8) as u32)
    } else if 97u8 <= c && c <= 122u8 {
        Some((c - 97u8 + 26) as u32)
    } else if 48u8 <= c && c <= 57u8 {
        Some((c - 48u8 + 52) as u32)
    } else if c == 43u8 {
        Some(62)
    } else if c == 47u8 {
        Some(63)
    } else {
        None
    }
}

/// The standard base64 symbol for a 6-bit value.
pub open spec fn b64_symbol(v: nat) -> u8 {
    if v < 26 {
        (65 + v) as u8
    } else if v < 52 {
        (97 + v - 26) as u8
    } else if v < 62 {
        (48 + v - 52) as u8
    } else if v == 62 {
        43
    } else {
        47
    }
}

/// The standard base64 encoding of `s`: each three bytes as four symbols, a
/// short last group padded with `=`.
pub open spec fn b64_encode(s: Seq<u8>) -> Seq<u8>
    decreases s.len(),
{
    if s.len() >= 3 {
        let (a, b, c) = (s[0] as nat, s[1] as nat, s[2] as nat);
        seq![
            b64_symbol(a / 4),
            b64_symbol((a % 4) * 16 + b / 16),
            b64_symbol((b % 16) * 4 + c / 64),
            b64_symbol(c % 64),
        ] + b64_encode(s.skip(3))
    } else if s.len() == 2 {
        let (a, b) = (s[0] as nat, s[1] as nat);
        seq![b64_symbol(a / 4), b64_symbol((a % 4) * 16 + b / 16), b64_symbol((b % 16) * 4), 61u8]
    } else if s.len() == 1 {
        let a = s[0] as nat;
        seq![b64_symbol(a / 4), b64_symbol((a % 4) * 16), 61u8, 61u8]
    } else {
        Seq::empty()
    }
}

proof fn lemma_symbol(v: nat)
    requires
        v < 64,
    ensures
        b64_value(b64_symbol(v)) == Some(v as u32),
        !b64_skipped(b64_symbol(v)),
{
}

/// One decoding step on a symbol of value `v` from a state with fewer than
/// 8 pending bits that reaches 8 or more.
proof fn lemma_step_emit(x: u8, rest: Seq<u8>, acc: nat, bits: nat, v: nat)
    requires
        v < 64,
        x == b64_symbol(v),
        bits + 6 >= 8,
        bits + 6 <= 14,
        bits == 2 || bits == 4 || bits == 6,
    ensures
        b64_decode_from(seq![x] + rest, acc, bits) == ({
            let acc1 = acc * 64 + v;
            let k = (bits + 6 - 8) as nat;
            match b64_decode_from(rest, acc1 % pow2_small(k), k) {
                None => None,
                Some(r) => Some(seq![(acc1 / pow2_small(k)) as u8] + r),
            }
        }),
{
    lemma_symbol(v);
    assert((seq![x] + rest)[0] == x);
    assert((seq![x] + rest).drop_first() =~= rest);
}

/// Decoding a full group of four symbols gives back its three bytes.
proof fn lemma_decode_group(a: nat, b: nat, c: nat, rest: Seq<u8>)
    requires
        a < 256,
        b < 256,
        c < 256,
    ensures
        b64_decode_from(
            seq![
                b64_symbol(a / 4),
                b64_symbol((a % 4) * 16 + b / 16),
                b64_symbol((b % 16) * 4 + c / 64),
                b64_symbol(c % 64),
            ] + rest,
            0,
            0,
        ) == match b64_decode_from(rest, 0, 0) {
            None => None,
            Some(r) => Some(seq![a as u8, b as u8, c as u8] + r),
        },
{
    let (x0, x1, x2, x3) = (
        b64_symbol(a / 4),
        b64_symbol((a % 4) * 16 + b / 16),
        b64_symbol((b % 16) * 4 + c / 64),
        b64_symbol(c % 64),
    );
    let r3 = seq![x3] + rest;
    let r2 = seq![x2] + r3;
    let r1 = seq![x1] + r2;
    assert(seq![x0, x1, x2, x3] + rest =~= seq![x0] + r1);
    // The first symbol only fills bits.
    lemma_symbol(a / 4);
    assert((seq![x0] + r1)[0] == x0);
    assert((seq![x0] + r1).drop_first() =~= r1);
    assert(b64_decode_from(seq![x0] + r1, 0, 0) == b64_decode_from(r1, a / 4, 6));
    // The second emits `a`, keeping the low nibble of `b`.
    lemma_step_emit(x1, r2, a / 4, 6, (a % 4) * 16 + b / 16);
    assert((a / 4) * 64 + ((a % 4) * 16 + b / 16) == a * 16 + b / 16);
    assert((a * 16 + b / 16) / 16 == a) by (nonlinear_arith)
        requires
            b < 256,
    ;
    assert((a * 16 + b / 16) % 16 == b / 16) by (nonlinear_arith)
        requires
            b < 256,
    ;
    // The third emits `b`, keeping the top two bits of `c`.
    lemma_step_emit(x2, r3, b / 16, 4, (b % 16) * 4 + c / 64);
    assert((b / 16) * 64 + ((b % 16) * 4 + c / 64) == b * 4 + c / 64);
    assert((b * 4 + c / 64) / 4 == b) by (nonlinear_arith)
        requires
            c < 256,
    ;
    assert((b * 4 + c / 64) % 4 == c / 64) by (nonlinear_arith)
        requires
            c < 256,
    ;
    // The fourth emits `c`, leaving nothing pending.
    lemma_step_emit(x3, rest, c / 64, 2, c % 64);
    assert((c / 64) * 64 + c % 64 == c);
    match b64_decode_from(rest, 0, 0) {
        None => {},
        Some(r) => {
            assert(seq![a as u8] + (seq![b as u8] + (seq![c as u8] + r)) =~= seq![a as u8, b as u8, c as u8]
                + r);
        },
    }
}

/// Padding decodes to nothing.
proof fn lemma_decode_padding(n: nat, acc: nat, bits: nat)
    ensures
        b64_decode_from(Seq::new(n, |i: int| 61u8), acc, bits) == Some(Seq::<u8>::empty()),
    decreases n,
{
    if n > 0 {
        let p = Seq::new(n, |i: int| 61u8);
        assert(p.drop_first() =~= Seq::new((n - 1) as nat, |i: int| 61u8));
        lemma_decode_padding((n - 1) as nat, acc, bits);
    }
}

/// Decoding the base64 encoding of any bytes gives them back.
pub proof fn law_base64_round_trip(s: Seq<u8>)
    ensures
        b64_decode(b64_encode(s)) == Some(s),
    decreases s.len(),
{
    if s.len() >= 3 {
        let (a, b, c) = (s[0] as nat, s[1] as nat, s[2] as nat);
        law_base64_round_trip(s.skip(3));
        lemma_decode_group(a, b, c, b64_encode(s.skip(3)));
        assert(seq![s[0], s[1], s[2]] + s.skip(3) =~= s);
    } else if s.len() == 2 {
        let (a, b) = (s[0] as nat, s[1] as nat);
        let pad = Seq::new(1, |i: int| 61u8);
        assert(seq![61u8] =~= pad);
        let x0 = b64_symbol(a / 4);
        let x1 = b64_symbol((a % 4) * 16 + b / 16);
        let x2 = b64_symbol((b % 16) * 4);
        let r2 = seq![x2] + pad;
        let r1 = seq![x1] + r2;
        assert(b64_encode(s) =~= seq![x0] + r1);
        lemma_symbol(a / 4);
        assert((seq![x0] + r1).drop_first() =~= r1);
        lemma_step_emit(x1, r2, a / 4, 6, (a % 4) * 16 + b / 16);
        assert((a / 4) * 64 + ((a % 4) * 16 + b / 16) == a * 16 + b / 16);
        assert((a * 16 + b / 16) / 16 == a) by (nonlinear_arith)
            requires
                b < 256,
        ;
        assert((a * 16 + b / 16) % 16 == b / 16) by (nonlinear_arith)
            requires
                b < 256,
        ;
        lemma_step_emit(x2, pad, b / 16, 4, (b % 16) * 4);
        assert((b / 16) * 64 + (b % 16) * 4 == b * 4);
        lemma_decode_padding(1, (b * 4) % 4, 2);
        assert(seq![a as u8] + (seq![b as u8] + Seq::<u8>::empty()) =~= s);
    } else if s.len() == 1 {
        let a = s[0] as nat;
        let pad = Seq::new(2, |i: int| 61u8);
        assert(seq![61u8, 61u8] =~= pad);
        let x0 = b64_symbol(a / 4);
        let x1 = b64_symbol((a % 4) * 16);
        let r1 = seq![x1] + pad;
        assert(b64_encode(s) =~= seq![x0] + r1);
        lemma_symbol(a / 4);
        assert((seq![x0] + r1).drop_first() =~= r1);
        lemma_step_emit(x1, pad, a / 4, 6, (a % 4) * 16);
        assert((a / 4) * 64 + (a % 4) * 16 == a * 16);
        lemma_decode_padding(2, (a * 16) % 16, 4);
        assert(seq![a as u8] + Seq::<u8>::empty() =~= s);
    } else {
        assert(b64_encode(s) =~= Seq::<u8>::empty());
        assert(s =~= Seq::<u8>::empty());
    }
}

/// A line break (or padding) inserted anywhere in the input changes nothing
/// of what it decodes to, so wrapped base64 decodes as the unwrapped one.
pub proof fn law_base64_ignores_line_breaks(a: Seq<u8>, sep: u8, b: Seq<u8>, acc: nat, bits: nat)
    requires
        b64_skipped(sep),
    ensures
        b64_decode_from(a + seq![sep] + b, acc, bits) == b64_decode_from(a + b, acc, bits),
    decreases a.len(),
{
    if a.len() == 0 {
        assert(a + seq![sep] + b =~= seq![sep] + b);
        assert((seq![sep] + b).drop_first() =~= b);
        assert(a + b =~= b);
    } else {
        let t = a.drop_first();
        assert((a + seq![sep] + b).drop_first() =~= t + seq![sep] + b);
        assert((a + b).drop_first() =~= t + b);
        assert((a + seq![sep] + b)[0] == a[0]);
        assert((a + b)[0] == a[0]);
        if !b64_skipped(a[0]) {
            match b64_value(a[0]) {
                None => {},
                Some(v) => {
                    let acc1: nat = acc * 64 + v as nat;
                    let bits1 = bits + 6;
                    if bits1 >= 8 {
                        let k = (bits1 - 8) as nat;
                        law_base64_ignores_line_breaks(t, sep, b, acc1 % pow2_small(k), k);
                    } else {
                        law_base64_ignores_line_breaks(t, sep, b, acc1, bits1);
                    }
                },
            }
        } else {
            law_base64_ignores_line_breaks(t, sep, b, acc, bits);
        }
    }
}

/// Input holding a byte that is neither a base64 symbol nor padding or a line
/// break does not decode.
pub proof fn law_base64_rejects_foreign_bytes(input: Seq<u8>, acc: nat, bits: nat, i: int)
    requires
        0 <= i < input.len(),
        b64_value(input[i]) is None,
        !b64_skipped(input[i]),
    ensures
        b64_decode_from(input, acc, bits) is None,
    decreases input.len(),
{
    if i > 0 {
        let rest = input.drop_first();
        assert(rest[i - 1] == input[i]);
        if !b64_skipped(input[0]) {
            match b64_value(input[0]) {
                None => {},
                Some(v) => {
                    let acc1: nat = acc * 64 + v as nat;
                    let bits1 = bits + 6;
                    if bits1 >= 8 {
                        let k = (bits1 - 8) as nat;
                        law_base64_rejects_foreign_bytes(rest, acc1 % pow2_small(k), k, i - 1);
                    } else {
                        law_base64_rejects_foreign_bytes(rest, acc1, bits1, i - 1);
                    }
                },
            }
        } else {
            law_base64_rejects_foreign_bytes(rest, acc, bits, i - 1);
        }
    }
}

/// Minimal standard-base64 decoder.
pub fn base64_decode(input: &[u8]) -> (r: Option<Vec<u8>>)
    ensures
        match r {
            Some(v) => b64_decode(input@) == Some(v@),
            None => b64_decode(input@) is None,
        },
{
    let mut out: Vec<u8> = Vec::new();
    let mut buf: u32 = 0;
    let mut bits: u32 = 0;
    let mut i: usize = 0;
    proof {
        assert(input@.subrange(0, input@.len() as int) =~= input@);
        match b64_decode_from(input@, 0, 0) {
            Some(r) => assert(out@ + r =~= r),
            None => {},
        }
    }
    while i < input.len()
        invariant
            i <= input@.len(),
            bits == 0 || bits == 2 || bits == 4 || bits == 6,
            buf < pow2_small(bits as nat),
            b64_decode(input@) == match b64_decode_from(input@.subrange(i as int, input@.len() as int), buf as nat, bits as nat) {
                Some(rest) => Some(out@ + rest),
                None => None,
            },
        decreases input.len() - i,
    {
        let c = input[i];
        let ghost tail = input@.subrange(i as int, input@.len() as int);
        assert(tail.drop_first() =~= input@.subrange(i + 1, input@.len() as int));
        if c == 61u8 || c == 10u8 || c == 13u8 {
            i += 1;
            continue;
        }
        let v = match b64_val(c) {
            Some(v) => v,
            None => {
                return None;
            },
        };
        buf = buf * 64 + v;
        bits = bits + 6;
        if bits >= 8 {
            bits = bits - 8;
            let d: u32 = if bits == 0 { 1 } else if bits == 2 { 4 } else { 16 };
            let byte = (buf / d) as u8;
            let ghost out0 = out@;
            out.push(byte);
            buf = buf % d;
            proof {
                let rest = b64_decode_from(input@.subrange(i + 1, input@.len() as int), buf as nat, bits as nat);
                match rest {
                    Some(r) => assert(out0 + (seq![byte] + r) =~= out@ + r),
                    None => {},
                }
            }
        }
        i += 1;
    }
    assert(input@.subrange(i as int, input@.len() as int) =~= Seq::<u8>::empty());
    assert(out@ + Seq::<u8>::empty() =~= out@);
    Some(out)
}

/// Decode a base64 OSC payload into a command string (the shell sends the exact
/// command base64-encoded so arbitrary characters survive the OSC channel).
/// `None` if the payload is not base64 or the bytes are not UTF-8.
pub fn decode_command(payload: &[u8]) -> (r: Option<String>)
    ensures
        r is Some <==> (b64_decode(payload@) matches Some(b) && valid_utf8(b)),
        r matches Some(s) ==> s@ == decode_utf8(b64_decode(payload@)->0),
{
    match base64_decode(payload) {
        None => None,
        Some(bytes) => utf8_string(bytes.as_slice()),
    }
}

/// An OSC 7 payload `file://host/path` names the directory `/path`, whatever
/// the host (which holds no `/`); a payload without the `file://` scheme, or
/// with no `/` after the host, names itself.
pub proof fn law_cwd_is_the_path_after_the_host(host: Seq<char>, path: Seq<char>, other: Seq<char>)
    requires
        forall|i: int| 0 <= i < host.len() ==> host[i] != '/',
    ensures
        cwd_of_uri(file_scheme() + host + seq!['/'] + path) == seq!['/'] + path,
        !is_prefix(file_scheme(), other) ==> cwd_of_uri(other) == other,
        cwd_of_uri(file_scheme() + host) == file_scheme() + host,
{
    let s = file_scheme() + host + seq!['/'] + path;
    assert(s.subrange(0, 7) =~= file_scheme());
    let rest = s.subrange(7, s.len() as int);
    assert(rest =~= host + seq!['/'] + path);
    let k = host.len() as int;
    assert(rest[k] == '/');
    let c = choose|c: int| 0 <= c < rest.len() && rest[c] == '/' && forall|j: int| 0 <= j < c ==> rest[j] != '/';
    assert(c == k) by {
        if c < k {
            assert(rest[c] == host[c]);
        } else if c > k {
            assert(rest[k] != '/');
        }
    }
    assert(rest.subrange(k, rest.len() as int) =~= seq!['/'] + path);
    let t = file_scheme() + host;
    assert(t.subrange(0, 7) =~= file_scheme());
    let trest = t.subrange(7, t.len() as int);
    assert(trest =~= host);
    assert(!exists|i: int| 0 <= i < trest.len() && trest[i] == '/');
}

} // verus!
