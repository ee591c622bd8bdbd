//! Character-level string helpers shared by the rest of the library, and the
//! std string operations it relies on.

use vstd::prelude::*;

verus! {

/// What `str::to_lowercase` returns for a string (Unicode lowercase mapping,
/// independent of locale).
pub uninterp spec fn lowercase(s: Seq<char>) -> Seq<char>;

/// Whether a char has the Unicode `White_Space` property (`char::is_whitespace`):
/// the code points the Unicode Character Database lists under that property.
pub open spec fn is_white_space(c: char) -> bool {
    let u = c as u32;
    ||| 0x09 <= u <= 0x0d
    ||| u == 0x20
    ||| u == 0x85
    ||| u == 0xa0
    ||| u == 0x1680
    ||| 0x2000 <= u <= 0x200a
    ||| u == 0x2028
    ||| u == 0x2029
    ||| u == 0x202f
    ||| u == 0x205f
    ||| u == 0x3000
}

/// `String::push` appends one char.
pub assume_specification[ String::push ](string: &mut String, ch: char)
    ensures
        final(string)@ == old(string)@.push(ch),
;

/// `str::to_lowercase` returns the Unicode lowercase of its argument, char by
/// char, each char giving one or more; the mapping itself is not written out
/// here, only named. So the result is empty exactly when the argument is.
pub assume_specification[ str::to_lowercase ](s: &str) -> (r: String)
    ensures
        r@ == lowercase(s@),
        r@.len() == 0 <==> s@.len() == 0,
;

/// Whether a char has the Unicode `White_Space` property (what
/// `char::is_whitespace` tests).
pub fn is_white_space_char(c: char) -> (b: bool)
    ensures
        b == is_white_space(c),
{
    let u = c as u32;
    (0x09 <= u && u <= 0x0d) || u == 0x20 || u == 0x85 || u == 0xa0 || u == 0x1680 || (0x2000 <= u && u
        <= 0x200a) || u == 0x2028 || u == 0x2029 || u == 0x202f || u == 0x205f || u == 0x3000
}

/// `s` with trailing white space removed (what `str::trim_end` gives).
pub open spec fn trim_end_seq(s: Seq<char>) -> Seq<char>
    decreases s.len(),
{
    if s.len() > 0 && is_white_space(s.last()) {
        trim_end_seq(s.drop_last())
    } else {
        s
    }
}

/// `s` with leading white space removed (what `str::trim_start` gives).
pub open spec fn trim_start_seq(s: Seq<char>) -> Seq<char>
    decreases s.len(),
{
    if s.len() > 0 && is_white_space(s[0]) {
        trim_start_seq(s.drop_first())
    } else {
        s
    }
}

/// `s` with white space removed at both ends (what `str::trim` gives).
pub open spec fn trim_seq(s: Seq<char>) -> Seq<char> {
    trim_end_seq(trim_start_seq(s))
}

/// The chars of a string, in order.
pub fn chars_of(s: &str) -> (v: Vec<char>)
    ensures
        v@ == s@,
{
    let mut v: Vec<char> = Vec::new();
    for c in it: s.chars()
        invariant
            v@ == it.seq().subrange(0, it.index() as int),
            it.seq() == s@,
    {
        v.push(c);
    }
    v
}

/// A string made of the given chars.
pub fn string_of(v: &[char]) -> (s: String)
    ensures
        s@ == v@,
{
    let mut s = String::new();
    let mut i: usize = 0;
    while i < v.len()
        invariant
            i <= v.len(),
            s@ == v@.subrange(0, i as int),
        decreases v.len() - i,
    {
        s.push(v[i]);
        i += 1;
    }
    s
}

/// Append the chars `v[from..to]` to `s`.
pub fn push_chars(s: &mut String, v: &[char], from: usize, to: usize)
    requires
        from <= to <= v@.len(),
    ensures
        final(s)@ == old(s)@ + v@.subrange(from as int, to as int),
{
    let mut i = from;
    while i < to
        invariant
            from <= i <= to <= v@.len(),
            s@ == old(s)@ + v@.subrange(from as int, i as int),
        decreases to - i,
    {
        s.push(v[i]);
        i += 1;
        assert(v@.subrange(from as int, i as int) == v@.subrange(from as int, i - 1).push(v@[i - 1]));
    }
}

/// Append all of `t` to `s`.
pub fn push_str(s: &mut String, t: &str)
    ensures
        final(s)@ == old(s)@ + t@,
{
    let v = chars_of(t);
    push_chars(s, v.as_slice(), 0, v.len());
    assert(v@.subrange(0, v@.len() as int) == v@);
}

/// Length of `v` once trailing white space is dropped.
pub fn trim_end_len(v: &[char], end: usize) -> (n: usize)
    requires
        end <= v@.len(),
    ensures
        n <= end,
        v@.subrange(0, n as int) == trim_end_seq(v@.subrange(0, end as int)),
    decreases end,
{
    if end > 0 && is_white_space_char(v[end - 1]) {
        assert(v@.subrange(0, end as int).drop_last() == v@.subrange(0, end - 1));
        trim_end_len(v, end - 1)
    } else {
        end
    }
}

/// Index of the first char of `v[from..end]` that is not white space (or `end`).
pub fn trim_start_index(v: &[char], from: usize, end: usize) -> (k: usize)
    requires
        from <= end <= v@.len(),
    ensures
        from <= k <= end,
        v@.subrange(k as int, end as int) == trim_start_seq(v@.subrange(from as int, end as int)),
    decreases end - from,
{
    if from < end && is_white_space_char(v[from]) {
        assert(v@.subrange(from as int, end as int).drop_first() == v@.subrange(from + 1, end as int));
        trim_start_index(v, from + 1, end)
    } else {
        from
    }
}

/// `s` with trailing white space removed.
pub fn trim_end_string(s: &str) -> (r: String)
    ensures
        r@ == trim_end_seq(s@),
{
    let v = chars_of(s);
    let n = trim_end_len(v.as_slice(), v.len());
    assert(v@.subrange(0, v@.len() as int) == v@);
    let mut r = String::new();
    push_chars(&mut r, v.as_slice(), 0, n);
    r
}

/// `s` with white space removed at both ends.
pub fn trim_string(s: &str) -> (r: String)
    ensures
        r@ == trim_seq(s@),
{
    let v = chars_of(s);
    assert(v@.subrange(0, v@.len() as int) == v@);
    let k = trim_start_index(v.as_slice(), 0, v.len());
    let n = trim_end_len_from(v.as_slice(), k, v.len());
    let mut r = String::new();
    push_chars(&mut r, v.as_slice(), k, n);
    r
}

/// End index of `v[from..end]` once trailing white space is dropped.
pub fn trim_end_len_from(v: &[char], from: usize, end: usize) -> (n: usize)
    requires
        from <= end <= v@.len(),
    ensures
        from <= n <= end,
        v@.subrange(from as int, n as int) == trim_end_seq(v@.subrange(from as int, end as int)),
    decreases end - from,
{
    if end > from && is_white_space_char(v[end - 1]) {
        assert(v@.subrange(from as int, end as int).drop_last() == v@.subrange(from as int, end - 1));
        trim_end_len_from(v, from, end - 1)
    } else {
        end
    }
}

/// Whether two char sequences are equal.
pub fn chars_eq(a: &[char], b: &[char]) -> (r: bool)
    ensures
        r == (a@ == b@),
{
    if a.len() != b.len() {
        return false;
    }
    let mut i: usize = 0;
    while i < a.len()
        invariant
            i <= a@.len(),
            a@.len() == b@.len(),
            forall|j: int| 0 <= j < i ==> a@[j] == b@[j],
        decreases a.len() - i,
    {
        if a[i] != b[i] {
            return false;
        }
        i += 1;
    }
    assert(a@ =~= b@);
    true
}

/// Whether two strings hold the same chars.
pub fn str_eq(a: &str, b: &str) -> (r: bool)
    ensures
        r == (a@ == b@),
{
    let va = chars_of(a);
    let vb = chars_of(b);
    chars_eq(va.as_slice(), vb.as_slice())
}

/// Whether `p` is a prefix of `s`.
pub open spec fn is_prefix(p: Seq<char>, s: Seq<char>) -> bool {
    p.len() <= s.len() && s.subrange(0, p.len() as int) == p
}

/// Whether `v[at..]` starts with `p`.
pub fn starts_with_at(v: &[char], at: usize, p: &[char]) -> (r: bool)
    requires
        at <= v@.len(),
    ensures
        r == is_prefix(p@, v@.subrange(at as int, v@.len() as int)),
{
    if p.len() > v.len() - at {
        return false;
    }
    let mut i: usize = 0;
    while i < p.len()
        invariant
            i <= p@.len(),
            at + p@.len() <= v@.len(),
            v@.len() <= usize::MAX,
            forall|j: int| 0 <= j < i ==> v@[at + j] == p@[j],
        decreases p.len() - i,
    {
        if v[at + i] != p[i] {
            assert(v@.subrange(at as int, v@.len() as int).subrange(0, p@.len() as int)[i as int] != p@[i as int]);
            return false;
        }
        i += 1;
    }
    assert(v@.subrange(at as int, v@.len() as int).subrange(0, p@.len() as int) =~= p@);
    true
}

/// Whether `q` occurs in `hay` as a contiguous run.
pub open spec fn has_sub(hay: Seq<char>, q: Seq<char>) -> bool {
    exists|k: int| 0 <= k && k + q.len() <= hay.len() && #[trigger] hay.subrange(k, k + q.len()) == q
}

/// Whether `q` occurs in `hay` as a contiguous run.
pub fn contains_chars(hay: &[char], q: &[char]) -> (r: bool)
    ensures
        r == has_sub(hay@, q@),
{
    if q.len() > hay.len() {
        return false;
    }
    if q.len() == 0 {
        let ghost z: int = 0;
        assert(hay@.subrange(z, z + q@.len()) =~= q@);
        return true;
    }
    let mut k: usize = 0;
    while k <= hay.len() - q.len()
        invariant
            0 < q@.len() <= hay@.len(),
            k <= hay@.len() - q@.len() + 1,
            forall|j: int| 0 <= j < k ==> #[trigger] hay@.subrange(j, j + q@.len()) != q@,
        decreases hay.len() - q.len() + 1 - k,
    {
        if starts_with_at(hay, k, q) {
            assert(hay@.subrange(k as int, hay@.len() as int).subrange(0, q@.len() as int)
                =~= hay@.subrange(k as int, k + q@.len()));
            return true;
        }
        assert(hay@.subrange(k as int, hay@.len() as int).subrange(0, q@.len() as int)
            =~= hay@.subrange(k as int, k + q@.len()));
        k += 1;
    }
    false
}

/// Trimming the end keeps a prefix of the text and drops only white space:
/// what is kept does not end in white space, and all that is dropped is
/// white space.
pub proof fn law_trim_end_drops_trailing_space(s: Seq<char>)
    ensures
        ({
            let t = trim_end_seq(s);
            &&& t.len() <= s.len()
            &&& t == s.subrange(0, t.len() as int)
            &&& (t.len() == 0 || !is_white_space(t.last()))
            &&& forall|i: int| t.len() <= i < s.len() ==> is_white_space(#[trigger] s[i])
        }),
    decreases s.len(),
{
    if s.len() > 0 && is_white_space(s.last()) {
        law_trim_end_drops_trailing_space(s.drop_last());
        let t = trim_end_seq(s);
        assert(t == s.drop_last().subrange(0, t.len() as int));
        assert(t =~= s.subrange(0, t.len() as int));
        assert forall|i: int| t.len() <= i < s.len() implies is_white_space(#[trigger] s[i]) by {
            if i < s.len() - 1 {
                assert(s[i] == s.drop_last()[i]);
            }
        }
    } else {
        assert(s.subrange(0, s.len() as int) =~= s);
    }
}

/// Trimming the start keeps a suffix of the text and drops only white
/// space: what is kept does not start with white space, and all that is
/// dropped is white space.
pub proof fn law_trim_start_drops_leading_space(s: Seq<char>)
    ensures
        ({
            let t = trim_start_seq(s);
            let d = s.len() - t.len();
            &&& t.len() <= s.len()
            &&& t == s.subrange(d, s.len() as int)
            &&& (t.len() == 0 || !is_white_space(t[0]))
            &&& forall|i: int| 0 <= i < d ==> is_white_space(#[trigger] s[i])
        }),
    decreases s.len(),
{
    if s.len() > 0 && is_white_space(s[0]) {
        law_trim_start_drops_leading_space(s.drop_first());
        let t = trim_start_seq(s);
        let d = s.len() - t.len();
        assert(t == s.drop_first().subrange(d - 1, s.len() - 1));
        assert(t =~= s.subrange(d, s.len() as int));
        assert forall|i: int| 0 <= i < d implies is_white_space(#[trigger] s[i]) by {
            if i > 0 {
                assert(s[i] == s.drop_first()[i - 1]);
            }
        }
    } else {
        assert(s.subrange(0, s.len() as int) =~= s);
    }
}

} // verus!
