//! Configuration: the list of plugins to launch. Two sources, merged: the
//! explicit entries of `plugins.toml` (each a full launch command), then every
//! file dropped into the `plugins/` directory — run directly when executable,
//! else through the interpreter its extension names (`.py` → `python3`,
//! `.js` → `node`, `.sh` → `sh`). Reading the files and the directory happens
//! at startup; choosing and ordering the drop-ins happens here.

use vstd::prelude::*;
use crate::text::{chars_of, has_sub, push_str, str_eq, contains_chars};

verus! {

pub struct Config {
    pub plugin: Vec<PluginConfig>,
}

pub struct PluginConfig {
    pub command: String,
}

/// What `std::path::Path::extension` gives for a path: the part of its file
/// name after the final `.`, if it has one (not for a name beginning with its
/// only `.`).
pub uninterp spec fn path_extension(path: Seq<char>) -> Option<Seq<char>>;

/// `std::path::Path::extension` of a path given as text.
#[verifier::external_body]
fn extension_of(path: &str) -> (e: Option<String>)
    ensures
        match e {
            Some(x) => path_extension(path@) == Some(x@),
            None => path_extension(path@) is None,
        },
{
    match std::path::Path::new(path).extension() {
        Some(x) => x.to_str().map(|s| s.to_string()),
        None => None,
    }
}

/// The interpreter a file extension names.
pub open spec fn interpreter(ext: Seq<char>) -> Option<Seq<char>> {
    if ext == "py"@ {
        Some("python3"@)
    } else if ext == "js"@ {
        Some("node"@)
    } else if ext == "sh"@ {
        Some("sh"@)
    } else {
        None
    }
}

/// How a dropped file is launched: directly when executable (its shebang runs
/// it), else through its extension's interpreter; `None` when neither.
pub open spec fn command_for_spec(path: Seq<char>, executable: bool) -> Option<Seq<char>> {
    if executable {
        Some(path)
    } else {
        match path_extension(path) {
            Some(ext) => match interpreter(ext) {
                Some(i) => Some(i + seq![' '] + path),
                None => None,
            },
            None => None,
        }
    }
}

/// The launch command for a file with extension `ext`: the interpreter the
/// extension names, a space, and the path; `None` when no interpreter is
/// known for it.
pub fn interpreted_command(path: &str, ext: &str) -> (c: Option<String>)
    ensures
        match c {
            Some(s) => interpreter(ext@) matches Some(i) && s@ == i + seq![' '] + path@,
            None => interpreter(ext@) is None,
        },
{
    let interp: &str = if str_eq(ext, "py") {
        "python3"
    } else if str_eq(ext, "js") {
        "node"
    } else if str_eq(ext, "sh") {
        "sh"
    } else {
        return None;
    };
    let mut out = String::new();
    push_str(&mut out, interp);
    out.push(' ');
    push_str(&mut out, path);
    Some(out)
}

/// How to launch a dropped file: directly if executable, else via a known
/// extension's interpreter. `None` if we can't tell.
pub fn command_for(path: &str, executable: bool) -> (c: Option<String>)
    ensures
        match c {
            Some(s) => command_for_spec(path@, executable) == Some(s@),
            None => command_for_spec(path@, executable) is None,
        },
{
    if executable {
        return Some(path.to_owned());
    }
    match extension_of(path) {
        Some(e) => interpreted_command(path, e.as_str()),
        None => None,
    }
}

/// A directory entry of the drop-in directory.
pub struct DropEntry {
    /// The entry's file name.
    pub name: String,
    /// Its full path.
    pub path: String,
    /// Whether it is a regular file.
    pub is_file: bool,
    /// Whether it has an execute permission bit.
    pub executable: bool,
}

/// Lexicographic order on char sequences (the order of `str`'s bytes).
pub open spec fn seq_lt(a: Seq<char>, b: Seq<char>) -> bool
    decreases a.len(),
{
    if a.len() == 0 {
        b.len() > 0
    } else if b.len() == 0 {
        false
    } else if a[0] != b[0] {
        a[0] < b[0]
    } else {
        seq_lt(a.drop_first(), b.drop_first())
    }
}

fn str_lt(a: &str, b: &str) -> (r: bool)
    ensures
        r == seq_lt(a@, b@),
{
    let va = chars_of(a);
    let vb = chars_of(b);
    let mut i: usize = 0;
    assert(va@.skip(0) =~= va@);
    assert(vb@.skip(0) =~= vb@);
    while i < va.len() && i < vb.len() && va[i] == vb[i]
        invariant
            i <= va@.len(),
            i <= vb@.len(),
            seq_lt(a@, b@) == seq_lt(va@.skip(i as int), vb@.skip(i as int)),
            va@ == a@,
            vb@ == b@,
        decreases va.len() - i,
    {
        assert(va@.skip(i as int).drop_first() =~= va@.skip(i + 1));
        assert(vb@.skip(i as int).drop_first() =~= vb@.skip(i + 1));
        i += 1;
    }
    if i == va.len() {
        i < vb.len()
    } else if i == vb.len() {
        false
    } else {
        va[i] < vb[i]
    }
}

/// `s` (sorted) with `x` placed after every element not greater than it.
pub open spec fn insert_sorted(s: Seq<Seq<char>>, x: Seq<char>) -> Seq<Seq<char>>
    decreases s.len(),
{
    if s.len() == 0 {
        seq![x]
    } else if seq_lt(x, s[0]) {
        seq![x] + s
    } else {
        seq![s[0]] + insert_sorted(s.drop_first(), x)
    }
}

/// `s` sorted by insertion, equal elements keeping their order.
pub open spec fn sorted_by_insertion(s: Seq<Seq<char>>) -> Seq<Seq<char>>
    decreases s.len(),
{
    if s.len() == 0 {
        s
    } else {
        insert_sorted(sorted_by_insertion(s.drop_last()), s.last())
    }
}

/// `s` is in ascending order: no element is less than one before it.
pub open spec fn ascending(s: Seq<Seq<char>>) -> bool {
    forall|i: int, j: int| 0 <= i < j < s.len() ==> !seq_lt(#[trigger] s[j], #[trigger] s[i])
}

proof fn lemma_seq_lt_irreflexive(a: Seq<char>)
    ensures
        !seq_lt(a, a),
    decreases a.len(),
{
    if a.len() > 0 {
        lemma_seq_lt_irreflexive(a.drop_first());
    }
}

proof fn lemma_seq_lt_transitive(a: Seq<char>, b: Seq<char>, c: Seq<char>)
    requires
        seq_lt(a, b),
        seq_lt(b, c),
    ensures
        seq_lt(a, c),
    decreases a.len(),
{
    if a.len() > 0 && b.len() > 0 && c.len() > 0 && a[0] == b[0] && b[0] == c[0] {
        lemma_seq_lt_transitive(a.drop_first(), b.drop_first(), c.drop_first());
    }
}

proof fn lemma_insert_sorted(s: Seq<Seq<char>>, x: Seq<char>)
    requires
        ascending(s),
    ensures
        ascending(insert_sorted(s, x)),
        insert_sorted(s, x).to_multiset() =~= s.to_multiset().insert(x),
    decreases s.len(),
{
    broadcast use vstd::seq_lib::group_to_multiset_ensures, vstd::multiset::group_multiset_axioms;

    if s.len() == 0 {
        assert(Seq::<Seq<char>>::empty().push(x) =~= seq![x]);
        assert(s =~= Seq::<Seq<char>>::empty());
    } else if seq_lt(x, s[0]) {
        let r = seq![x] + s;
        assert forall|i: int, j: int| 0 <= i < j < r.len() implies !seq_lt(#[trigger] r[j], #[trigger] r[i]) by {
            if i == 0 {
                assert(r[j] == s[j - 1]);
                if seq_lt(s[j - 1], x) {
                    lemma_seq_lt_transitive(s[j - 1], x, s[0]);
                    if j - 1 == 0 {
                        lemma_seq_lt_irreflexive(s[0]);
                    } else {
                        assert(!seq_lt(s[j - 1], s[0]));
                    }
                }
            } else {
                assert(r[i] == s[i - 1] && r[j] == s[j - 1]);
            }
        }
        vstd::seq_lib::lemma_multiset_commutative(seq![x], s);
        assert(Seq::<Seq<char>>::empty().push(x) =~= seq![x]);
    } else {
        let rest = s.drop_first();
        assert forall|i: int, j: int| 0 <= i < j < rest.len() implies !seq_lt(#[trigger] rest[j], #[trigger] rest[i]) by {
            assert(rest[i] == s[i + 1] && rest[j] == s[j + 1]);
        }
        lemma_insert_sorted(rest, x);
        let t = insert_sorted(rest, x);
        let r = seq![s[0]] + t;
        assert forall|i: int, j: int| 0 <= i < j < r.len() implies !seq_lt(#[trigger] r[j], #[trigger] r[i]) by {
            if i == 0 {
                let e = r[j];
                assert(e == t[j - 1]);
                assert(t.contains(e));
                assert(t.to_multiset().count(e) > 0);
                if e != x {
                    assert(rest.to_multiset().count(e) > 0);
                    assert(rest.contains(e));
                    let k = choose|k: int| 0 <= k < rest.len() && rest[k] == e;
                    assert(s[k + 1] == e);
                }
            } else {
                assert(r[i] == t[i - 1] && r[j] == t[j - 1]);
            }
        }
        vstd::seq_lib::lemma_multiset_commutative(seq![s[0]], t);
        vstd::seq_lib::lemma_multiset_commutative(seq![s[0]], rest);
        assert(s =~= seq![s[0]] + rest);
    }
}

/// Sorting by insertion puts a list in ascending order and keeps each of its
/// elements, as often as it occurs.
pub proof fn law_sorted_by_insertion(s: Seq<Seq<char>>)
    ensures
        ascending(sorted_by_insertion(s)),
        sorted_by_insertion(s).to_multiset() == s.to_multiset(),
    decreases s.len(),
{
    broadcast use vstd::seq_lib::group_to_multiset_ensures;

    if s.len() > 0 {
        law_sorted_by_insertion(s.drop_last());
        lemma_insert_sorted(sorted_by_insertion(s.drop_last()), s.last());
        assert(s.drop_last().push(s.last()) =~= s);
    } else {
        assert(s.to_multiset() =~= vstd::multiset::Multiset::<Seq<char>>::empty());
    }
}

/// The launch commands of a list of plugin entries.
pub open spec fn commands_of(v: Seq<PluginConfig>) -> Seq<Seq<char>> {
    v.map_values(|p: PluginConfig| p.command@)
}

/// Whether some existing entry's command mentions `path` (so the file is
/// already launched through `plugins.toml`).
pub open spec fn already_listed(existing: Seq<PluginConfig>, path: Seq<char>) -> bool {
    exists|k: int| 0 <= k < existing.len() && has_sub(#[trigger] existing[k].command@, path)
}

/// The launch commands of the first `n` entries worth loading: regular files,
/// not hidden, not already listed, of a launchable kind, in directory order.
pub open spec fn drop_in_commands(existing: Seq<PluginConfig>, entries: Seq<DropEntry>, n: int) -> Seq<Seq<char>>
    decreases n,
{
    if n <= 0 {
        Seq::empty()
    } else {
        let prior = drop_in_commands(existing, entries, n - 1);
        let e = entries[n - 1];
        if e.is_file && !(e.name@.len() > 0 && e.name@[0] == '.') && !already_listed(existing, e.path@) {
            match command_for_spec(e.path@, e.executable) {
                Some(c) => prior.push(c),
                None => prior,
            }
        } else {
            prior
        }
    }
}

fn listed(existing: &Vec<PluginConfig>, path: &str) -> (b: bool)
    ensures
        b == already_listed(existing@, path@),
{
    let p = chars_of(path);
    let mut k: usize = 0;
    while k < existing.len()
        invariant
            k <= existing@.len(),
            p@ == path@,
            forall|j: int| 0 <= j < k ==> !has_sub(#[trigger] existing@[j].command@, path@),
        decreases existing.len() - k,
    {
        let c = chars_of(existing[k].command.as_str());
        if contains_chars(c.as_slice(), p.as_slice()) {
            return true;
        }
        k += 1;
    }
    false
}

/// Insert `cfg` into the sorted list `out` after every command not greater
/// than its own.
fn insert_by_command(out: &mut Vec<PluginConfig>, cfg: PluginConfig)
    ensures
        commands_of(final(out)@) == insert_sorted(commands_of(old(out)@), cfg.command@),
{
    let mut i: usize = 0;
    let ghost s = commands_of(out@);
    assert(s.skip(0) =~= s);
    while i < out.len() && !str_lt(cfg.command.as_str(), out[i].command.as_str())
        invariant
            i <= out@.len(),
            s == commands_of(out@),
            insert_sorted(s, cfg.command@) == s.take(i as int) + insert_sorted(s.skip(i as int), cfg.command@),
        decreases out.len() - i,
    {
        assert(s.skip(i as int).drop_first() =~= s.skip(i + 1));
        assert(s.take(i + 1) =~= s.take(i as int) + seq![s[i as int]]);
        assert(s.take(i as int) + insert_sorted(s.skip(i as int), cfg.command@) =~= s.take(i + 1)
            + insert_sorted(s.skip(i + 1), cfg.command@));
        i += 1;
    }
    let ghost x = cfg.command@;
    out.insert(i, cfg);
    assert(commands_of(out@) =~= s.take(i as int) + (seq![x] + s.skip(i as int)));
    proof {
        if i < s.len() {
            assert(insert_sorted(s.skip(i as int), x) == seq![x] + s.skip(i as int));
        } else {
            assert(s.skip(i as int) =~= Seq::<Seq<char>>::empty());
        }
    }
}

/// The drop-in plugins to launch from a directory listing: regular files that
/// are not hidden, not already mentioned by an existing entry's command, and
/// of a launchable kind, ordered by command.
pub fn select_drop_ins(existing: &Vec<PluginConfig>, entries: &Vec<DropEntry>) -> (out: Vec<PluginConfig>)
    ensures
        commands_of(out@) == sorted_by_insertion(drop_in_commands(existing@, entries@, entries@.len() as int)),
        ascending(commands_of(out@)),
        commands_of(out@).to_multiset() == drop_in_commands(existing@, entries@, entries@.len() as int).to_multiset(),
{
    let mut out: Vec<PluginConfig> = Vec::new();
    let mut n: usize = 0;
    assert(commands_of(out@) =~= Seq::<Seq<char>>::empty());
    while n < entries.len()
        invariant
            n <= entries@.len(),
            commands_of(out@) == sorted_by_insertion(drop_in_commands(existing@, entries@, n as int)),
        decreases entries.len() - n,
    {
        let e = &entries[n];
        let hidden = {
            let v = chars_of(e.name.as_str());
            v.len() > 0 && v[0] == '.'
        };
        if e.is_file && !hidden && !listed(existing, e.path.as_str()) {
            match command_for(e.path.as_str(), e.executable) {
                Some(command) => {
                    let ghost prior = drop_in_commands(existing@, entries@, n as int);
                    assert(prior.push(command@).drop_last() =~= prior);
                    insert_by_command(&mut out, PluginConfig { command });
                },
                None => {},
            }
        }
        n += 1;
    }
    proof {
        law_sorted_by_insertion(drop_in_commands(existing@, entries@, entries@.len() as int));
    }
    out
}

/// Whether a directory entry is worth launching as a drop-in: a regular file
/// whose name does not start with a dot and whose path no existing entry's
/// command mentions.
pub open spec fn worth_loading(existing: Seq<PluginConfig>, e: DropEntry) -> bool {
    &&& e.is_file
    &&& (e.name@.len() == 0 || e.name@[0] != '.')
    &&& !already_listed(existing, e.path@)
}

/// The drop-ins picked from a directory listing are exactly the commands of
/// the entries worth loading that have a launch command: each command comes
/// from such an entry, and each such entry contributes its command.
pub proof fn law_drop_ins_are_the_launchable_files(existing: Seq<PluginConfig>, entries: Seq<DropEntry>, n: int)
    requires
        0 <= n <= entries.len(),
    ensures
        forall|k: int|
            0 <= k < drop_in_commands(existing, entries, n).len() ==> exists|i: int|
                0 <= i < n && worth_loading(existing, entries[i]) && command_for_spec(entries[i].path@, entries[i].executable)
                    == Some(#[trigger] drop_in_commands(existing, entries, n)[k]),
        forall|i: int|
            0 <= i < n && worth_loading(existing, #[trigger] entries[i]) && command_for_spec(entries[i].path@, entries[i].executable) is Some
                ==> drop_in_commands(existing, entries, n).contains(
                command_for_spec(entries[i].path@, entries[i].executable)->0,
            ),
    decreases n,
{
    if n > 0 {
        law_drop_ins_are_the_launchable_files(existing, entries, n - 1);
        let prior = drop_in_commands(existing, entries, n - 1);
        let cur = drop_in_commands(existing, entries, n);
        let e = entries[n - 1];
        if worth_loading(existing, e) && command_for_spec(e.path@, e.executable) is Some {
            let c = command_for_spec(e.path@, e.executable)->0;
            assert(cur == prior.push(c));
            assert forall|k: int| 0 <= k < cur.len() implies exists|i: int|
                0 <= i < n && worth_loading(existing, entries[i]) && command_for_spec(entries[i].path@, entries[i].executable)
                    == Some(#[trigger] cur[k]) by {
                if k < prior.len() {
                    assert(cur[k] == prior[k]);
                } else {
                    assert(cur[k] == c);
                }
            }
            assert forall|i: int|
                0 <= i < n && worth_loading(existing, #[trigger] entries[i]) && command_for_spec(entries[i].path@, entries[i].executable) is Some
                implies cur.contains(command_for_spec(entries[i].path@, entries[i].executable)->0) by {
                if i < n - 1 {
                    let x = command_for_spec(entries[i].path@, entries[i].executable)->0;
                    let j = choose|j: int| 0 <= j < prior.len() && prior[j] == x;
                    assert(cur[j] == prior[j]);
                } else {
                    assert(cur[prior.len() as int] == c);
                }
            }
        } else {
            assert(cur == prior);
        }
    }
}

} // verus!
