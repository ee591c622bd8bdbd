//! A small string-keyed map: an association list in which the latest binding
//! of a key is the one that counts. The binding tables (chords, commands,
//! event subscriptions, per-command overrides) are a few dozen entries at most.

use vstd::prelude::*;
use crate::text::str_eq;

verus! {

/// The value bound to `k` by the latest entry of `s` with that key, if any.
pub open spec fn assoc<V>(s: Seq<(String, V)>, k: Seq<char>) -> Option<V>
    decreases s.len(),
{
    if s.len() == 0 {
        None
    } else if s.last().0@ == k {
        Some(s.last().1)
    } else {
        assoc(s.drop_last(), k)
    }
}

pub struct StrMap<V> {
    entries: Vec<(String, V)>,
}

impl<V> View for StrMap<V> {
    type V = Map<Seq<char>, V>;

    closed spec fn view(&self) -> Map<Seq<char>, V> {
        Map::new(
            |k: Seq<char>| assoc(self.entries@, k) is Some,
            |k: Seq<char>| assoc(self.entries@, k)->0,
        )
    }
}

impl<V> StrMap<V> {
    /// An empty map.
    pub fn new() -> (m: Self)
        ensures
            m@ == Map::<Seq<char>, V>::empty(),
    {
        let m = StrMap { entries: Vec::new() };
        assert(m@ =~= Map::<Seq<char>, V>::empty());
        m
    }

    /// The value bound to `key`, if any.
    pub fn get(&self, key: &str) -> (r: Option<&V>)
        ensures
            match r {
                Some(v) => self@.contains_key(key@) && self@[key@] == *v,
                None => !self@.contains_key(key@),
            },
    {
        let mut i = self.entries.len();
        assert(self.entries@.subrange(0, i as int) =~= self.entries@);
        while i > 0
            invariant
                i <= self.entries@.len(),
                assoc(self.entries@, key@) == assoc(self.entries@.subrange(0, i as int), key@),
            decreases i,
        {
            let ghost pre = self.entries@.subrange(0, i as int);
            assert(pre.drop_last() =~= self.entries@.subrange(0, i - 1));
            if str_eq(self.entries[i - 1].0.as_str(), key) {
                return Some(&self.entries[i - 1].1);
            }
            i -= 1;
        }
        None
    }

    /// Bind `key` to `v`.
    pub fn insert(&mut self, key: String, v: V)
        ensures
            final(self)@ == old(self)@.insert(key@, v),
    {
        let ghost k = key@;
        self.entries.push((key, v));
        proof {
            assert(self.entries@.drop_last() == old(self).entries@);
            assert(self@ =~= old(self)@.insert(k, v));
        }
    }
}

impl StrMap<String> {
    /// A copy of the map.
    pub fn duplicate(&self) -> (r: Self)
        ensures
            r@ == self@,
    {
        let mut entries: Vec<(String, String)> = Vec::new();
        let mut i: usize = 0;
        while i < self.entries.len()
            invariant
                i <= self.entries@.len(),
                entries@ == self.entries@.subrange(0, i as int),
            decreases self.entries.len() - i,
        {
            let k = self.entries[i].0.clone();
            let v = self.entries[i].1.clone();
            entries.push((k, v));
            i += 1;
        }
        assert(entries@ =~= self.entries@);
        StrMap { entries }
    }
}

} // verus!
