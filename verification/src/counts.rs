//! A small map from text keys to integers, used for the counters, the
//! alias tables and the other keyed numbers that the rules read.
use vstd::prelude::*;

use crate::text::str_eq;

verus! {

/// Entries in insertion order; a later entry for a key replaces an earlier
/// one.
pub struct Counts {
    pub entries: Vec<(String, i64)>,
}

/// The map that a list of entries stands for: later entries win.
pub open spec fn entries_map(s: Seq<(String, i64)>) -> Map<Seq<char>, i64>
    decreases s.len(),
{
    if s.len() == 0 {
        Map::empty()
    } else {
        entries_map(s.drop_last()).insert(s.last().0@, s.last().1)
    }
}

/// The value of `key` in a map, or `default` where it is absent.
pub open spec fn value_or(m: Map<Seq<char>, i64>, key: Seq<char>, default: i64) -> i64 {
    if m.contains_key(key) {
        m[key]
    } else {
        default
    }
}

/// Entries after `i` do not mention `key`, so the prefix decides it.
pub proof fn lemma_entries_prefix(s: Seq<(String, i64)>, i: int, key: Seq<char>)
    requires
        0 <= i <= s.len(),
        forall|j: int| i <= j < s.len() ==> s[j].0@ != key,
    ensures
        entries_map(s).contains_key(key) == entries_map(s.subrange(0, i)).contains_key(key),
        entries_map(s).contains_key(key) ==> entries_map(s)[key] == entries_map(
            s.subrange(0, i),
        )[key],
    decreases s.len(),
{
    if s.len() > i {
        assert(s.drop_last().subrange(0, i) =~= s.subrange(0, i));
        lemma_entries_prefix(s.drop_last(), i, key);
    } else {
        assert(s.subrange(0, i) =~= s);
    }
}

impl Counts {
    /// The keyed numbers.
    pub open spec fn view(&self) -> Map<Seq<char>, i64> {
        entries_map(self.entries@)
    }

    /// An empty map.
    pub fn new() -> (r: Counts)
        ensures
            r.view() == Map::<Seq<char>, i64>::empty(),
    {
        Counts { entries: Vec::new() }
    }

    /// Sets `key` to `value`.
    pub fn insert(&mut self, key: String, value: i64)
        ensures
            final(self).view() == old(self).view().insert(key@, value),
    {
        let ghost before = self.entries@;
        self.entries.push((key, value));
        assert(self.entries@.drop_last() =~= before);
    }

    /// The value of `key`, if it is present.
    pub fn get(&self, key: &str) -> (r: Option<i64>)
        ensures
            r == (if self.view().contains_key(key@) {
                Some(self.view()[key@])
            } else {
                None::<i64>
            }),
    {
        let mut i = self.entries.len();
        while i > 0
            invariant
                i <= self.entries@.len(),
                forall|j: int| i <= j < self.entries@.len() ==> self.entries@[j].0@ != key@,
            decreases i,
        {
            if str_eq(self.entries[i - 1].0.as_str(), key) {
                proof {
                    let s = self.entries@;
                    lemma_entries_prefix(s, i as int, key@);
                    assert(s.subrange(0, i as int).drop_last() =~= s.subrange(0, i - 1));
                }
                return Some(self.entries[i - 1].1);
            }
            i = i - 1;
        }
        proof {
            lemma_entries_prefix(self.entries@, 0, key@);
            assert(self.entries@.subrange(0, 0) =~= Seq::<(String, i64)>::empty());
        }
        None
    }

    /// Whether `key` is present.
    pub fn contains_key(&self, key: &str) -> (r: bool)
        ensures
            r == self.view().contains_key(key@),
    {
        self.get(key).is_some()
    }

    /// The value of `key`, or 0 where it is absent.
    pub fn get_or_zero(&self, key: &str) -> (r: i64)
        ensures
            r == value_or(self.view(), key@, 0),
    {
        match self.get(key) {
            Some(value) => value,
            None => 0,
        }
    }
}

/// Whether `key` is one of `keys`.
pub fn contains_text(keys: &Vec<String>, key: &str) -> (r: bool)
    ensures
        r == (exists|i: int| 0 <= i < keys@.len() && keys@[i]@ == key@),
{
    let mut i: usize = 0;
    while i < keys.len()
        invariant
            i <= keys@.len(),
            forall|j: int| 0 <= j < i ==> keys@[j]@ != key@,
        decreases keys@.len() - i,
    {
        if str_eq(keys[i].as_str(), key) {
            return true;
        }
        i = i + 1;
    }
    false
}

} // verus!
