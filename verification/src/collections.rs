//! Set and map types keyed by strings.
//!
//! The feed ranker works over snapshots of social sets (follow lists, mute
//! lists) and per-key tables (engagement counts, author statistics).  Both
//! are held as plain vectors: a `StringSet` abstracts to a `Set<Seq<char>>`
//! and a `StrMap` to a `Map<Seq<char>, V>`, with later insertions shadowing
//! earlier ones.

use vstd::prelude::*;

verus! {

/// A set of strings, abstracted as a set of character sequences.
#[derive(Clone)]
pub struct StringSet {
    items: Vec<String>,
}

impl View for StringSet {
    type V = Set<Seq<char>>;

    closed spec fn view(&self) -> Set<Seq<char>> {
        Set::new(|s: Seq<char>| exists|i: int| 0 <= i < self.items@.len() && self.items@[i]@ == s)
    }
}

impl StringSet {
    /// Creates an empty set.
    pub fn new() -> (r: StringSet)
        ensures
            r@ == Set::<Seq<char>>::empty(),
    {
        let r = StringSet { items: Vec::new() };
        proof {
            assert(r@ =~= Set::<Seq<char>>::empty());
        }
        r
    }

    /// Adds a string to the set.
    pub fn insert(&mut self, s: String)
        ensures
            final(self)@ == old(self)@.insert(s@),
    {
        let ghost before = self.items@;
        self.items.push(s);
        proof {
            assert forall|t: Seq<char>| final(self)@.contains(t) implies old(self)@.insert(
                s@,
            ).contains(t) by {
                let i = choose|i: int|
                    0 <= i < self.items@.len() && self.items@[i]@ == t;
                if i < before.len() {
                    assert(before[i]@ == t);
                }
            }
            assert forall|t: Seq<char>|
                old(self)@.insert(s@).contains(t) implies final(self)@.contains(t) by {
                if t == s@ {
                    assert(self.items@[before.len() as int]@ == t);
                } else {
                    let i = choose|i: int| 0 <= i < before.len() && before[i]@ == t;
                    assert(self.items@[i]@ == t);
                }
            }
            assert(final(self)@ =~= old(self)@.insert(s@));
        }
    }

    /// Tests membership.
    pub fn contains(&self, s: &str) -> (r: bool)
        ensures
            r == self@.contains(s@),
    {
        let needle: String = s.to_owned();
        let n = self.items.len();
        let mut i: usize = 0;
        while i < n
            invariant
                n == self.items@.len(),
                0 <= i <= n,
                needle@ == s@,
                forall|j: int| 0 <= j < i ==> self.items@[j]@ != s@,
            decreases n - i,
        {
            if self.items[i] == needle {
                assert(self@.contains(s@));
                return true;
            }
            i += 1;
        }
        false
    }
}

/// An association table from strings to values.  A later `insert` for the
/// same key shadows an earlier one, as in the abstract map.
#[derive(Clone)]
pub struct StrMap<V: Clone> {
    entries: Vec<(String, V)>,
}

/// The abstract map denoted by an entry sequence: entries are folded in
/// order, so the last binding of a key wins.
pub closed spec fn assoc_map<V>(entries: Seq<(String, V)>) -> Map<Seq<char>, V>
    decreases entries.len(),
{
    if entries.len() == 0 {
        Map::empty()
    } else {
        assoc_map(entries.drop_last()).insert(entries.last().0@, entries.last().1)
    }
}

/// If every entry at or after position `i` has a key other than `k`, the
/// bindings of `k` are decided by the entries before `i`.
proof fn lemma_assoc_skip_tail<V>(entries: Seq<(String, V)>, k: Seq<char>, i: int)
    requires
        0 <= i <= entries.len(),
        forall|j: int| i <= j < entries.len() ==> entries[j].0@ != k,
    ensures
        assoc_map(entries).contains_key(k) == assoc_map(entries.take(i)).contains_key(k),
        assoc_map(entries).contains_key(k) ==> assoc_map(entries)[k] == assoc_map(
            entries.take(i),
        )[k],
    decreases entries.len() - i,
{
    if i < entries.len() {
        lemma_assoc_skip_tail(entries, k, i + 1);
        assert(entries.take(i + 1).drop_last() =~= entries.take(i));
        assert(entries.take(i + 1).last() == entries[i]);
    } else {
        assert(entries.take(i) =~= entries);
    }
}

impl<V: Clone> View for StrMap<V> {
    type V = Map<Seq<char>, V>;

    closed spec fn view(&self) -> Map<Seq<char>, V> {
        assoc_map(self.entries@)
    }
}

impl<V: Clone> StrMap<V> {
    /// Creates an empty map.
    pub fn new() -> (r: StrMap<V>)
        ensures
            r@ == Map::<Seq<char>, V>::empty(),
    {
        StrMap { entries: Vec::new() }
    }

    /// Binds `key` to `value`, replacing any earlier binding.
    pub fn insert(&mut self, key: String, value: V)
        ensures
            final(self)@ == old(self)@.insert(key@, value),
    {
        self.entries.push((key, value));
        proof {
            assert(self.entries@.drop_last() =~= old(self).entries@);
        }
    }

    /// Looks a key up, returning a reference to the current binding.
    pub fn get(&self, key: &str) -> (r: Option<&V>)
        ensures
            match r {
                Some(v) => self@.contains_key(key@) && *v == self@[key@],
                None => !self@.contains_key(key@),
            },
    {
        let needle: String = key.to_owned();
        let n = self.entries.len();
        let mut i: usize = n;
        while i > 0
            invariant
                n == self.entries@.len(),
                0 <= i <= n,
                needle@ == key@,
                forall|j: int| i <= j < n ==> self.entries@[j].0@ != key@,
            decreases i,
        {
            i -= 1;
            let entry = &self.entries[i];
            if entry.0 == needle {
                proof {
                    lemma_assoc_skip_tail(self.entries@, key@, i + 1);
                    assert(self.entries@.take(i + 1).last() == self.entries@[i as int]);
                    assert(self.entries@.take(i + 1).drop_last() =~= self.entries@.take(
                        i as int,
                    ));
                }
                return Some(&entry.1);
            }
        }
        proof {
            lemma_assoc_skip_tail(self.entries@, key@, 0);
            assert(self.entries@.take(0) =~= Seq::<(String, V)>::empty());
        }
        None
    }
}

} // verus!
