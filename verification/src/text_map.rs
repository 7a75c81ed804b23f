//! A map from text to values: a list of entries in which no key occurs twice,
//! in the order in which the keys came.

use crate::text::same_text;
use vstd::prelude::*;

verus! {

broadcast use vstd::string::group_string_axioms;

/// A map from text to values.
#[derive(Debug)]
pub struct TextMap<V> {
    pub entries: Vec<(String, V)>,
}

/// The key stands at `i`.
pub open spec fn key_at<V>(entries: Seq<(String, V)>, key: Seq<char>, i: int) -> bool {
    0 <= i < entries.len() && entries[i].0@ == key
}

/// Some entry has this key.
pub open spec fn has_entry<V>(entries: Seq<(String, V)>, key: Seq<char>) -> bool {
    exists|i: int| #[trigger] key_at(entries, key, i)
}

/// No key occurs twice.
pub open spec fn keys_unique<V>(entries: Seq<(String, V)>) -> bool {
    forall|i: int, j: int|
        0 <= i < j < entries.len() ==> (#[trigger] entries[i]).0@ != (#[trigger] entries[j]).0@
}

/// The map that a list of entries stands for.
pub open spec fn map_of<V>(entries: Seq<(String, V)>) -> Map<Seq<char>, V> {
    Map::new(
        |key: Seq<char>| has_entry(entries, key),
        |key: Seq<char>| entries[choose|i: int| key_at(entries, key, i)].1,
    )
}

impl<V> View for TextMap<V> {
    type V = Map<Seq<char>, V>;

    open spec fn view(&self) -> Map<Seq<char>, V> {
        map_of(self.entries@)
    }
}

/// An entry is what the map holds under its key.
pub proof fn lemma_entry<V>(entries: Seq<(String, V)>, i: int)
    requires
        keys_unique(entries),
        0 <= i < entries.len(),
    ensures
        map_of(entries).dom().contains(entries[i].0@),
        map_of(entries)[entries[i].0@] == entries[i].1,
{
    let key = entries[i].0@;
    assert(key_at(entries, key, i));
    let k = choose|k: int| key_at(entries, key, k);
    if k < i {
        assert(entries[k].0@ != entries[i].0@);
    } else if i < k {
        assert(entries[i].0@ != entries[k].0@);
    }
}

/// What the map holds under a key is an entry.
pub proof fn lemma_key<V>(entries: Seq<(String, V)>, key: Seq<char>) -> (i: int)
    requires
        keys_unique(entries),
        map_of(entries).dom().contains(key),
    ensures
        key_at(entries, key, i),
        map_of(entries)[key] == entries[i].1,
{
    choose|k: int| key_at(entries, key, k)
}

impl<V> TextMap<V> {
    /// No key occurs twice.
    pub open spec fn wf(&self) -> bool {
        keys_unique(self.entries@)
    }

    /// The map without entries.
    pub fn new() -> (r: Self)
        ensures
            r.wf(),
            r.entries@.len() == 0,
            r@ == Map::<Seq<char>, V>::empty(),
    {
        let r = TextMap { entries: Vec::new() };
        assert(r@ =~= Map::<Seq<char>, V>::empty());
        r
    }

    /// Where a key stands.
    pub fn find(&self, key: &str) -> (r: Option<usize>)
        requires
            self.wf(),
        ensures
            match r {
                Some(i) => key_at(self.entries@, key@, i as int) && self@.dom().contains(key@)
                    && self@[key@] == self.entries@[i as int].1,
                None => !self@.dom().contains(key@),
            },
    {
        let mut i: usize = 0;
        while i < self.entries.len()
            invariant
                self.wf(),
                i <= self.entries@.len(),
                forall|j: int| 0 <= j < i ==> (#[trigger] self.entries@[j]).0@ != key@,
            decreases self.entries@.len() - i,
        {
            if same_text(&self.entries[i].0, key) {
                proof {
                    lemma_entry(self.entries@, i as int);
                }
                return Some(i);
            }
            i = i + 1;
        }
        None
    }

    /// The value under a key.
    pub fn get(&self, key: &str) -> (r: Option<&V>)
        requires
            self.wf(),
        ensures
            match r {
                Some(v) => self@.dom().contains(key@) && self@[key@] == *v,
                None => !self@.dom().contains(key@),
            },
    {
        match self.find(key) {
            Some(i) => Some(&self.entries[i].1),
            None => None,
        }
    }

    /// Whether the map has a key.
    pub fn contains_key(&self, key: &str) -> (r: bool)
        requires
            self.wf(),
        ensures
            r == self@.dom().contains(key@),
    {
        self.find(key).is_some()
    }

    /// How many keys there are.
    pub fn len(&self) -> (r: usize)
        ensures
            r == self.entries@.len(),
    {
        self.entries.len()
    }

    /// Puts a value under a key; one that was there before is replaced.
    pub fn insert(&mut self, key: String, value: V)
        requires
            old(self).wf(),
        ensures
            final(self).wf(),
            final(self)@ == old(self)@.insert(key@, value),
    {
        let ghost before = self.entries@;
        let ghost old_map = self@;
        match self.find(&key) {
            Some(i) => {
                self.entries.set(i, (key, value));
                proof {
                    let after = self.entries@;
                    assert(after[i as int].0@ == before[i as int].0@);
                    assert forall|a: int, b: int| 0 <= a < b < after.len() implies (
                    #[trigger] after[a]).0@ != (#[trigger] after[b]).0@ by {
                        assert(before[a].0@ != before[b].0@);
                    }
                    lemma_map_updated(before, i as int, key, value);
                }
            },
            None => {
                self.entries.push((key, value));
                proof {
                    let after = self.entries@;
                    assert forall|a: int, b: int| 0 <= a < b < after.len() implies (
                    #[trigger] after[a]).0@ != (#[trigger] after[b]).0@ by {
                        if b < before.len() {
                            assert(before[a].0@ != before[b].0@);
                        } else {
                            assert(key_at(before, before[a].0@, a));
                        }
                    }
                    lemma_map_pushed(before, key, value);
                }
            },
        }
    }

    /// Takes out a key.
    pub fn remove(&mut self, key: &str) -> (r: Option<V>)
        requires
            old(self).wf(),
        ensures
            final(self).wf(),
            final(self)@ == old(self)@.remove(key@),
            match r {
                Some(v) => old(self)@.dom().contains(key@) && old(self)@[key@] == v,
                None => !old(self)@.dom().contains(key@),
            },
    {
        let ghost before = self.entries@;
        match self.find(key) {
            Some(i) => {
                let (_, v) = self.entries.remove(i);
                proof {
                    lemma_map_removed(before, i as int);
                }
                Some(v)
            },
            None => {
                assert(self@ =~= old(self)@.remove(key@));
                None
            },
        }
    }

    /// Takes out everything.
    pub fn clear(&mut self)
        ensures
            final(self).wf(),
            final(self).entries@.len() == 0,
            final(self)@ == Map::<Seq<char>, V>::empty(),
    {
        self.entries.clear();
        assert(self@ =~= Map::<Seq<char>, V>::empty());
    }
}

/// Replacing an entry's value replaces it in the map.
proof fn lemma_map_updated<V>(before: Seq<(String, V)>, i: int, key: String, value: V)
    requires
        keys_unique(before),
        keys_unique(before.update(i, (key, value))),
        0 <= i < before.len(),
        before[i].0@ == key@,
    ensures
        map_of(before.update(i, (key, value))) == map_of(before).insert(key@, value),
{
    let after = before.update(i, (key, value));
    let want = map_of(before).insert(key@, value);
    assert forall|k: Seq<char>| map_of(after).dom().contains(k) == want.dom().contains(k) by {
        if map_of(after).dom().contains(k) {
            let j = lemma_key(after, k);
            assert(key_at(before, k, j));
        }
        if want.dom().contains(k) {
            if k == key@ {
                assert(key_at(after, k, i));
            } else {
                let j = lemma_key(before, k);
                assert(key_at(after, k, j));
            }
        }
    }
    assert forall|k: Seq<char>| map_of(after).dom().contains(k) implies map_of(after)[k]
        == want[k] by {
        let j = lemma_key(after, k);
        lemma_entry(after, j);
        if j != i {
            lemma_entry(before, j);
            if j < i {
                assert(before[j].0@ != before[i].0@);
            } else {
                assert(before[i].0@ != before[j].0@);
            }
        }
    }
    assert(map_of(after) =~= want);
}

/// A new entry is added to the map.
proof fn lemma_map_pushed<V>(before: Seq<(String, V)>, key: String, value: V)
    requires
        keys_unique(before),
        keys_unique(before.push((key, value))),
        !map_of(before).dom().contains(key@),
    ensures
        map_of(before.push((key, value))) == map_of(before).insert(key@, value),
{
    let after = before.push((key, value));
    let want = map_of(before).insert(key@, value);
    let n = before.len() as int;
    assert forall|k: Seq<char>| map_of(after).dom().contains(k) == want.dom().contains(k) by {
        if map_of(after).dom().contains(k) {
            let j = lemma_key(after, k);
            if j < n {
                assert(key_at(before, k, j));
            }
        }
        if want.dom().contains(k) {
            if k == key@ {
                assert(key_at(after, k, n));
            } else {
                let j = lemma_key(before, k);
                assert(key_at(after, k, j));
            }
        }
    }
    assert forall|k: Seq<char>| map_of(after).dom().contains(k) implies map_of(after)[k]
        == want[k] by {
        let j = lemma_key(after, k);
        lemma_entry(after, j);
        if j < n {
            lemma_entry(before, j);
        }
    }
    assert(map_of(after) =~= want);
}

/// An entry that is taken out is taken out of the map.
proof fn lemma_map_removed<V>(before: Seq<(String, V)>, i: int)
    requires
        keys_unique(before),
        0 <= i < before.len(),
    ensures
        keys_unique(before.remove(i)),
        map_of(before.remove(i)) == map_of(before).remove(before[i].0@),
{
    let after = before.remove(i);
    let key = before[i].0@;
    let want = map_of(before).remove(key);
    assert forall|a: int, b: int| 0 <= a < b < after.len() implies (#[trigger] after[a]).0@ != (
    #[trigger] after[b]).0@ by {
        let c = if a < i {
            a
        } else {
            a + 1
        };
        let d = if b < i {
            b
        } else {
            b + 1
        };
        assert(before[c].0@ != before[d].0@);
    }
    assert forall|k: Seq<char>| map_of(after).dom().contains(k) == want.dom().contains(k) by {
        if map_of(after).dom().contains(k) {
            let j = lemma_key(after, k);
            let c = if j < i {
                j
            } else {
                j + 1
            };
            assert(key_at(before, k, c));
            if c < i {
                assert(before[c].0@ != before[i].0@);
            } else {
                assert(before[i].0@ != before[c].0@);
            }
        }
        if want.dom().contains(k) {
            let j = lemma_key(before, k);
            let c = if j < i {
                j
            } else {
                j - 1
            };
            assert(key_at(after, k, c));
        }
    }
    assert forall|k: Seq<char>| map_of(after).dom().contains(k) implies map_of(after)[k]
        == want[k] by {
        let j = lemma_key(after, k);
        let c = if j < i {
            j
        } else {
            j + 1
        };
        lemma_entry(after, j);
        lemma_entry(before, c);
    }
    assert(map_of(after) =~= want);
}

} // verus!
