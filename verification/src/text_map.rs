//! A map from texts to plain values.

use vstd::prelude::*;

use crate::text::same_text;

verus! {

/// A map from texts to values, kept as a list in which no text occurs twice.
#[derive(Debug)]
pub struct TextMap<V> {
    entries: Vec<(String, V)>,
}

/// No text occurs twice among the entries.
spec fn distinct<V>(entries: Seq<(String, V)>) -> bool {
    forall|i: int, j: int|
        0 <= i < j < entries.len() ==> (#[trigger] entries[i]).0@ != (#[trigger] entries[j]).0@
}

/// Some entry has the text.
spec fn listed<V>(entries: Seq<(String, V)>, key: Seq<char>) -> bool {
    exists|i: int| 0 <= i < entries.len() && (#[trigger] entries[i]).0@ == key
}

/// The map that a list of entries stands for.
spec fn map_of<V>(entries: Seq<(String, V)>) -> Map<Seq<char>, V> {
    Map::new(
        |key: Seq<char>| listed(entries, key),
        |key: Seq<char>|
            entries[choose|i: int|
                0 <= i < entries.len() && (#[trigger] entries[i]).0@ == key].1,
    )
}

proof fn lemma_map_of_index<V>(entries: Seq<(String, V)>, i: int)
    requires
        distinct(entries),
        0 <= i < entries.len(),
    ensures
        map_of(entries).dom().contains(entries[i].0@),
        map_of(entries)[entries[i].0@] == entries[i].1,
{
    let key = entries[i].0@;
    assert(listed(entries, key));
    let k = choose|k: int| 0 <= k < entries.len() && (#[trigger] entries[k]).0@ == key;
    if k < i {
        assert(entries[k].0@ != entries[i].0@);
    } else if i < k {
        assert(entries[i].0@ != entries[k].0@);
    }
}

impl<V> View for TextMap<V> {
    type V = Map<Seq<char>, V>;

    closed spec fn view(&self) -> Map<Seq<char>, V> {
        map_of(self.entries@)
    }
}

impl<V> TextMap<V> {
    #[verifier::type_invariant]
    spec fn well_formed(self) -> bool {
        distinct(self.entries@)
    }
}

impl<V: Copy> TextMap<V> {
    /// The empty map.
    #[must_use]
    pub fn new() -> (r: Self)
        ensures
            r@ == Map::<Seq<char>, V>::empty(),
    {
        let r = TextMap { entries: Vec::new() };
        assert(r@ =~= Map::<Seq<char>, V>::empty());
        r
    }

    fn place(entries: &Vec<(String, V)>, key: &str) -> (r: Option<usize>)
        ensures
            match r {
                Some(i) => i < entries.len() && entries@[i as int].0@ == key@,
                None => !listed(entries@, key@),
            },
    {
        let mut i: usize = 0;
        while i < entries.len()
            invariant
                i <= entries.len(),
                forall|j: int| 0 <= j < i ==> (#[trigger] entries@[j]).0@ != key@,
            decreases entries.len() - i,
        {
            if same_text(entries[i].0.as_str(), key) {
                return Some(i);
            }
            i = i + 1;
        }
        None
    }

    /// The value of a text.
    #[must_use]
    pub fn get(&self, key: &str) -> (r: Option<V>)
        ensures
            r == if self@.dom().contains(key@) {
                Some(self@[key@])
            } else {
                None
            },
    {
        proof {
            use_type_invariant(self);
        }
        match Self::place(&self.entries, key) {
            Some(i) => {
                proof {
                    lemma_map_of_index(self.entries@, i as int);
                }
                Some(self.entries[i].1)
            },
            None => None,
        }
    }

    /// Sets the value of a text; what it had before is handed back.
    pub fn insert(&mut self, key: String, value: V) -> (r: Option<V>)
        ensures
            final(self)@ == old(self)@.insert(key@, value),
            r == if old(self)@.dom().contains(key@) {
                Some(old(self)@[key@])
            } else {
                None
            },
    {
        proof {
            use_type_invariant(&*self);
        }
        let ghost before = self.entries@;
        let mut entries: Vec<(String, V)> = Vec::new();
        std::mem::swap(&mut entries, &mut self.entries);
        let ghost k = key@;
        let ghost mut at: int = before.len() as int;
        let r = match Self::place(&entries, key.as_str()) {
            Some(i) => {
                proof {
                    at = i as int;
                    lemma_map_of_index(before, i as int);
                }
                let was = entries[i].1;
                entries.set(i, (key, value));
                Some(was)
            },
            None => {
                entries.push((key, value));
                None
            },
        };
        proof {
            let after = entries@;
            assert(distinct(after)) by {
                assert forall|i: int, j: int| 0 <= i < j < after.len() implies (
                #[trigger] after[i]).0@ != (#[trigger] after[j]).0@ by {
                    if j < before.len() {
                        assert(before[i].0@ != before[j].0@);
                        assert(after[i].0@ == before[i].0@ && after[j].0@ == before[j].0@);
                    } else {
                        assert(after[i] == before[i]);
                    }
                }
            }
            let m = map_of(before).insert(k, value);
            assert forall|key: Seq<char>| map_of(after).dom().contains(key) == m.dom().contains(
                key,
            ) by {
                if listed(before, key) {
                    let i = choose|i: int| 0 <= i < before.len() && (#[trigger] before[i]).0@ == key;
                    assert(after[i].0@ == key);
                }
                if listed(after, key) {
                    let i = choose|i: int| 0 <= i < after.len() && (#[trigger] after[i]).0@ == key;
                    if i < before.len() {
                        assert(before[i].0@ == key);
                    }
                }
                assert(after[at].0@ == k);
            }
            assert forall|key: Seq<char>| map_of(after).dom().contains(key) implies map_of(
                after,
            )[key] == m[key] by {
                let i = choose|i: int| 0 <= i < after.len() && (#[trigger] after[i]).0@ == key;
                lemma_map_of_index(after, i);
                if i < before.len() {
                    lemma_map_of_index(before, i);
                    if key == k {
                        assert(after[i].1 == value);
                    }
                }
            }
            assert(map_of(after) =~= m);
        }
        self.entries = entries;
        r
    }
}

impl<V: Copy> Default for TextMap<V> {
    fn default() -> (r: Self)
        ensures
            r@ == Map::<Seq<char>, V>::empty(),
    {
        Self::new()
    }
}

impl<V: Copy> Clone for TextMap<V> {
    fn clone(&self) -> (r: Self)
        ensures
            r@ == self@,
    {
        proof {
            use_type_invariant(self);
        }
        let mut entries: Vec<(String, V)> = Vec::new();
        let mut i: usize = 0;
        while i < self.entries.len()
            invariant
                i <= self.entries.len(),
                entries.len() == i,
                forall|j: int| 0 <= j < i ==> (#[trigger] entries@[j]) == self.entries@[j],
            decreases self.entries.len() - i,
        {
            entries.push((self.entries[i].0.clone(), self.entries[i].1));
            i = i + 1;
        }
        assert(entries@ =~= self.entries@);
        TextMap { entries }
    }
}

} // verus!
