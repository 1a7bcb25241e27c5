//! A map from texts to values, kept as a list of entries with distinct keys.

use crate::text::text_eq;
use vstd::prelude::*;

verus! {

/// A finite map whose keys are texts. No key occurs twice.
#[derive(Debug)]
pub struct TextMap<V> {
    entries: Vec<(String, V)>,
}

/// No two entries have the same key.
pub open spec fn distinct_keys<V>(entries: Seq<(String, V)>) -> bool {
    forall|i: int, j: int|
        0 <= i < j < entries.len() ==> (#[trigger] entries[i]).0@ != (#[trigger] entries[j]).0@
}

/// The map that a list of entries with distinct keys stands for.
pub open spec fn map_of<V>(entries: Seq<(String, V)>) -> Map<Seq<char>, V>
    decreases entries.len(),
{
    if entries.len() == 0 {
        Map::empty()
    } else {
        map_of(entries.drop_last()).insert(entries.last().0@, entries.last().1)
    }
}

/// What the map of a list of entries with distinct keys holds: the keys of
/// the entries, each with the value of its entry.
pub proof fn lemma_map_of<V>(entries: Seq<(String, V)>)
    requires
        distinct_keys(entries),
    ensures
        forall|i: int|
            0 <= i < entries.len() ==> map_of(entries).dom().contains((#[trigger] entries[i]).0@)
                && map_of(entries)[entries[i].0@] == entries[i].1,
        forall|k: Seq<char>|
            map_of(entries).dom().contains(k) ==> exists|i: int|
                0 <= i < entries.len() && (#[trigger] entries[i]).0@ == k,
        map_of(entries).dom().finite(),
        map_of(entries).dom().len() == entries.len(),
    decreases entries.len(),
{
    if entries.len() > 0 {
        let front = entries.drop_last();
        let last = entries.last();
        assert forall|i: int, j: int| 0 <= i < j < front.len() implies (#[trigger] front[i]).0@ != (
        #[trigger] front[j]).0@ by {
            assert(front[i] == entries[i]);
            assert(front[j] == entries[j]);
        }
        lemma_map_of(front);
        assert forall|i: int| 0 <= i < entries.len() implies map_of(entries).dom().contains(
            (#[trigger] entries[i]).0@,
        ) && map_of(entries)[entries[i].0@] == entries[i].1 by {
            if i < front.len() {
                assert(front[i] == entries[i]);
                assert(entries[i].0@ != entries[entries.len() - 1].0@);
            }
        }
        assert forall|k: Seq<char>| map_of(entries).dom().contains(k) implies exists|i: int|
            0 <= i < entries.len() && (#[trigger] entries[i]).0@ == k by {
            if k == last.0@ {
                assert(entries[entries.len() - 1].0@ == k);
            } else {
                let i = choose|i: int| 0 <= i < front.len() && (#[trigger] front[i]).0@ == k;
                assert(entries[i].0@ == k);
            }
        }
        if map_of(front).dom().contains(last.0@) {
            let i = choose|i: int| 0 <= i < front.len() && (#[trigger] front[i]).0@ == last.0@;
            assert(front[i] == entries[i]);
            assert(entries[i].0@ != entries[entries.len() - 1].0@);
        }
    }
}

/// Some entry has the key `k`.
pub open spec fn has_key<V>(entries: Seq<(String, V)>, k: Seq<char>) -> bool {
    exists|i: int| 0 <= i < entries.len() && (#[trigger] entries[i]).0@ == k
}

/// The map of a list of entries holds a key exactly if some entry has it.
pub proof fn lemma_map_has<V>(entries: Seq<(String, V)>, k: Seq<char>)
    requires
        distinct_keys(entries),
    ensures
        map_of(entries).dom().contains(k) <==> has_key(entries, k),
{
    lemma_map_of(entries);
    if has_key(entries, k) {
        let i = choose|i: int| 0 <= i < entries.len() && (#[trigger] entries[i]).0@ == k;
        assert(map_of(entries).dom().contains(entries[i].0@));
    }
}

/// The map of a list of entries holds, for the key of each entry, the value
/// of that entry.
pub proof fn lemma_map_at<V>(entries: Seq<(String, V)>, i: int)
    requires
        distinct_keys(entries),
        0 <= i < entries.len(),
    ensures
        map_of(entries).dom().contains(entries[i].0@),
        map_of(entries)[entries[i].0@] == entries[i].1,
{
    lemma_map_of(entries);
}

/// Putting a new entry in the place of one with the same key keeps the keys
/// distinct and gives the key the new value.
pub proof fn lemma_map_of_update<V>(entries: Seq<(String, V)>, i: int, entry: (String, V))
    requires
        distinct_keys(entries),
        0 <= i < entries.len(),
        entries[i].0@ == entry.0@,
    ensures
        distinct_keys(entries.update(i, entry)),
        map_of(entries.update(i, entry)) == map_of(entries).insert(entry.0@, entry.1),
{
    let after = entries.update(i, entry);
    assert forall|a: int, b: int| 0 <= a < b < after.len() implies (#[trigger] after[a]).0@ != (
    #[trigger] after[b]).0@ by {
        assert(entries[a].0@ != entries[b].0@);
    }
    let left = map_of(after);
    let right = map_of(entries).insert(entry.0@, entry.1);
    assert forall|k: Seq<char>| left.dom().contains(k) == right.dom().contains(k) by {
        lemma_map_has(after, k);
        lemma_map_has(entries, k);
        if has_key(after, k) {
            let j = choose|j: int| 0 <= j < after.len() && (#[trigger] after[j]).0@ == k;
            if j != i {
                assert(entries[j].0@ == k);
            }
        }
        if has_key(entries, k) {
            let j = choose|j: int| 0 <= j < entries.len() && (#[trigger] entries[j]).0@ == k;
            assert(after[j].0@ == k);
        }
        if k == entry.0@ {
            assert(after[i].0@ == k);
        }
    }
    assert forall|k: Seq<char>| left.dom().contains(k) implies left[k] == right[k] by {
        lemma_map_has(after, k);
        let j = choose|j: int| 0 <= j < after.len() && (#[trigger] after[j]).0@ == k;
        lemma_map_at(after, j);
        if j != i {
            assert(entries[j] == after[j]);
            lemma_map_at(entries, j);
            assert(entries[j].0@ != entries[i].0@);
        }
    }
    assert(left =~= right);
}

/// Adding an entry with a new key at the end keeps the keys distinct.
pub proof fn lemma_map_of_push<V>(entries: Seq<(String, V)>, entry: (String, V))
    requires
        distinct_keys(entries),
        !has_key(entries, entry.0@),
    ensures
        distinct_keys(entries.push(entry)),
        map_of(entries.push(entry)) == map_of(entries).insert(entry.0@, entry.1),
{
    let after = entries.push(entry);
    assert(after.drop_last() =~= entries);
    assert forall|a: int, b: int| 0 <= a < b < after.len() implies (#[trigger] after[a]).0@ != (
    #[trigger] after[b]).0@ by {
        if b < entries.len() {
            assert(entries[a].0@ != entries[b].0@);
        } else {
            assert(entries[a].0@ != entry.0@);
        }
    }
}

/// Taking an entry out keeps the keys distinct and takes its key out of the
/// map.
pub proof fn lemma_map_of_remove<V>(entries: Seq<(String, V)>, i: int)
    requires
        distinct_keys(entries),
        0 <= i < entries.len(),
    ensures
        distinct_keys(entries.remove(i)),
        map_of(entries.remove(i)) == map_of(entries).remove(entries[i].0@),
{
    let after = entries.remove(i);
    assert forall|a: int, b: int| 0 <= a < b < after.len() implies (#[trigger] after[a]).0@ != (
    #[trigger] after[b]).0@ by {
        let a0 = if a < i { a } else { a + 1 };
        let b0 = if b < i { b } else { b + 1 };
        assert(entries[a0].0@ != entries[b0].0@);
    }
    let left = map_of(after);
    let right = map_of(entries).remove(entries[i].0@);
    assert forall|k: Seq<char>| left.dom().contains(k) == right.dom().contains(k) by {
        lemma_map_has(after, k);
        lemma_map_has(entries, k);
        if has_key(after, k) {
            let j = choose|j: int| 0 <= j < after.len() && (#[trigger] after[j]).0@ == k;
            let j0 = if j < i { j } else { j + 1 };
            assert(entries[j0].0@ == k);
            assert(entries[j0].0@ != entries[i].0@);
        }
        if has_key(entries, k) && k != entries[i].0@ {
            let j = choose|j: int| 0 <= j < entries.len() && (#[trigger] entries[j]).0@ == k;
            let j1 = if j < i { j } else { j - 1 };
            assert(after[j1].0@ == k);
        }
    }
    assert forall|k: Seq<char>| left.dom().contains(k) implies left[k] == right[k] by {
        lemma_map_has(after, k);
        let j = choose|j: int| 0 <= j < after.len() && (#[trigger] after[j]).0@ == k;
        let j0 = if j < i { j } else { j + 1 };
        lemma_map_at(after, j);
        lemma_map_at(entries, j0);
    }
    assert(left =~= right);
}

/// The text that `{:?}` makes of a map from texts to texts: the entries in
/// the order of their keys, written as the standard library writes a map
/// for debugging.
pub uninterp spec fn debug_of_map(m: Map<Seq<char>, Seq<char>>) -> Seq<char>;

impl TextMap<String> {
    /// Formats the entries with `{:?}` as a `BTreeMap` of them, which writes
    /// them in the order of their keys; the text depends on the keys and
    /// their values alone.
    #[verifier::external_body]
    pub(crate) fn debug_string(&self) -> (text: String)
        ensures
            text@ == debug_of_map(self@.map_values(|v: String| v@)),
    {
        let sorted: std::collections::BTreeMap<&String, &String> =
            self.entries.iter().map(|entry| (&entry.0, &entry.1)).collect();
        format!("{:?}", sorted)
    }
}

impl<V> View for TextMap<V> {
    type V = Map<Seq<char>, V>;

    closed spec fn view(&self) -> Map<Seq<char>, V> {
        map_of(self.entries@)
    }
}

impl<V> TextMap<V> {
    #[verifier::type_invariant]
    spec fn inv(self) -> bool {
        distinct_keys(self.entries@)
    }

    /// The entries in the order in which their keys first came in.
    pub closed spec fn entries(&self) -> Seq<(String, V)> {
        self.entries@
    }

    /// The map is the map of the entries.
    pub proof fn lemma_view(&self)
        ensures
            self@ == map_of(self.entries()),
    {
    }

    /// A map without entries.
    pub fn new() -> (map: Self)
        ensures
            map@ == Map::<Seq<char>, V>::empty(),
            map.entries().len() == 0,
    {
        TextMap { entries: Vec::new() }
    }

    /// The number of entries.
    pub fn len(&self) -> (n: usize)
        ensures
            n == self.entries().len(),
            n == self@.dom().len(),
            distinct_keys(self.entries()),
    {
        proof {
            use_type_invariant(self);
            lemma_map_of(self.entries@);
        }
        self.entries.len()
    }

    /// Whether the map has no entries.
    pub fn is_empty(&self) -> (empty: bool)
        ensures
            empty == (self.entries().len() == 0),
            empty == (self@.dom().len() == 0),
    {
        proof {
            use_type_invariant(self);
            lemma_map_of(self.entries@);
        }
        self.entries.len() == 0
    }

    /// The place of `key` among the entries.
    fn position(&self, key: &str) -> (place: Option<usize>)
        ensures
            match place {
                Some(i) => i < self.entries().len() && self.entries()[i as int].0@ == key@,
                None => forall|i: int|
                    0 <= i < self.entries().len() ==> (#[trigger] self.entries()[i]).0@ != key@,
            },
    {
        let mut i: usize = 0;
        while i < self.entries.len()
            invariant
                i <= self.entries.len(),
                forall|k: int| 0 <= k < i ==> (#[trigger] self.entries@[k]).0@ != key@,
            decreases self.entries.len() - i,
        {
            if text_eq(self.entries[i].0.as_str(), key) {
                return Some(i);
            }
            i += 1;
        }
        None
    }

    /// Whether `key` has an entry.
    pub fn contains_key(&self, key: &str) -> (found: bool)
        ensures
            found == self@.dom().contains(key@),
    {
        proof {
            use_type_invariant(self);
            lemma_map_has(self.entries@, key@);
        }
        let place = self.position(key);
        proof {
            assert(self@ == map_of(self.entries@));
            assert(self.entries() == self.entries@);
            if place is Some {
                assert(self.entries@[place->0 as int].0@ == key@);
                assert(has_key(self.entries@, key@));
            } else {
                assert(!has_key(self.entries@, key@));
            }
        }
        place.is_some()
    }

    /// The value of `key`, if it has an entry.
    pub fn get(&self, key: &str) -> (value: Option<&V>)
        ensures
            match value {
                Some(v) => self@.dom().contains(key@) && *v == self@[key@],
                None => !self@.dom().contains(key@),
            },
    {
        proof {
            use_type_invariant(self);
            lemma_map_has(self.entries@, key@);
        }
        let place = self.position(key);
        proof {
            assert(self@ == map_of(self.entries@));
            assert(self.entries() == self.entries@);
            if place is Some {
                assert(self.entries@[place->0 as int].0@ == key@);
                assert(has_key(self.entries@, key@));
                lemma_map_at(self.entries@, place->0 as int);
            } else {
                assert(!has_key(self.entries@, key@));
            }
        }
        match place {
            Some(i) => Some(&self.entries[i].1),
            None => None,
        }
    }

    /// The key and the value of the entry at `index`, if there is one.
    pub fn entry_at(&self, index: usize) -> (entry: Option<(&String, &V)>)
        ensures
            match entry {
                Some((key, value)) => {
                    &&& index < self.entries().len()
                    &&& *key == self.entries()[index as int].0
                    &&& *value == self.entries()[index as int].1
                    &&& self@.dom().contains(key@)
                    &&& self@[key@] == *value
                },
                None => index >= self.entries().len(),
            },
    {
        proof {
            use_type_invariant(self);
        }
        if index < self.entries.len() {
            proof {
                lemma_map_at(self.entries@, index as int);
            }
            Some((&self.entries[index].0, &self.entries[index].1))
        } else {
            None
        }
    }

    /// Gives `key` the value `value`, and returns the value it had. A new key
    /// comes last among the entries; a key that was there keeps its place.
    pub fn insert(&mut self, key: String, value: V) -> (previous: Option<V>)
        ensures
            final(self)@ == old(self)@.insert(key@, value),
            match previous {
                Some(v) => old(self)@.dom().contains(key@) && v == old(self)@[key@],
                None => !old(self)@.dom().contains(key@),
            },
            old(self)@.dom().contains(key@) ==> final(self).entries().len() == old(
                self,
            ).entries().len(),
            !old(self)@.dom().contains(key@) ==> final(self).entries() == old(self).entries().push(
                (key, value),
            ),
    {
        proof {
            use_type_invariant(&*self);
            lemma_map_has(self.entries@, key@);
        }
        let ghost before = self.entries@;
        let place = self.position(key.as_str());
        proof {
            assert(self@ == map_of(before));
            assert(self.entries() == before);
            if place is Some {
                assert(before[place->0 as int].0@ == key@);
                assert(has_key(before, key@));
            } else {
                assert(!has_key(before, key@));
            }
        }
        let mut entries: Vec<(String, V)> = Vec::new();
        core::mem::swap(&mut self.entries, &mut entries);
        let previous = match place {
            Some(i) => {
                proof {
                    lemma_map_at(before, i as int);
                    lemma_map_of_update(before, i as int, (key, value));
                }
                let (_old_key, previous) = entries.remove(i);
                entries.insert(i, (key, value));
                assert(entries@ =~= before.update(i as int, (key, value)));
                Some(previous)
            },
            None => {
                proof {
                    lemma_map_of_push(before, (key, value));
                }
                entries.push((key, value));
                None
            },
        };
        core::mem::swap(&mut self.entries, &mut entries);
        previous
    }

    /// Takes the entry of `key` out, and returns the value it had. The other
    /// entries keep their order.
    pub fn remove(&mut self, key: &str) -> (previous: Option<V>)
        ensures
            final(self)@ == old(self)@.remove(key@),
            match previous {
                Some(v) => old(self)@.dom().contains(key@) && v == old(self)@[key@],
                None => !old(self)@.dom().contains(key@),
            },
    {
        proof {
            use_type_invariant(&*self);
            lemma_map_has(self.entries@, key@);
        }
        let ghost before = self.entries@;
        let place = self.position(key);
        proof {
            assert(self@ == map_of(before));
            assert(self.entries() == before);
            if place is Some {
                assert(before[place->0 as int].0@ == key@);
                assert(has_key(before, key@));
            } else {
                assert(!has_key(before, key@));
            }
        }
        match place {
            Some(i) => {
                proof {
                    lemma_map_at(before, i as int);
                    lemma_map_of_remove(before, i as int);
                }
                let mut entries: Vec<(String, V)> = Vec::new();
                core::mem::swap(&mut self.entries, &mut entries);
                let (_old_key, previous) = entries.remove(i);
                assert(entries@ =~= before.remove(i as int));
                core::mem::swap(&mut self.entries, &mut entries);
                Some(previous)
            },
            None => {
                assert(self@ =~= old(self)@.remove(key@));
                None
            },
        }
    }
}

} // verus!
