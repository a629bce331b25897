//! A small map from strings to strings that remembers the order in which its
//! keys were first inserted.

use crate::text::same_text;
use vstd::prelude::*;

verus! {

/// The map that a sequence of key and value pairs stands for: a later pair
/// overrides an earlier one with the same key.
pub open spec fn map_of(entries: Seq<(String, String)>) -> Map<Seq<char>, Seq<char>>
    decreases entries.len(),
{
    if entries.len() == 0 {
        Map::empty()
    } else {
        map_of(entries.drop_last()).insert(entries.last().0@, entries.last().1@)
    }
}

/// Whether no key occurs twice in `entries`.
pub open spec fn distinct_keys(entries: Seq<(String, String)>) -> bool {
    forall|i: int, j: int|
        0 <= i < j < entries.len() ==> (#[trigger] entries[i]).0@ != (#[trigger] entries[j]).0@
}

/// A key that stands at some position is in the map.
pub proof fn lemma_map_of_contains(entries: Seq<(String, String)>, i: int)
    requires
        0 <= i < entries.len(),
    ensures
        map_of(entries).contains_key(entries[i].0@),
    decreases entries.len(),
{
    if i < entries.len() - 1 {
        lemma_map_of_contains(entries.drop_last(), i);
    }
}

/// A key that stands at no position is not in the map.
pub proof fn lemma_map_of_absent(entries: Seq<(String, String)>, key: Seq<char>)
    requires
        forall|i: int| 0 <= i < entries.len() ==> (#[trigger] entries[i]).0@ != key,
    ensures
        !map_of(entries).contains_key(key),
    decreases entries.len(),
{
    if entries.len() > 0 {
        assert(entries.last().0@ != key);
        lemma_map_of_absent(entries.drop_last(), key);
    }
}

/// With distinct keys, the map gives each key the value that stands beside it.
pub proof fn lemma_map_of_value(entries: Seq<(String, String)>, i: int)
    requires
        0 <= i < entries.len(),
        distinct_keys(entries),
    ensures
        map_of(entries).contains_key(entries[i].0@),
        map_of(entries)[entries[i].0@] == entries[i].1@,
    decreases entries.len(),
{
    lemma_map_of_contains(entries, i);
    if i < entries.len() - 1 {
        assert(entries[i].0@ != entries[entries.len() - 1].0@);
        lemma_map_of_value(entries.drop_last(), i);
    }
}

/// With distinct keys, a new value at one position is an insertion under
/// that position's key.
pub proof fn lemma_map_of_update(entries: Seq<(String, String)>, i: int, pair: (String, String))
    requires
        0 <= i < entries.len(),
        distinct_keys(entries),
        pair.0@ == entries[i].0@,
    ensures
        distinct_keys(entries.update(i, pair)),
        map_of(entries.update(i, pair)) == map_of(entries).insert(pair.0@, pair.1@),
    decreases entries.len(),
{
    let updated = entries.update(i, pair);
    assert forall|a: int, b: int| 0 <= a < b < updated.len() implies (#[trigger] updated[a]).0@ != (
    #[trigger] updated[b]).0@ by {
        assert(entries[a].0@ != entries[b].0@);
    }
    if i == entries.len() - 1 {
        assert(updated.drop_last() == entries.drop_last());
        assert(map_of(updated) == map_of(entries).insert(pair.0@, pair.1@));
    } else {
        assert(updated.drop_last() == entries.drop_last().update(i, pair));
        assert(updated.last() == entries.last());
        assert(entries[i].0@ != entries[entries.len() - 1].0@);
        lemma_map_of_update(entries.drop_last(), i, pair);
        assert(map_of(updated) == map_of(entries).insert(pair.0@, pair.1@));
    }
}

/// The keys of `entries`, each once, in the order in which they first
/// occur.
pub open spec fn first_keys(entries: Seq<(String, String)>) -> Seq<Seq<char>>
    decreases entries.len(),
{
    if entries.len() == 0 {
        Seq::empty()
    } else {
        let before = first_keys(entries.drop_last());
        if before.contains(entries.last().0@) {
            before
        } else {
            before.push(entries.last().0@)
        }
    }
}

/// [`first_keys`] holds no key twice, and holds exactly the keys of the map.
pub proof fn lemma_first_keys(entries: Seq<(String, String)>)
    ensures
        first_keys(entries).no_duplicates(),
        forall|key: Seq<char>|
            first_keys(entries).contains(key) <==> map_of(entries).contains_key(key),
    decreases entries.len(),
{
    if entries.len() > 0 {
        let shorter = entries.drop_last();
        let before = first_keys(shorter);
        let last = entries.last().0@;
        lemma_first_keys(shorter);
        let keys = first_keys(entries);
        if !before.contains(last) {
            assert forall|i: int, j: int|
                0 <= i < keys.len() && 0 <= j < keys.len() && i != j implies keys[i] != keys[j] by {
                if i < before.len() {
                    assert(before.contains(keys[i]));
                }
                if j < before.len() {
                    assert(before.contains(keys[j]));
                }
            }
        }
        assert forall|key: Seq<char>| keys.contains(key) <==> map_of(entries).contains_key(
            key,
        ) by {
            if keys.contains(key) {
                let i = choose|i: int| 0 <= i < keys.len() && keys[i] == key;
                if i < before.len() {
                    assert(before.contains(key));
                }
            }
            if map_of(entries).contains_key(key) {
                if key == last {
                    if !before.contains(last) {
                        assert(keys[keys.len() - 1] == key);
                    }
                } else {
                    assert(before.contains(key));
                    let i = choose|i: int| 0 <= i < before.len() && before[i] == key;
                    assert(keys[i] == key);
                }
            }
        }
    }
}

/// Where no key occurs twice, [`first_keys`] is the keys as they stand.
pub proof fn lemma_first_keys_of_distinct(entries: Seq<(String, String)>)
    requires
        distinct_keys(entries),
    ensures
        first_keys(entries) == entries.map_values(|e: (String, String)| e.0@),
    decreases entries.len(),
{
    if entries.len() > 0 {
        let shorter = entries.drop_last();
        let before = first_keys(shorter);
        assert forall|i: int, j: int| 0 <= i < j < shorter.len() implies (#[trigger] shorter[i]).0@
            != (#[trigger] shorter[j]).0@ by {
            assert(entries[i].0@ != entries[j].0@);
        }
        lemma_first_keys_of_distinct(shorter);
        if before.contains(entries.last().0@) {
            let i = choose|i: int| 0 <= i < before.len() && before[i] == entries.last().0@;
            assert(entries[i].0@ != entries[entries.len() - 1].0@);
        }
        assert(before.push(entries.last().0@) == entries.map_values(|e: (String, String)| e.0@));
    }
}

/// A map from strings to strings, kept as a list of pairs in the order in
/// which the keys were first inserted. No key occurs twice.
#[derive(Debug)]
pub struct StringMap {
    entries: Vec<(String, String)>,
}

impl View for StringMap {
    type V = Map<Seq<char>, Seq<char>>;

    closed spec fn view(&self) -> Map<Seq<char>, Seq<char>> {
        map_of(self.entries@)
    }
}

impl Clone for StringMap {
    fn clone(&self) -> (m: StringMap)
        ensures
            m@ == self@,
            m.keys() == self.keys(),
    {
        self.duplicate()
    }
}

impl StringMap {
    #[verifier::type_invariant]
    spec fn well_formed(self) -> bool {
        distinct_keys(self.entries@)
    }

    /// The keys in the order of their first insertion.
    pub closed spec fn keys(self) -> Seq<Seq<char>> {
        first_keys(self.entries@)
    }

    /// An empty map.
    pub fn new() -> (m: StringMap)
        ensures
            m@ == Map::<Seq<char>, Seq<char>>::empty(),
            m.keys() == Seq::<Seq<char>>::empty(),
    {
        StringMap { entries: Vec::new() }
    }

    /// The position of `key` among the entries, or their number where it is
    /// not there.
    fn position(&self, key: &str) -> (i: usize)
        ensures
            i <= self.entries@.len(),
            i < self.entries@.len() ==> self.entries@[i as int].0@ == key@,
            i == self.entries@.len() ==> !self@.contains_key(key@),
    {
        let mut i: usize = 0;
        while i < self.entries.len()
            invariant
                i <= self.entries@.len(),
                forall|j: int| 0 <= j < i ==> (#[trigger] self.entries@[j]).0@ != key@,
            decreases self.entries@.len() - i,
        {
            if same_text(self.entries[i].0.as_str(), key) {
                return i;
            }
            i += 1;
        }
        proof {
            lemma_map_of_absent(self.entries@, key@);
        }
        i
    }

    /// The keys list each key of the map once: no key stands twice among
    /// them, and a text is among them exactly where the map has it as a key.
    /// So there are as many keys as the map has entries.
    pub proof fn lemma_keys(self)
        ensures
            self.keys().no_duplicates(),
            forall|key: Seq<char>| self.keys().contains(key) <==> self@.contains_key(key),
            self@.dom().finite(),
            self.keys().len() == self@.len(),
    {
        let keys = self.keys();
        lemma_first_keys(self.entries@);
        assert(keys.to_set() =~= self@.dom());
        keys.unique_seq_to_set();
        vstd::seq_lib::seq_to_set_is_finite(keys);
    }

    /// The number of keys, which is the number of entries of the map.
    pub fn len(&self) -> (n: usize)
        ensures
            n == self.keys().len(),
            n == self@.len(),
    {
        proof {
            use_type_invariant(self);
            lemma_first_keys_of_distinct(self.entries@);
            self.lemma_keys();
        }
        self.entries.len()
    }

    /// Whether `key` has a value.
    pub fn contains_key(&self, key: &str) -> (r: bool)
        ensures
            r == self@.contains_key(key@),
    {
        let i = self.position(key);
        proof {
            if i < self.entries@.len() {
                lemma_map_of_contains(self.entries@, i as int);
            }
        }
        i < self.entries.len()
    }

    /// The value of `key`, if it has one.
    pub fn get(&self, key: &str) -> (r: Option<&String>)
        ensures
            r is Some == self@.contains_key(key@),
            r matches Some(v) ==> v@ == self@[key@],
    {
        let i = self.position(key);
        if i < self.entries.len() {
            proof {
                use_type_invariant(self);
                lemma_map_of_value(self.entries@, i as int);
            }
            Some(&self.entries[i].1)
        } else {
            None
        }
    }

    /// Gives `key` the value `value`, in place of the value it had, if any.
    pub fn insert(&mut self, key: String, value: String)
        ensures
            final(self)@ == old(self)@.insert(key@, value@),
            old(self)@.contains_key(key@) ==> final(self).keys() == old(self).keys(),
            !old(self)@.contains_key(key@) ==> final(self).keys() == old(self).keys().push(key@),
    {
        proof {
            use_type_invariant(&*self);
            lemma_first_keys_of_distinct(self.entries@);
        }
        let i = self.position(key.as_str());
        let mut taken = StringMap::new();
        std::mem::swap(self, &mut taken);
        let mut entries = taken.entries;
        let ghost before = entries@;
        if i < entries.len() {
            proof {
                lemma_map_of_contains(before, i as int);
                lemma_map_of_update(before, i as int, (key, value));
                assert(before.update(i as int, (key, value)).map_values(
                    |e: (String, String)| e.0@,
                ) == before.map_values(|e: (String, String)| e.0@));
                lemma_first_keys_of_distinct(before.update(i as int, (key, value)));
            }
            entries.set(i, (key, value));
        } else {
            proof {
                let pushed = before.push((key, value));
                assert(pushed.drop_last() == before);
                assert forall|a: int, b: int| 0 <= a < b < pushed.len() implies (
                #[trigger] pushed[a]).0@ != (#[trigger] pushed[b]).0@ by {
                    if b == pushed.len() - 1 {
                        lemma_map_of_contains(before, a);
                    }
                }
                assert(pushed.map_values(|e: (String, String)| e.0@) == before.map_values(
                    |e: (String, String)| e.0@,
                ).push(key@));
                lemma_first_keys_of_distinct(pushed);
            }
            entries.push((key, value));
        }
        *self = StringMap { entries };
    }

    /// A map with the same keys, in the same order, and the same values.
    pub fn duplicate(&self) -> (m: StringMap)
        ensures
            m@ == self@,
            m.keys() == self.keys(),
    {
        let mut entries: Vec<(String, String)> = Vec::new();
        let mut i: usize = 0;
        while i < self.entries.len()
            invariant
                i <= self.entries@.len(),
                entries@ == self.entries@.take(i as int),
            decreases self.entries@.len() - i,
        {
            entries.push((self.entries[i].0.clone(), self.entries[i].1.clone()));
            i += 1;
        }
        proof {
            use_type_invariant(self);
            assert(entries@ == self.entries@);
        }
        StringMap { entries }
    }

    /// The key at position `i` in the order of first insertion, with its
    /// value.
    pub fn entry(&self, i: usize) -> (r: (&String, &String))
        requires
            i < self.keys().len(),
        ensures
            r.0@ == self.keys()[i as int],
            self@.contains_key(r.0@),
            r.1@ == self@[r.0@],
    {
        proof {
            use_type_invariant(self);
            lemma_first_keys_of_distinct(self.entries@);
            lemma_map_of_value(self.entries@, i as int);
        }
        (&self.entries[i].0, &self.entries[i].1)
    }
}

} // verus!
