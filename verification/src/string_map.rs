//! A map from text to values that keeps its keys in the order in which they came.

use vstd::prelude::*;

use crate::text::same_text;

verus! {

/// A map with text keys. Its model is the map from the characters of each key to
/// the value; `keys` gives the keys in the order of their first insertion, in which
/// positions `0..len()` walk it.
#[derive(Debug)]
pub struct StringMap<V> {
    entries: Vec<(String, V)>,
}

/// The map that `entries` holds, later entries over earlier ones.
spec fn map_of<V>(entries: Seq<(String, V)>) -> Map<Seq<char>, V>
    decreases entries.len(),
{
    if entries.len() == 0 {
        Map::empty()
    } else {
        map_of(entries.drop_last()).insert(entries.last().0@, entries.last().1)
    }
}

spec fn keys_of<V>(entries: Seq<(String, V)>) -> Seq<Seq<char>> {
    entries.map_values(|e: (String, V)| e.0@)
}

proof fn lemma_map_of<V>(entries: Seq<(String, V)>)
    requires
        keys_of(entries).no_duplicates(),
    ensures
        forall|i: int|
            0 <= i < entries.len() ==> map_of(entries).contains_key(#[trigger] entries[i].0@)
                && map_of(entries)[entries[i].0@] == entries[i].1,
        forall|k: Seq<char>| #[trigger]
            map_of(entries).contains_key(k) <==> keys_of(entries).contains(k),
    decreases entries.len(),
{
    let keys = keys_of(entries);
    if entries.len() > 0 {
        let front = entries.drop_last();
        let n = entries.len() - 1;
        assert(keys_of(front) =~= keys.drop_last());
        lemma_map_of(front);
        assert forall|i: int| 0 <= i < entries.len() implies map_of(entries).contains_key(
            #[trigger] entries[i].0@,
        ) && map_of(entries)[entries[i].0@] == entries[i].1 by {
            if i < n {
                assert(front[i] == entries[i]);
                assert(keys[i] != keys[n]);
            }
        }
        assert forall|k: Seq<char>| #[trigger] map_of(entries).contains_key(k) <==> keys.contains(
            k,
        ) by {
            if map_of(entries).contains_key(k) {
                if k == entries.last().0@ {
                    assert(keys[n] == k);
                } else {
                    assert(map_of(front).contains_key(k));
                    assert(keys_of(front).contains(k));
                    let i = choose|i: int|
                        0 <= i < keys_of(front).len() && keys_of(front)[i] == k;
                    assert(keys_of(front)[i] == k);
                    assert(keys[i] == k);
                }
            }
            if keys.contains(k) {
                let i = keys.index_of(k);
                if i < n {
                    assert(keys_of(front)[i] == k);
                } else {
                    assert(k == entries.last().0@);
                }
            }
        }
    } else {
        assert(keys =~= Seq::empty());
    }
}

/// Two entry lists with distinct keys that agree entry by entry, but for the value
/// at `i`, are maps that agree but for the key there.
proof fn lemma_map_of_update<V>(before: Seq<(String, V)>, after: Seq<(String, V)>, i: int)
    requires
        0 <= i < before.len() == after.len(),
        keys_of(before).no_duplicates(),
        forall|j: int| 0 <= j < before.len() ==> #[trigger] before[j].0@ == after[j].0@,
        forall|j: int| 0 <= j < before.len() && j != i ==> #[trigger] before[j].1 == after[j].1,
    ensures
        keys_of(after) == keys_of(before),
        map_of(after) == map_of(before).insert(before[i].0@, after[i].1),
{
    assert(keys_of(after) =~= keys_of(before));
    lemma_map_of(before);
    lemma_map_of(after);
    let want = map_of(before).insert(before[i].0@, after[i].1);
    assert forall|k: Seq<char>| map_of(after).contains_key(k) <==> #[trigger] want.contains_key(
        k,
    ) by {
        assert(keys_of(before)[i] == before[i].0@);
        assert(map_of(before).contains_key(before[i].0@));
        assert(map_of(after).contains_key(k) <==> keys_of(after).contains(k));
        assert(map_of(before).contains_key(k) <==> keys_of(before).contains(k));
    }
    assert forall|k: Seq<char>| #[trigger] map_of(after).contains_key(k) implies map_of(after)[k]
        == want[k] by {
        let j = keys_of(after).index_of(k);
        assert(keys_of(after)[j] == k);
        assert(after[j].0@ == k && before[j].0@ == k);
        assert(before[j].1 == before[j].1);
        if j != i {
            assert(keys_of(before)[j] != keys_of(before)[i]);
        }
    }
    assert(map_of(after) =~= want);
}

impl<V> View for StringMap<V> {
    type V = Map<Seq<char>, V>;

    closed spec fn view(&self) -> Map<Seq<char>, V> {
        map_of(self.entries@)
    }
}

impl<V> StringMap<V> {
    #[verifier::type_invariant]
    spec fn keys_are_distinct(self) -> bool {
        keys_of(self.entries@).no_duplicates()
    }

    /// The keys, in the order of their first insertion.
    pub closed spec fn keys(&self) -> Seq<Seq<char>> {
        keys_of(self.entries@)
    }

    /// `keys` lists each key of the map once.
    pub open spec fn well_keyed(&self) -> bool {
        &&& self.keys().no_duplicates()
        &&& forall|k: Seq<char>| #[trigger] self@.contains_key(k) <==> self.keys().contains(k)
        &&& forall|i: int|
            0 <= i < self.keys().len() ==> self@.contains_key(#[trigger] self.keys()[i])
    }

    /// An empty map.
    pub fn new() -> (map: Self)
        ensures
            map@ == Map::<Seq<char>, V>::empty(),
            map.keys().len() == 0,
    {
        StringMap { entries: Vec::new() }
    }

    proof fn lemma_well_keyed(&self)
        requires
            keys_of(self.entries@).no_duplicates(),
        ensures
            self.well_keyed(),
    {
        lemma_map_of(self.entries@);
        assert forall|i: int| 0 <= i < self.keys().len() implies self@.contains_key(
            #[trigger] self.keys()[i],
        ) by {
            assert(self.keys()[i] == self.entries@[i].0@);
        }
    }

    /// The number of keys.
    pub fn len(&self) -> (n: usize)
        ensures
            n == self.keys().len(),
            self.well_keyed(),
    {
        proof {
            use_type_invariant(self);
            self.lemma_well_keyed();
        }
        self.entries.len()
    }

    /// The key at position `i`.
    pub fn key_at(&self, i: usize) -> (key: &String)
        requires
            i < self.keys().len(),
        ensures
            key@ == self.keys()[i as int],
    {
        &self.entries[i].0
    }

    /// The value under the key at position `i`.
    pub fn value_at(&self, i: usize) -> (value: &V)
        requires
            i < self.keys().len(),
        ensures
            *value == self@[self.keys()[i as int]],
    {
        proof {
            use_type_invariant(self);
            lemma_map_of(self.entries@);
            assert(self.keys()[i as int] == self.entries@[i as int].0@);
        }
        &self.entries[i].1
    }

    /// The position of a key.
    pub fn position(&self, key: &str) -> (at: Option<usize>)
        ensures
            at matches Some(i) ==> i < self.keys().len() && self.keys()[i as int] == key@,
            at is Some <==> self@.contains_key(key@),
            self.well_keyed(),
    {
        proof {
            use_type_invariant(self);
            self.lemma_well_keyed();
        }
        let mut i: usize = 0;
        while i < self.entries.len()
            invariant
                i <= self.entries.len(),
                self.well_keyed(),
                forall|j: int| 0 <= j < i ==> #[trigger] self.keys()[j] != key@,
            decreases self.entries.len() - i,
        {
            assert(self.keys()[i as int] == self.entries@[i as int].0@);
            if same_text(&self.entries[i].0, key) {
                assert(self@.contains_key(self.keys()[i as int]));
                return Some(i);
            }
            i += 1;
        }
        assert(!self.keys().contains(key@));
        None
    }

    /// The value under a key.
    pub fn get(&self, key: &str) -> (value: Option<&V>)
        ensures
            value == if self@.contains_key(key@) {
                Some(&self@[key@])
            } else {
                None
            },
    {
        match self.position(key) {
            Some(i) => Some(self.value_at(i)),
            None => None,
        }
    }

    /// Puts a value under the key at position `i`.
    pub fn set_at(&mut self, i: usize, value: V)
        requires
            i < old(self).keys().len(),
        ensures
            final(self)@ == old(self)@.insert(old(self).keys()[i as int], value),
            final(self).keys() == old(self).keys(),
    {
        proof {
            use_type_invariant(&*self);
        }
        let mut entries: Vec<(String, V)> = Vec::new();
        std::mem::swap(&mut self.entries, &mut entries);
        let ghost before = entries@;
        let key = entries[i].0.clone();
        entries.set(i, (key, value));
        proof {
            lemma_map_of_update(before, entries@, i as int);
            assert(keys_of(before)[i as int] == before[i as int].0@);
        }
        self.entries = entries;
    }

    /// Puts a value under a key, in place of the one that stood there.
    pub fn insert(&mut self, key: String, value: V)
        ensures
            final(self)@ == old(self)@.insert(key@, value),
            final(self).keys() == if old(self)@.contains_key(key@) {
                old(self).keys()
            } else {
                old(self).keys().push(key@)
            },
    {
        match self.position(&key) {
            Some(i) => self.set_at(i, value),
            None => {
                proof {
                    use_type_invariant(&*self);
                }
                let mut entries: Vec<(String, V)> = Vec::new();
                std::mem::swap(&mut self.entries, &mut entries);
                let ghost before = entries@;
                entries.push((key, value));
                proof {
                    assert(entries@.drop_last() =~= before);
                    assert(keys_of(entries@) =~= keys_of(before).push(key@));
                    assert(!keys_of(before).contains(key@));
                    assert forall|i: int, j: int|
                        0 <= i < j < keys_of(entries@).len() implies keys_of(entries@)[i]
                        != keys_of(entries@)[j] by {
                        if j == before.len() {
                            assert(keys_of(before).contains(keys_of(before)[i]));
                        }
                    }
                }
                self.entries = entries;
            },
        }
    }
}

} // verus!
