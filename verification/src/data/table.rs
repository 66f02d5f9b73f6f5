use vstd::prelude::*;

use crate::crypto::Digest;

verus! {

/// The keys of a list of entries, as byte strings.
pub open spec fn keys_of<V>(entries: Seq<(Digest, V)>) -> Seq<Seq<u8>> {
    entries.map_values(|entry: (Digest, V)| entry.0@)
}

/// The map that a list of entries with distinct keys stands for.
pub open spec fn map_of<V>(entries: Seq<(Digest, V)>) -> Map<Seq<u8>, V> {
    Map::new(
        |key: Seq<u8>| keys_of(entries).contains(key),
        |key: Seq<u8>| entries[keys_of(entries).index_of(key)].1,
    )
}

/// A map from digests to values, each digest present at most once.
pub struct Table<V> {
    entries: Vec<(Digest, V)>,
}

impl<V> Table<V> {
    pub closed spec fn spec_entries(&self) -> Seq<(Digest, V)> {
        self.entries@
    }

    /// The map from the bytes of each digest to its value.
    pub open spec fn spec_map(&self) -> Map<Seq<u8>, V> {
        map_of(self.spec_entries())
    }

    /// No digest occurs twice.
    pub open spec fn wf(&self) -> bool {
        keys_of(self.spec_entries()).no_duplicates()
    }

    pub fn new() -> (result: Table<V>)
        ensures
            result.wf(),
            result.spec_map() == Map::<Seq<u8>, V>::empty(),
    {
        let result = Table { entries: Vec::new() };
        assert(keys_of(result.spec_entries()) =~= Seq::<Seq<u8>>::empty());
        assert(result.spec_map() =~= Map::<Seq<u8>, V>::empty());
        result
    }

    /// The number of entries.
    pub fn len(&self) -> (result: usize)
        requires
            self.wf(),
        ensures
            result == self.spec_map().dom().len(),
    {
        proof {
            self.lemma_domain();
        }
        self.entries.len()
    }

    /// The domain of the map has as many keys as there are entries.
    pub proof fn lemma_domain(&self)
        requires
            self.wf(),
        ensures
            self.spec_map().dom() == keys_of(self.spec_entries()).to_set(),
            self.spec_map().dom().len() == self.spec_entries().len(),
            self.spec_map().dom().finite(),
    {
        let keys = keys_of(self.spec_entries());
        assert(self.spec_map().dom() =~= keys.to_set());
        keys.unique_seq_to_set();
    }

    /// The position of `key` among the entries, if present.
    fn position(&self, key: &Digest) -> (result: Option<usize>)
        requires
            self.wf(),
        ensures
            match result {
                Some(index) => index < self.spec_entries().len() && keys_of(self.spec_entries())[index as int]
                    == key@ && keys_of(self.spec_entries()).index_of(key@) == index,
                None => !keys_of(self.spec_entries()).contains(key@),
            },
    {
        let ghost keys = keys_of(self.spec_entries());
        let mut index: usize = 0;
        while index < self.entries.len()
            invariant
                keys == keys_of(self.entries@),
                keys.no_duplicates(),
                0 <= index <= self.entries@.len(),
                forall|j: int| 0 <= j < index ==> keys[j] != key@,
            decreases self.entries@.len() - index,
        {
            if self.entries[index].0.equals(key) {
                proof {
                    assert(keys[index as int] == key@);
                    assert(keys.contains(key@));
                }
                return Some(index);
            }
            index = index + 1;
        }
        None
    }

    pub fn contains_key(&self, key: &Digest) -> (result: bool)
        requires
            self.wf(),
        ensures
            result == self.spec_map().contains_key(key@),
    {
        self.position(key).is_some()
    }

    pub fn get(&self, key: &Digest) -> (result: Option<&V>)
        requires
            self.wf(),
        ensures
            match result {
                Some(value) => self.spec_map().contains_key(key@) && *value == self.spec_map()[key@],
                None => !self.spec_map().contains_key(key@),
            },
    {
        match self.position(key) {
            Some(index) => Some(&self.entries[index].1),
            None => None,
        }
    }

    /// Maps `key` to `value`; returns the value that `key` had before, if any.
    pub fn insert(&mut self, key: Digest, value: V) -> (result: Option<V>)
        requires
            old(self).wf(),
        ensures
            final(self).wf(),
            final(self).spec_map() == old(self).spec_map().insert(key@, value),
            match result {
                Some(previous) => old(self).spec_map().contains_key(key@) && previous
                    == old(self).spec_map()[key@],
                None => !old(self).spec_map().contains_key(key@),
            },
    {
        let ghost before = self.entries@;
        match self.position(&key) {
            Some(index) => {
                let mut previous = (key, value);
                std::mem::swap(&mut self.entries[index], &mut previous);
                proof {
                    let after = self.entries@;
                    assert(keys_of(after) =~= keys_of(before));
                    assert forall|k: Seq<u8>| #[trigger] keys_of(after).contains(k) implies after[keys_of(
                        after,
                    ).index_of(k)].1 == map_of(before).insert(key@, value)[k] by {
                        let i = keys_of(after).index_of(k);
                        if k == key@ {
                            assert(i == index);
                        } else {
                            assert(keys_of(after)[i] == k);
                            assert(i != index);
                        }
                    }
                    assert(map_of(after) =~= map_of(before).insert(key@, value));
                }
                Some(previous.1)
            },
            None => {
                self.entries.push((key, value));
                proof {
                    let after = self.entries@;
                    assert(keys_of(after) =~= keys_of(before).push(key@));
                    assert forall|k: Seq<u8>| #[trigger] keys_of(after).contains(k) implies after[keys_of(
                        after,
                    ).index_of(k)].1 == map_of(before).insert(key@, value)[k] by {
                        let i = keys_of(after).index_of(k);
                        assert(keys_of(after)[i] == k);
                        if k == key@ {
                            if i < before.len() {
                                assert(keys_of(before)[i] == k);
                            }
                            assert(i == before.len());
                        } else {
                            assert(i < before.len());
                            assert(keys_of(before)[i] == k);
                            assert(keys_of(before).contains(k));
                            let j = keys_of(before).index_of(k);
                            assert(keys_of(before)[j] == k);
                            assert(keys_of(after)[j] == k);
                        }
                    }
                    assert forall|k: Seq<u8>| #[trigger] map_of(before).insert(key@, value).contains_key(
                        k,
                    ) implies keys_of(after).contains(k) by {
                        if k == key@ {
                            assert(keys_of(after)[before.len() as int] == k);
                        } else {
                            let j = keys_of(before).index_of(k);
                            assert(keys_of(after)[j] == k);
                        }
                    }
                    assert(map_of(after) =~= map_of(before).insert(key@, value));
                }
                None
            },
        }
    }

    /// The entries, in insertion order.
    pub fn entries(&self) -> (result: &Vec<(Digest, V)>)
        ensures
            result@ == self.spec_entries(),
    {
        &self.entries
    }
}

} // verus!
