//! A map whose keys are texts, which can be walked.
use crate::text::texts;
use vstd::hash_map::StringHashMap;
use vstd::prelude::*;

verus! {

broadcast use {vstd::seq_lib::group_seq_properties, crate::text::lemma_texts_push};

/// A map from texts to values. The entries stand in a row, and an index tells
/// where the entry of a key is.
pub struct StringMap<V> {
    entries: Vec<(String, V)>,
    index: StringHashMap<usize>,
}

impl<V> View for StringMap<V> {
    type V = Map<Seq<char>, V>;

    closed spec fn view(&self) -> Map<Seq<char>, V> {
        Map::new(
            |k: Seq<char>| self.index@.contains_key(k),
            |k: Seq<char>| self.entries@[self.index@[k] as int].1,
        )
    }
}

impl<V> StringMap<V> {
    /// Every entry is where the index says, and the index knows each.
    #[verifier::type_invariant]
    closed spec fn indexed(self) -> bool {
        &&& forall|i: int|
            0 <= i < self.entries@.len() ==> {
                let k = (#[trigger] self.entries@[i]).0@;
                self.index@.contains_key(k) && self.index@[k] == i
            }
        &&& forall|k: Seq<char>| #[trigger]
            self.index@.contains_key(k) ==> self.index@[k] < self.entries@.len()
                && self.entries@[self.index@[k] as int].0@ == k
    }

    /// The keys, in the order in which the entries stand.
    pub closed spec fn order(self) -> Seq<Seq<char>> {
        Seq::new(self.entries@.len(), |i: int| self.entries@[i].0@)
    }

    /// Each key stands once in the order, and nothing else does.
    pub open spec fn ordered(self) -> bool {
        &&& self.order().no_duplicates()
        &&& self.order().to_set() == self@.dom()
        &&& self@.dom().finite()
        &&& self@.dom().len() == self.order().len()
    }

    proof fn lemma_ordered(self)
        requires
            self.indexed(),
        ensures
            self.ordered(),
    {
        assert forall|i: int, j: int|
            0 <= i < self.order().len() && 0 <= j < self.order().len() && i != j implies self.order()[i]
            != self.order()[j] by {
            assert(self.entries@[i].0@ != self.entries@[j].0@);
        }
        assert(self.order().to_set() =~= self@.dom()) by {
            assert forall|k: Seq<char>| self@.dom().contains(k) implies self.order().to_set().contains(
                k,
            ) by {
                assert(self.order()[self.index@[k] as int] == k);
            }
            assert forall|k: Seq<char>| self.order().to_set().contains(k) implies self@.dom().contains(
                k,
            ) by {
                let i = choose|i: int| 0 <= i < self.order().len() && self.order()[i] == k;
                assert(self.entries@[i].0@ == k);
            }
        }
        self.order().unique_seq_to_set();
    }

    /// A map without entries.
    pub fn new() -> (map: Self)
        ensures
            map@ == Map::<Seq<char>, V>::empty(),
            map.ordered(),
    {
        let map = StringMap { entries: Vec::new(), index: StringHashMap::new() };
        proof {
            use_type_invariant(&map);
            map.lemma_ordered();
            assert(map@ =~= Map::<Seq<char>, V>::empty());
        }
        map
    }

    /// The number of entries.
    pub fn len(&self) -> (n: usize)
        ensures
            n == self@.dom().len(),
            n == self.order().len(),
            self.ordered(),
    {
        proof {
            use_type_invariant(self);
            self.lemma_ordered();
        }
        self.entries.len()
    }

    /// Tells whether the map has no entry.
    pub fn is_empty(&self) -> (yes: bool)
        ensures
            yes == (self@ == Map::<Seq<char>, V>::empty()),
    {
        proof {
            use_type_invariant(self);
            if self.entries@.len() == 0 {
                assert(self@ =~= Map::<Seq<char>, V>::empty());
            } else {
                assert(self@.contains_key(self.entries@[0].0@));
            }
        }
        self.entries.len() == 0
    }

    /// The entry at a place in the order.
    pub fn entry_at(&self, i: usize) -> (entry: (&String, &V))
        requires
            i < self.order().len(),
        ensures
            entry.0@ == self.order()[i as int],
            self@.contains_key(entry.0@),
            *entry.1 == self@[entry.0@],
    {
        proof {
            use_type_invariant(self);
            assert(self.index@.contains_key(self.entries@[i as int].0@));
        }
        let entry = &self.entries[i];
        (&entry.0, &entry.1)
    }

    /// The value of a key.
    pub fn get(&self, key: &str) -> (value: Option<&V>)
        ensures
            match value {
                Some(v) => self@.contains_key(key@) && self@[key@] == *v,
                None => !self@.contains_key(key@),
            },
    {
        proof {
            use_type_invariant(self);
        }
        match self.index.get(key) {
            Some(i) => Some(&self.entries[*i].1),
            None => None,
        }
    }

    /// Tells whether the map has an entry for the key.
    pub fn contains_key(&self, key: &str) -> (yes: bool)
        ensures
            yes == self@.contains_key(key@),
    {
        self.index.contains_key(key)
    }

    /// Gives the key the value, in place of the one that it may have had.
    pub fn insert(&mut self, key: String, value: V)
        ensures
            final(self)@ == old(self)@.insert(key@, value),
    {
        proof {
            use_type_invariant(&*self);
        }
        let mut parts = StringMap { entries: Vec::new(), index: StringHashMap::new() };
        std::mem::swap(self, &mut parts);
        proof {
            use_type_invariant(&parts);
        }
        let ghost before = parts;
        let StringMap { mut entries, mut index } = parts;
        let known: Option<usize> = match index.get(key.as_str()) {
            Some(i) => Some(*i),
            None => None,
        };
        match known {
            Some(i) => {
                entries.set(i, (key, value));
            },
            None => {
                index.insert(key.clone(), entries.len());
                entries.push((key, value));
            },
        }
        *self = StringMap { entries, index };
        proof {
            assert(self@ =~= before@.insert(key@, value));
        }
    }

    /// Takes the key's entry out of the map and hands out its value.
    pub fn remove(&mut self, key: &str) -> (value: Option<V>)
        ensures
            final(self)@ == old(self)@.remove(key@),
            match value {
                Some(v) => old(self)@.contains_key(key@) && old(self)@[key@] == v,
                None => !old(self)@.contains_key(key@),
            },
    {
        let mut parts = StringMap { entries: Vec::new(), index: StringHashMap::new() };
        std::mem::swap(self, &mut parts);
        proof {
            use_type_invariant(&parts);
        }
        let ghost before = parts;
        let StringMap { mut entries, mut index } = parts;
        let known: Option<usize> = match index.get(key) {
            Some(i) => Some(*i),
            None => None,
        };
        let value = match known {
            Some(i) => {
                let (_, value) = entries.swap_remove(i);
                index.remove(key);
                if i < entries.len() {
                    index.insert(entries[i].0.clone(), i);
                }
                Some(value)
            },
            None => None,
        };
        *self = StringMap { entries, index };
        proof {
            assert(self@ =~= before@.remove(key@));
        }
        value
    }

    /// The entries, in their order.
    pub fn into_entries(self) -> (entries: Vec<(String, V)>)
        ensures
            self.ordered(),
            entries@.len() == self.order().len(),
            forall|i: int|
                0 <= i < entries@.len() ==> {
                    &&& (#[trigger] entries@[i]).0@ == self.order()[i]
                    &&& self@.contains_key(entries@[i].0@)
                    &&& self@[entries@[i].0@] == entries@[i].1
                },
    {
        proof {
            use_type_invariant(&self);
            self.lemma_ordered();
        }
        let StringMap { entries, index: _ } = self;
        entries
    }

    /// The keys, each once.
    pub fn keys(&self) -> (keys: Vec<String>)
        ensures
            texts(keys@) == self.order(),
            self.ordered(),
    {
        let n = self.len();
        let mut keys: Vec<String> = Vec::new();
        let mut i: usize = 0;
        while i < n
            invariant
                i <= n,
                n == self.order().len(),
                texts(keys@) == self.order().take(i as int),
            decreases n - i,
        {
            let entry = self.entry_at(i);
            keys.push(entry.0.clone());
            proof {
                assert(self.order().take(i + 1) =~= self.order().take(i as int).push(
                    self.order()[i as int],
                ));
            }
            i += 1;
        }
        keys
    }
}

} // verus!
