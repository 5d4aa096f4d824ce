//! Keyed collections.
//!
//! [`KeyMap`] and [`KeySet`] hold their entries in insertion order and find
//! them by comparing keys, so that what they hold is known exactly: a map from
//! key identities to values, and a set of key identities.

use crate::key::DependencyKey;
use crate::key::KeyId;
use crate::traversal::first_occurrence;
use vstd::prelude::*;

verus! {

/// A copy of a list of keys.
pub fn copy_keys(keys: &Vec<DependencyKey>) -> (copy: Vec<DependencyKey>)
    ensures
        copy@ == keys@,
{
    let n = keys.len();
    let mut copy: Vec<DependencyKey> = Vec::new();
    let mut i: usize = 0;
    while i < n
        invariant
            n == keys.len(),
            i <= n,
            copy@ == keys@.take(i as int),
        decreases n - i,
    {
        copy.push(keys[i]);
        proof {
            assert(keys@.take(i as int + 1) =~= keys@.take(i as int).push(keys@[i as int]));
        }
        i = i + 1;
    }
    copy
}

/// Whether a list of keys holds a key of the identity of `key`.
pub fn holds_key(keys: &Vec<DependencyKey>, key: &DependencyKey) -> (found: bool)
    ensures
        found == ids_of(keys@).contains(key@),
{
    let ghost ids = ids_of(keys@);
    let n = keys.len();
    let mut i: usize = 0;
    while i < n
        invariant
            n == keys@.len(),
            i <= n,
            ids == ids_of(keys@),
            forall|j: int| 0 <= j < i ==> ids[j] != key@,
        decreases n - i,
    {
        if keys[i].same(key) {
            assert(ids[i as int] == key@);
            return true;
        }
        i = i + 1;
    }
    false
}

/// The chain that closes at `key`: the path from the first occurrence of
/// `key`, and `key` once more.
pub fn closing_chain(path: &Vec<DependencyKey>, key: &DependencyKey) -> (chain: Vec<DependencyKey>)
    requires
        ids_of(path@).contains(key@),
    ensures
        chain@ == path@.subrange(first_occurrence(ids_of(path@), key@), path@.len() as int).push(
            *key,
        ),
{
    let ghost ids = ids_of(path@);
    let n = path.len();
    let mut start: usize = 0;
    while start < n && !path[start].same(key)
        invariant
            n == path@.len(),
            start <= n,
            ids == ids_of(path@),
            ids.contains(key@),
            forall|i: int| 0 <= i < start ==> ids[i] != key@,
        decreases n - start,
    {
        start = start + 1;
    }
    assert(start < n) by {
        let w = choose|w: int| 0 <= w < ids.len() && ids[w] == key@;
    }
    assert(ids[start as int] == key@);
    assert(first_occurrence(ids, key@) == start) by {
        let f = first_occurrence(ids, key@);
        if f < start {
            assert(ids[f] != key@);
        }
    }
    let mut chain: Vec<DependencyKey> = Vec::new();
    let mut i: usize = start;
    while i < n
        invariant
            n == path@.len(),
            start <= i <= n,
            chain@ == path@.subrange(start as int, i as int),
        decreases n - i,
    {
        chain.push(path[i]);
        proof {
            assert(path@.subrange(start as int, i as int + 1) =~= path@.subrange(
                start as int,
                i as int,
            ).push(path@[i as int]));
        }
        i = i + 1;
    }
    chain.push(*key);
    chain
}

/// One entry of a [`KeyMap`]: the key as it was first inserted, and its value.
pub struct Entry<V> {
    pub key: DependencyKey,
    pub value: V,
}

/// The identities of a sequence of keys, in the same order.
pub open spec fn ids_of(keys: Seq<DependencyKey>) -> Seq<KeyId> {
    keys.map_values(|k: DependencyKey| k@)
}

/// The keys of a sequence of entries, in the same order.
pub open spec fn entry_keys<V>(entries: Seq<Entry<V>>) -> Seq<DependencyKey> {
    entries.map_values(|e: Entry<V>| e.key)
}

/// The values of a sequence of entries, in the same order.
pub open spec fn entry_values<V>(entries: Seq<Entry<V>>) -> Seq<V> {
    entries.map_values(|e: Entry<V>| e.value)
}

/// A map from dependency keys to values that keeps insertion order.
///
/// No key identity occurs twice. Inserting under a key that is already present
/// replaces the value and leaves the stored key and its position as they were.
pub struct KeyMap<V> {
    entries: Vec<Entry<V>>,
}

impl<V> View for KeyMap<V> {
    type V = Map<KeyId, V>;

    open spec fn view(&self) -> Map<KeyId, V> {
        Map::new(
            |id: KeyId| self.ids().contains(id),
            |id: KeyId| self.spec_values()[self.ids().index_of(id)],
        )
    }
}

impl<V> KeyMap<V> {
    /// The stored keys, in insertion order.
    pub closed spec fn spec_keys(&self) -> Seq<DependencyKey> {
        entry_keys(self.entries@)
    }

    /// The stored values, in the order of their keys.
    pub closed spec fn spec_values(&self) -> Seq<V> {
        entry_values(self.entries@)
    }

    /// The identities of the stored keys, in insertion order.
    pub open spec fn ids(&self) -> Seq<KeyId> {
        ids_of(self.spec_keys())
    }

    #[verifier::type_invariant]
    spec fn distinct(&self) -> bool {
        self.ids().no_duplicates()
    }

    /// Keys and values run in step, and the keys of the map are those stored.
    pub proof fn lemma_shape(&self)
        ensures
            self.spec_keys().len() == self.spec_values().len(),
            self.ids().len() == self.spec_keys().len(),
            self@.dom().finite(),
            self@.dom() == self.ids().to_set(),
            forall|i: int|
                0 <= i < self.ids().len() ==> self@.dom().contains(#[trigger] self.ids()[i]),
    {
        vstd::seq_lib::seq_to_set_is_finite(self.ids());
    }

    /// Creates an empty map.
    pub fn new() -> (m: Self)
        ensures
            m@ == Map::<KeyId, V>::empty(),
            m.spec_keys() == Seq::<DependencyKey>::empty(),
    {
        let m = KeyMap { entries: Vec::new() };
        m
    }

    /// The number of entries.
    pub fn len(&self) -> (n: usize)
        ensures
            n == self.spec_keys().len(),
            n == self@.dom().len(),
    {
        proof {
            use_type_invariant(self);
            self.lemma_shape();
            self.ids().unique_seq_to_set();
        }
        self.entries.len()
    }

    /// Whether the map holds no entry.
    pub fn is_empty(&self) -> (b: bool)
        ensures
            b == (self.spec_keys().len() == 0),
            b == (self@.dom().len() == 0),
    {
        self.len() == 0
    }

    /// The key stored at position `i`.
    pub fn key_at(&self, i: usize) -> (k: DependencyKey)
        requires
            i < self.spec_keys().len(),
        ensures
            k == self.spec_keys()[i as int],
            self@.dom().contains(k@),
    {
        proof {
            self.lemma_shape();
            assert(self.ids()[i as int] == self.spec_keys()[i as int]@);
        }
        self.entries[i].key
    }

    /// The value stored at position `i`.
    pub fn value_at(&self, i: usize) -> (v: &V)
        requires
            i < self.spec_keys().len(),
        ensures
            *v == self.spec_values()[i as int],
            *v == self@[self.spec_keys()[i as int]@],
    {
        proof {
            use_type_invariant(self);
            self.lemma_shape();
            assert(self.ids().index_of(self.ids()[i as int]) == i);
        }
        &self.entries[i].value
    }

    /// The position of the entry whose key has the identity of `key`, if any.
    pub fn find(&self, key: &DependencyKey) -> (r: Option<usize>)
        ensures
            r is Some == self@.dom().contains(key@),
            r matches Some(i) ==> i < self.spec_keys().len() && self.ids()[i as int] == key@
                && self.ids().index_of(key@) == i,
    {
        proof {
            use_type_invariant(self);
        }
        let n = self.entries.len();
        let mut i: usize = 0;
        while i < n
            invariant
                n == self.entries.len(),
                i <= n,
                self.ids().no_duplicates(),
                forall|j: int| 0 <= j < i ==> self.ids()[j] != key@,
            decreases n - i,
        {
            if self.entries[i].key.same(key) {
                proof {
                    assert(self.ids()[i as int] == key@);
                }
                return Some(i);
            }
            i = i + 1;
        }
        None
    }

    /// Whether the map holds an entry for `key`.
    pub fn contains_key(&self, key: &DependencyKey) -> (b: bool)
        ensures
            b == self@.dom().contains(key@),
    {
        self.find(key).is_some()
    }

    /// The value stored for `key`, if any.
    pub fn get(&self, key: &DependencyKey) -> (r: Option<&V>)
        ensures
            r is Some == self@.dom().contains(key@),
            r matches Some(v) ==> *v == self@[key@],
    {
        match self.find(key) {
            Some(i) => Some(&self.entries[i].value),
            None => None,
        }
    }

    /// Stores `value` under `key`. Returns whether the key was already present;
    /// if it was, its value is replaced and its stored key and place are kept.
    pub fn insert(&mut self, key: DependencyKey, value: V) -> (replaced: bool)
        ensures
            final(self)@ == old(self)@.insert(key@, value),
            replaced == old(self)@.dom().contains(key@),
            replaced ==> final(self).spec_keys() == old(self).spec_keys(),
            !replaced ==> final(self).spec_keys() == old(self).spec_keys().push(key),
    {
        proof {
            use_type_invariant(&*self);
        }
        let found = self.find(&key);
        let ghost old_ids = self.ids();
        let ghost wanted = self@.insert(key@, value);
        let mut entries: Vec<Entry<V>> = Vec::new();
        std::mem::swap(&mut entries, &mut self.entries);
        match found {
            Some(i) => {
                let kept = entries[i].key;
                entries.set(i, Entry { key: kept, value });
                proof {
                    assert(ids_of(entry_keys(entries@)) =~= old_ids);
                }
                self.entries = entries;
                proof {
                    assert forall|id: KeyId| wanted.dom().contains(id) implies #[trigger] self@.dom().contains(
                        id,
                    ) by {}
                    assert forall|id: KeyId| #[trigger] self@.dom().contains(id) implies self@[id]
                        == wanted[id] by {
                        let j = old_ids.index_of(id);
                        if id != key@ {
                            assert(j != i);
                        }
                    }
                }
                true
            },
            None => {
                entries.push(Entry { key, value });
                proof {
                    assert(ids_of(entry_keys(entries@)) =~= old_ids.push(key@));
                }
                self.entries = entries;
                proof {
                    assert forall|id: KeyId| wanted.dom().contains(id) implies #[trigger] self@.dom().contains(
                        id,
                    ) by {
                        if id != key@ {
                            let j = old_ids.index_of(id);
                            assert(self.ids()[j] == id);
                        } else {
                            assert(self.ids()[old_ids.len() as int] == id);
                        }
                    }
                    assert forall|id: KeyId| #[trigger] self@.dom().contains(id) implies wanted.dom().contains(
                        id,
                    ) && self@[id] == wanted[id] by {
                        let j = self.ids().index_of(id);
                        if id != key@ {
                            assert(j < old_ids.len());
                        } else {
                            assert(j == old_ids.len());
                        }
                    }
                }
                false
            },
        }
    }

    /// Removes the entry for `key`. Returns whether there was one.
    pub fn remove(&mut self, key: &DependencyKey) -> (removed: bool)
        ensures
            final(self)@ == old(self)@.remove(key@),
            removed == old(self)@.dom().contains(key@),
            !removed ==> final(self).spec_keys() == old(self).spec_keys(),
    {
        proof {
            use_type_invariant(&*self);
        }
        let found = self.find(key);
        let ghost old_ids = self.ids();
        let ghost wanted = self@.remove(key@);
        match found {
            Some(i) => {
                let mut entries: Vec<Entry<V>> = Vec::new();
                std::mem::swap(&mut entries, &mut self.entries);
                let _ = entries.remove(i);
                proof {
                    assert(ids_of(entry_keys(entries@)) =~= old_ids.remove(i as int));
                }
                self.entries = entries;
                proof {
                    assert forall|id: KeyId| wanted.dom().contains(id) implies #[trigger] self@.dom().contains(
                        id,
                    ) by {
                        let j = old_ids.index_of(id);
                        if j < i {
                            assert(self.ids()[j] == id);
                        } else {
                            assert(self.ids()[j - 1] == id);
                        }
                    }
                    assert forall|id: KeyId| #[trigger] self@.dom().contains(id) implies wanted.dom().contains(
                        id,
                    ) && self@[id] == wanted[id] by {
                        let j = self.ids().index_of(id);
                        if j < i {
                            assert(old_ids[j] == id);
                        } else {
                            assert(old_ids[j + 1] == id);
                        }
                    }
                }
                true
            },
            None => {
                false
            },
        }
    }

    /// The stored keys, in insertion order: each key of the map once.
    pub fn keys(&self) -> (ks: Vec<DependencyKey>)
        ensures
            ks@ == self.spec_keys(),
            ids_of(ks@).no_duplicates(),
            ids_of(ks@).to_set() == self@.dom(),
            ks@.len() == self@.dom().len(),
    {
        proof {
            use_type_invariant(self);
            self.lemma_shape();
            self.ids().unique_seq_to_set();
        }
        let n = self.entries.len();
        let mut ks: Vec<DependencyKey> = Vec::new();
        let mut i: usize = 0;
        while i < n
            invariant
                n == self.entries.len(),
                i <= n,
                ks@ == self.spec_keys().take(i as int),
            decreases n - i,
        {
            ks.push(self.entries[i].key);
            proof {
                assert(self.spec_keys().take(i as int + 1) =~= self.spec_keys().take(i as int).push(
                    self.spec_keys()[i as int],
                ));
            }
            i = i + 1;
        }
        ks
    }
}

/// A set of dependency keys.
pub struct KeySet {
    members: KeyMap<()>,
}

impl View for KeySet {
    type V = Set<KeyId>;

    closed spec fn view(&self) -> Set<KeyId> {
        self.members@.dom()
    }
}

impl KeySet {
    /// A set of keys is finite.
    pub proof fn lemma_finite(&self)
        ensures
            self@.finite(),
    {
        self.members.lemma_shape();
    }

    /// Creates an empty set.
    pub fn new() -> (s: Self)
        ensures
            s@ == Set::<KeyId>::empty(),
    {
        let s = KeySet { members: KeyMap::new() };
        s
    }

    /// Whether `key` is in the set.
    pub fn contains(&self, key: &DependencyKey) -> (b: bool)
        ensures
            b == self@.contains(key@),
    {
        self.members.contains_key(key)
    }

    /// Adds `key`. Returns whether the key was new to the set.
    pub fn insert(&mut self, key: DependencyKey) -> (fresh: bool)
        ensures
            final(self)@ == old(self)@.insert(key@),
            fresh == !old(self)@.contains(key@),
    {
        let replaced = self.members.insert(key, ());
        !replaced
    }

    /// Takes `key` out. Returns whether the key was in the set.
    pub fn remove(&mut self, key: &DependencyKey) -> (removed: bool)
        ensures
            final(self)@ == old(self)@.remove(key@),
            removed == old(self)@.contains(key@),
    {
        let removed = self.members.remove(key);
        removed
    }
}

} // verus!
