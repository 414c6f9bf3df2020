use vstd::prelude::*;
use vstd::set_lib::lemma_int_range;
use vstd::set_lib::lemma_len_subset;
use vstd::set_lib::set_int_range;
use vstd::std_specs::iter::IteratorSpec;
use crate::error::SnapshotError;
use crate::generation::Generation;
use crate::key::DefaultKey;
use crate::key::Key;

verus! {

/// What a secondary map holds for one slot index: a value and the
/// generation of the key it was stored under.
pub struct Entry<T> {
    pub generation: u32,
    pub value: T,
}

/// A cell of the secondary map's storage.
#[derive(Debug)]
pub struct Slot<T> {
    value: T,
    generation: Generation,
}

impl<T> Slot<T> {
    /// The entry that the cell holds.
    pub closed spec fn entry(self) -> Entry<T> {
        Entry { generation: self.generation.value(), value: self.value }
    }

    /// The cell that holds `value` for a key of `generation`.
    pub fn new(value: T, generation: Generation) -> (slot: Self)
        ensures
            slot.entry() == (Entry { generation: generation.value(), value }),
    {
        Self { value, generation }
    }

    /// The generation of the key that the value was stored under.
    pub fn generation(&self) -> (generation: Generation)
        ensures
            generation.value() == self.entry().generation,
    {
        self.generation
    }

    /// The value and the generation that the cell holds.
    pub fn into_parts(self) -> (parts: (T, Generation))
        ensures
            parts.0 == self.entry().value,
            parts.1.value() == self.entry().generation,
    {
        (self.value, self.generation)
    }
}

impl<T: Clone> Clone for Slot<T> {
    /// A cell of the same generation that holds a clone of the value.
    fn clone(&self) -> (copy: Self)
        ensures
            copy.entry().generation == self.entry().generation,
            cloned(self.entry().value, copy.entry().value),
    {
        Slot { value: self.value.clone(), generation: self.generation }
    }
}

/// A map from the keys of a `DeferredMap` to further data. It is kept apart
/// from the primary map and is never told of removals there: it tells a
/// stale key from a current one by the generation alone. For each slot index
/// it holds at most one entry; its view maps the index to that entry.
#[derive(Debug)]
pub struct SecondaryMap<T, K: Key = DefaultKey> {
    slots: Vec<Option<Slot<T>>>,
    num_elems: usize,
    capacity: usize,
    _marker: std::marker::PhantomData<K>,
}

/// The entries that the cells of a secondary map's storage hold, by slot
/// index.
pub open spec fn entries_of<T>(slots: Seq<Option<Slot<T>>>) -> Map<int, Entry<T>> {
    Map::new(|i: int| 0 <= i < slots.len() && slots[i] is Some, |i: int| slots[i]->0.entry())
}

/// The entries after a value was stored for `index` under `generation`.
/// The new entry takes the place of none, of one of the same generation or
/// of an older one; an entry of a newer generation stays, and the stale
/// insertion is ignored.
pub open spec fn entries_after_insert<T>(
    before: Map<int, Entry<T>>,
    index: int,
    generation: u32,
    value: T,
) -> Map<int, Entry<T>> {
    if before.dom().contains(index) && before[index].generation > generation {
        before
    } else {
        before.insert(index, Entry { generation, value })
    }
}

/// The value that storing one for `index` under `generation` gives back:
/// the old value of an entry of the same generation, and nothing otherwise.
pub open spec fn value_replaced<T>(before: Map<int, Entry<T>>, index: int, generation: u32) -> Option<T> {
    if before.dom().contains(index) && before[index].generation == generation {
        Some(before[index].value)
    } else {
        None
    }
}

/// The overwrite rule follows the generations: storing a value never takes
/// an entry back to an older generation. After it the index holds an entry
/// of the generation stored under or of a newer one, a key of an older
/// generation than that finds nothing, and the entries of other indices are
/// as before.
pub proof fn lemma_insert_follows_generations<T>(before: Map<int, Entry<T>>, index: int, generation: u32, value: T)
    ensures
        ({
            let after = entries_after_insert(before, index, generation, value);
            &&& after.dom() == before.dom().insert(index)
            &&& after[index].generation >= generation
            &&& before.dom().contains(index) ==> after[index].generation >= before[index].generation
            &&& after[index].generation == generation ==> after[index].value == value
            &&& forall|i: int| i != index && before.dom().contains(i) ==> after[i] == before[i]
        }),
{
    let after = entries_after_insert(before, index, generation, value);
}

/// The entries of a storage are finitely many, no more than its cells.
pub proof fn lemma_entries_bounded<T>(slots: Seq<Option<Slot<T>>>)
    ensures
        entries_of(slots).dom().finite(),
        entries_of(slots).dom().len() <= slots.len(),
{
    let len = slots.len() as int;
    lemma_int_range(0, len);
    lemma_len_subset(entries_of(slots).dom(), set_int_range(0, len));
}

impl<T, K: Key> View for SecondaryMap<T, K> {
    type V = Map<int, Entry<T>>;

    closed spec fn view(&self) -> Map<int, Entry<T>> {
        entries_of(self.slots@)
    }
}

impl<T, K: Key> SecondaryMap<T, K> {
    /// The invariant of the map: the element count is the number of entries
    /// and the capacity covers the storage.
    pub closed spec fn wf(&self) -> bool {
        &&& self.num_elems == self@.dom().len()
        &&& self.slots@.len() <= self.capacity
        &&& self.slots@.len() <= u32::MAX + 1
    }

    /// The number of slot indices that the map has room for.
    pub closed spec fn capacity_spec(&self) -> nat {
        self.capacity as nat
    }

    /// Whether the map holds an entry for the index of `key` that was stored
    /// under the generation of `key`.
    pub open spec fn contains_spec(&self, key: K) -> bool {
        &&& self@.dom().contains(key.index_spec() as int)
        &&& self@[key.index_spec() as int].generation == key.generation_spec()
    }

    /// The value stored for the index of `key`.
    pub open spec fn value_spec(&self, key: K) -> T {
        self@[key.index_spec() as int].value
    }

    /// The entries are finitely many, and every index that has one is below
    /// the capacity.
    pub proof fn lemma_dom_finite(&self)
        requires
            self.wf(),
        ensures
            self@.dom().finite(),
            self@.dom().len() <= self.capacity_spec(),
            forall|i: int| self@.dom().contains(i) ==> 0 <= i < self.capacity_spec(),
    {
        self.lemma_dom_bounded();
    }

    proof fn lemma_dom_bounded(&self)
        ensures
            self@.dom().finite(),
            self@.dom().len() <= self.slots@.len(),
    {
        lemma_entries_bounded(self.slots@);
    }

    /// The parts of the map in their persisted form: the cells of its
    /// storage and the element count.
    pub fn into_parts(self) -> (parts: (Vec<Option<Slot<T>>>, usize))
        requires
            self.wf(),
        ensures
            entries_of(parts.0@) == self@,
            parts.1 == self@.dom().len(),
            parts.0@.len() <= u32::MAX + 1,
    {
        (self.slots, self.num_elems)
    }

    /// Restores a map from its parts. The parts are refused unless the
    /// element count is the number of cells that hold an entry and no cell
    /// lies beyond the reach of a slot index. The capacity of the restored
    /// map is the number of its cells.
    pub fn from_parts(slots: Vec<Option<Slot<T>>>, num_elems: usize) -> (restored: Result<Self, SnapshotError>)
        ensures
            restored is Ok <==> slots@.len() <= u32::MAX + 1 && num_elems == entries_of(slots@).dom().len(),
            restored matches Err(error) ==> error == SnapshotError::InconsistentEntries,
            restored matches Ok(map) ==> {
                &&& map.wf()
                &&& map@ == entries_of(slots@)
                &&& map.capacity_spec() == slots@.len()
            },
    {
        let len = slots.len();
        if len > 0 && len - 1 > u32::MAX as usize {
            return Err(SnapshotError::InconsistentEntries);
        }
        let mut count: usize = 0;
        let mut index: usize = 0;
        let ghost entries = entries_of(slots@);
        let ghost mut seen: Set<int> = Set::empty();
        while index < len
            invariant
                len == slots@.len(),
                index <= len,
                entries == entries_of(slots@),
                seen.finite(),
                seen.len() == count,
                count <= index,
                seen == entries.dom().filter(|i: int| i < index),
            decreases len - index,
        {
            if slots[index].is_some() {
                proof {
                    seen = seen.insert(index as int);
                }
                count += 1;
            }
            index += 1;
        }
        proof {
            assert(seen =~= entries.dom());
        }
        if count != num_elems {
            return Err(SnapshotError::InconsistentEntries);
        }
        Ok(Self { slots, num_elems, capacity: len, _marker: std::marker::PhantomData })
    }

    /// An empty map.
    pub fn new() -> (map: Self)
        ensures
            map.wf(),
            map@ == Map::<int, Entry<T>>::empty(),
            map.capacity_spec() == 0,
    {
        let map = Self { slots: Vec::new(), num_elems: 0, capacity: 0, _marker: std::marker::PhantomData };
        assert(map@ =~= Map::<int, Entry<T>>::empty());
        map
    }

    /// An empty map with room for `capacity` slot indices.
    pub fn with_capacity(capacity: usize) -> (map: Self)
        ensures
            map.wf(),
            map@ == Map::<int, Entry<T>>::empty(),
            map.capacity_spec() == capacity,
    {
        let map = Self {
            slots: Vec::with_capacity(capacity),
            num_elems: 0,
            capacity,
            _marker: std::marker::PhantomData,
        };
        assert(map@ =~= Map::<int, Entry<T>>::empty());
        map
    }

    /// Stores `value` under `key`.
    ///
    /// Where the map holds an entry of the same generation for the index,
    /// the value is replaced and the old one returned. Where it holds none,
    /// or one of an older generation, the new entry takes its place and
    /// `None` is returned: an older entry belongs to another entity and is
    /// dropped. Where it holds one of a newer generation, `key` is stale and
    /// nothing changes.
    pub fn insert(&mut self, key: K, value: T) -> (previous: Option<T>)
        requires
            old(self).wf(),
            key.index_spec() < usize::MAX,
        ensures
            final(self).wf(),
            final(self).capacity_spec() == if old(self).capacity_spec() > key.index_spec() {
                old(self).capacity_spec()
            } else {
                (key.index_spec() + 1) as nat
            },
            final(self)@ == entries_after_insert(
                old(self)@,
                key.index_spec() as int,
                key.generation_spec(),
                value,
            ),
            previous == value_replaced(old(self)@, key.index_spec() as int, key.generation_spec()),
    {
        let index = key.index() as usize;
        let generation = key.generation();
        let mut value = value;
        let ghost before = self@;

        if index >= self.slots.len() {
            let required_additional = index - self.slots.len() + 1;
            self.slots.reserve(required_additional);
            while self.slots.len() <= index
                invariant
                    index < usize::MAX,
                    old(self).slots@.len() <= self.slots@.len() <= index + 1,
                    self.slots@.subrange(0, old(self).slots@.len() as int) == old(self).slots@,
                    forall|i: int| old(self).slots@.len() <= i < self.slots@.len() ==> self.slots@[i] is None,
                    self.num_elems == old(self).num_elems,
                    self.capacity == old(self).capacity,
                decreases index + 1 - self.slots@.len(),
            {
                self.slots.push(None);
            }
            if self.capacity < index + 1 {
                self.capacity = index + 1;
            }
            assert(self@ =~= before);
        }
        let ghost grown = self.slots@;
        proof {
            self.lemma_dom_bounded();
        }

        match self.slots[index].take() {
            Some(mut slot) => {
                let stored = slot.generation.get();
                if stored == generation.get() {
                    core::mem::swap(&mut slot.value, &mut value);
                    self.slots[index] = Some(slot);
                    assert(self@ =~= before.insert(index as int, Entry { generation: generation.value(), value: slot.value }));
                    Some(value)
                } else if stored < generation.get() {
                    self.slots[index] = Some(Slot::new(value, generation));
                    assert(self@ =~= before.insert(index as int, Entry { generation: generation.value(), value }));
                    None
                } else {
                    self.slots[index] = Some(slot);
                    assert(self.slots@ =~= grown);
                    None
                }
            },
            None => {
                self.slots[index] = Some(Slot::new(value, generation));
                assert(self@ =~= before.insert(index as int, Entry { generation: generation.value(), value }));
                proof {
                    self.lemma_dom_bounded();
                }
                self.num_elems += 1;
                None
            },
        }
    }

    /// Removes the entry of `key` and returns its value, where the map holds
    /// one for the index that was stored under the same generation.
    pub fn remove(&mut self, key: K) -> (removed: Option<T>)
        requires
            old(self).wf(),
        ensures
            final(self).wf(),
            final(self).capacity_spec() == old(self).capacity_spec(),
            if old(self).contains_spec(key) {
                &&& removed == Some(old(self).value_spec(key))
                &&& final(self)@ == old(self)@.remove(key.index_spec() as int)
            } else {
                &&& removed is None
                &&& final(self)@ == old(self)@
            },
    {
        let index = key.index() as usize;
        let generation = key.generation();
        let ghost before = self@;

        if index >= self.slots.len() {
            return None;
        }
        let matches = match &self.slots[index] {
            Some(slot) => slot.generation.get() == generation.get(),
            None => false,
        };
        if matches {
            proof {
                self.lemma_dom_bounded();
            }
            let taken = self.slots[index].take();
            assert(self@ =~= before.remove(index as int));
            self.num_elems -= 1;
            match taken {
                Some(slot) => Some(slot.value),
                None => None,
            }
        } else {
            None
        }
    }

    /// The value stored under `key`, where the map holds an entry for the
    /// index that was stored under the same generation.
    pub fn get(&self, key: K) -> (found: Option<&T>)
        requires
            self.wf(),
        ensures
            found == if self.contains_spec(key) {
                Some(&self.value_spec(key))
            } else {
                None
            },
    {
        let index = key.index() as usize;
        let generation = key.generation();

        if index >= self.slots.len() {
            return None;
        }
        match &self.slots[index] {
            Some(slot) => {
                if slot.generation.get() == generation.get() {
                    Some(&slot.value)
                } else {
                    None
                }
            },
            None => None,
        }
    }

    /// A mutable reference to the value stored under `key`, where the map
    /// holds an entry for the index that was stored under the same
    /// generation. What is written through the reference becomes the value
    /// of that entry; nothing else changes.
    pub fn get_mut(&mut self, key: K) -> (found: Option<&mut T>)
        requires
            old(self).wf(),
        ensures
            final(self).wf(),
            final(self).capacity_spec() == old(self).capacity_spec(),
            match found {
                Some(value) => {
                    &&& old(self).contains_spec(key)
                    &&& *value == old(self).value_spec(key)
                    &&& final(self)@ == old(self)@.insert(
                        key.index_spec() as int,
                        Entry { generation: key.generation_spec(), value: *final(value) },
                    )
                },
                None => {
                    &&& !old(self).contains_spec(key)
                    &&& final(self)@ == old(self)@
                },
            },
    {
        let index = key.index() as usize;
        let generation = key.generation();

        if index >= self.slots.len() {
            return None;
        }
        let matches = match &self.slots[index] {
            Some(slot) => slot.generation.get() == generation.get(),
            None => false,
        };
        if !matches {
            return None;
        }
        assert(self@.dom().insert(index as int) =~= self@.dom());
        let found = match &mut self.slots[index] {
            Some(slot) => Some(&mut slot.value),
            None => None,
        };
        assert(after_borrow(*self)@ =~= old(self)@.insert(
            index as int,
            Entry { generation: key.generation_spec(), value: *final(found->0) },
        ));
        found
    }

    /// Whether the map holds an entry for the index of `key` that was stored
    /// under the same generation.
    pub fn contains_key(&self, key: K) -> (found: bool)
        requires
            self.wf(),
        ensures
            found == self.contains_spec(key),
    {
        self.get(key).is_some()
    }

    /// The number of entries.
    pub fn len(&self) -> (len: usize)
        requires
            self.wf(),
        ensures
            len == self@.dom().len(),
    {
        self.num_elems
    }

    /// Whether the map holds no entry.
    pub fn is_empty(&self) -> (empty: bool)
        requires
            self.wf(),
        ensures
            empty == (self@.dom().len() == 0),
    {
        self.num_elems == 0
    }

    /// The number of slot indices that the map has room for.
    pub fn capacity(&self) -> (capacity: usize)
        requires
            self.wf(),
        ensures
            capacity == self.capacity_spec(),
    {
        self.capacity
    }

    /// Removes every entry. The capacity stays.
    pub fn clear(&mut self)
        requires
            old(self).wf(),
        ensures
            final(self).wf(),
            final(self)@ == Map::<int, Entry<T>>::empty(),
            final(self).capacity_spec() == old(self).capacity_spec(),
    {
        self.slots.clear();
        self.num_elems = 0;
        assert(self@ =~= Map::<int, Entry<T>>::empty());
    }

    /// Keeps the entries for which `f` returns `true` and removes the
    /// others. `f` is called once for every entry, in the order of the slot
    /// indices, with a key made of the entry's index and generation and a
    /// mutable reference to its value; what it writes to the value of an
    /// entry that is kept stays there.
    pub fn retain<F>(&mut self, f: F) where F: FnMut(K, &mut T) -> bool
        requires
            old(self).wf(),
            forall|k: K, v: &mut T|
                old(self).contains_spec(k) && *v == old(self).value_spec(k) ==> call_requires(
                    f,
                    (k, v),
                ),
        ensures
            final(self).wf(),
            final(self).capacity_spec() == old(self).capacity_spec(),
            forall|i: int| #[trigger]
                final(self)@.dom().contains(i) ==> old(self)@.dom().contains(i)
                    && final(self)@[i].generation == old(self)@[i].generation,
            forall|i: int| #[trigger]
                old(self)@.dom().contains(i) ==> exists|k: K, v: &mut T, keep: bool|
                    {
                        &&& k.index_spec() == i
                        &&& k.generation_spec() == old(self)@[i].generation
                        &&& *v == old(self)@[i].value
                        &&& #[trigger] call_ensures(f, (k, v), keep)
                        &&& keep == final(self)@.dom().contains(i)
                        &&& keep ==> final(self)@[i].value == *final(v)
                    },
    {
        let mut call = f;
        let mut index: usize = 0;
        while index < self.slots.len()
            invariant
                call == f,
                index <= self.slots@.len(),
                self.slots@.len() == old(self).slots@.len(),
                self.capacity == old(self).capacity,
                self.wf(),
                old(self).wf(),
                forall|k: K, v: &mut T|
                    old(self).contains_spec(k) && *v == old(self).value_spec(k) ==> call_requires(
                        f,
                        (k, v),
                    ),
                forall|i: int| index <= i < self.slots@.len() ==> self.slots@[i] == old(self).slots@[i],
                forall|i: int| #[trigger]
                    self@.dom().contains(i) ==> old(self)@.dom().contains(i) && self@[i].generation
                        == old(self)@[i].generation,
                forall|i: int|
                    0 <= i < index && #[trigger] old(self)@.dom().contains(i) ==> exists|
                        k: K,
                        v: &mut T,
                        keep: bool,
                    |
                        {
                            &&& k.index_spec() == i
                            &&& k.generation_spec() == old(self)@[i].generation
                            &&& *v == old(self)@[i].value
                            &&& #[trigger] call_ensures(f, (k, v), keep)
                            &&& keep == self@.dom().contains(i)
                            &&& keep ==> self@[i].value == *final(v)
                        },
            decreases self.slots@.len() - index,
        {
            let ghost before = self@;
            let mut keep = true;
            match &mut self.slots[index] {
                Some(slot) => {
                    let key = K::from_parts(index as u32, slot.generation);
                    keep = call(key, &mut slot.value);
                },
                None => {},
            }
            proof {
                if before.dom().contains(index as int) {
                    assert(self@ =~= before.insert(index as int, self@[index as int]));
                    assert(before.dom().insert(index as int) =~= before.dom());
                } else {
                    assert(self@ =~= before);
                }
            }
            if !keep {
                proof {
                    self.lemma_dom_bounded();
                }
                let ghost kept = self@;
                self.slots[index] = None;
                assert(self@ =~= kept.remove(index as int));
                self.num_elems -= 1;
            }
            index += 1;
        }
    }

    /// Whether `items` lists the entries whose index is below `bound`: each
    /// of them once, with a key made of its index and generation and with
    /// its value, in the order of the indices.
    pub open spec fn lists_below(&self, items: Seq<(K, &T)>, bound: int) -> bool {
        &&& forall|j: int|
            0 <= j < items.len() ==> {
                let i = (#[trigger] items[j]).0.index_spec() as int;
                &&& i < bound
                &&& self@.dom().contains(i)
                &&& self@[i].generation == items[j].0.generation_spec()
                &&& self@[i].value == *items[j].1
            }
        &&& forall|j1: int, j2: int|
            0 <= j1 < j2 < items.len() ==> (#[trigger] items[j1]).0.index_spec() < (
            #[trigger] items[j2]).0.index_spec()
        &&& forall|i: int|
            0 <= i < bound && #[trigger] self@.dom().contains(i) ==> exists|j: int|
                0 <= j < items.len() && (#[trigger] items[j]).0.index_spec() == i
    }

    /// The entries of the map, in the order of the slot indices: for each a
    /// key made of its index and generation, and a reference to its value.
    pub fn iter(&self) -> (iter: std::vec::IntoIter<(K, &T)>)
        requires
            self.wf(),
        ensures
            iter.remaining().len() == self@.dom().len(),
            self.lists_below(iter.remaining(), self.capacity_spec() as int),
            iter.obeys_prophetic_iter_laws(),
            iter.decrease() is Some,
            iter.initial_value_relation(&iter),
    {
        let mut out: Vec<(K, &T)> = Vec::new();
        let mut index: usize = 0;
        let ghost mut seen: Set<int> = Set::empty();
        while index < self.slots.len()
            invariant
                self.wf(),
                index <= self.slots@.len(),
                self.lists_below(out@, index as int),
                seen.finite(),
                seen.len() == out@.len(),
                seen == self@.dom().filter(|i: int| i < index),
            decreases self.slots@.len() - index,
        {
            let ghost prev = out@;
            match &self.slots[index] {
                Some(slot) => {
                    let key = K::from_parts(index as u32, slot.generation);
                    out.push((key, &slot.value));
                    proof {
                        seen = seen.insert(index as int);
                        assert forall|i: int|
                            0 <= i < index + 1 && #[trigger] self@.dom().contains(i) implies exists|j: int|
                            0 <= j < out@.len() && (#[trigger] out@[j]).0.index_spec() == i by {
                            if i < index {
                                let j = choose|j: int|
                                    0 <= j < prev.len() && (#[trigger] prev[j]).0.index_spec() == i;
                                assert(out@[j] == prev[j]);
                            } else {
                                assert(out@[prev.len() as int].0.index_spec() == i);
                            }
                        }
                    }
                },
                None => {},
            }
            index += 1;
        }
        proof {
            assert(seen =~= self@.dom());
        }
        out.into_iter()
    }

    /// The entries of the map, in the order of the slot indices: for each a
    /// key made of its index and generation, and a mutable reference to its
    /// value. What is written through a reference becomes the value of its
    /// entry; the entries and their generations stay.
    pub fn iter_mut(&mut self) -> (iter: std::vec::IntoIter<(K, &mut T)>)
        requires
            old(self).wf(),
        ensures
            final(self).wf(),
            final(self).capacity_spec() == old(self).capacity_spec(),
            final(self)@.dom() == old(self)@.dom(),
            iter.remaining().len() == old(self)@.dom().len(),
            forall|j: int|
                0 <= j < iter.remaining().len() ==> {
                    let i = (#[trigger] iter.remaining()[j]).0.index_spec() as int;
                    &&& old(self)@.dom().contains(i)
                    &&& old(self)@[i].generation == iter.remaining()[j].0.generation_spec()
                    &&& old(self)@[i].value == *iter.remaining()[j].1
                    &&& final(self)@[i].generation == old(self)@[i].generation
                    &&& final(self)@[i].value == *final(iter.remaining()[j].1)
                },
            forall|j1: int, j2: int|
                0 <= j1 < j2 < iter.remaining().len() ==> (#[trigger] iter.remaining()[j1]).0.index_spec() < (
                #[trigger] iter.remaining()[j2]).0.index_spec(),
            forall|i: int| #[trigger]
                old(self)@.dom().contains(i) ==> exists|j: int|
                    0 <= j < iter.remaining().len() && (#[trigger] iter.remaining()[j]).0.index_spec() == i,
            iter.obeys_prophetic_iter_laws(),
            iter.decrease() is Some,
            iter.initial_value_relation(&iter),
    {
        let mut out: Vec<(K, &mut T)> = Vec::new();
        let ghost total = self.slots@.len() as int;
        let ghost before = self.slots@;
        let ghost mut seen: Set<int> = Set::empty();
        let mut index: usize = 0;
        let mut rest: &mut [Option<Slot<T>>] = self.slots.as_mut_slice();
        while rest.len() > 0
            invariant
                old(self).wf(),
                before == old(self).slots@,
                total == before.len(),
                index + rest@.len() == total,
                rest@ == before.subrange(index as int, total),
                after_borrow(self.slots)@.len() == index + final(rest)@.len(),
                forall|k: int|
                    0 <= k < final(rest)@.len() ==> after_borrow(self.slots)@[index + k] == final(rest)@[k],
                forall|i: int|
                    0 <= i < index && before[i] is None ==> after_borrow(self.slots)@[i] is None,
                forall|j: int|
                    0 <= j < out@.len() ==> {
                        let i = (#[trigger] out@[j]).0.index_spec() as int;
                        &&& 0 <= i < index
                        &&& before[i] is Some
                        &&& before[i]->0.generation.value() == out@[j].0.generation_spec()
                        &&& before[i]->0.value == *out@[j].1
                        &&& after_borrow(self.slots)@[i] == Some(
                            Slot { value: *final(out@[j].1), generation: before[i]->0.generation },
                        )
                    },
                forall|j1: int, j2: int|
                    0 <= j1 < j2 < out@.len() ==> (#[trigger] out@[j1]).0.index_spec() < (
                    #[trigger] out@[j2]).0.index_spec(),
                forall|i: int|
                    0 <= i < index && #[trigger] before[i] is Some ==> exists|j: int|
                        0 <= j < out@.len() && (#[trigger] out@[j]).0.index_spec() == i,
                seen.finite(),
                seen.len() == out@.len(),
                seen == old(self)@.dom().filter(|i: int| i < index),
            decreases rest@.len(),
        {
            let ghost prev = out@;
            let (head, tail) = rest.split_at_mut(1);
            assert(final(head)@.len() > 0 ==> after_borrow(self.slots)@[index as int] == final(head)@[0]) by {
                if final(head)@.len() > 0 {
                    assert((final(head)@ + final(tail)@)[0] == final(head)@[0]);
                }
            }
            assert forall|k: int| 0 <= k < final(tail)@.len() implies after_borrow(self.slots)@[index
                + final(head)@.len() + k] == final(tail)@[k] by {
                assert((final(head)@ + final(tail)@)[final(head)@.len() + k] == final(tail)@[k]);
            }
            match head.first_mut() {
                Some(cell) => {
                    match cell {
                        Some(slot) => {
                            let key = K::from_parts(index as u32, slot.generation);
                            out.push((key, &mut slot.value));
                            proof {
                                seen = seen.insert(index as int);
                                assert forall|i: int|
                                    0 <= i < index + 1 && #[trigger] before[i] is Some implies exists|j: int|
                                    0 <= j < out@.len() && (#[trigger] out@[j]).0.index_spec() == i by {
                                    if i < index {
                                        let j = choose|j: int|
                                            0 <= j < prev.len() && (#[trigger] prev[j]).0.index_spec() == i;
                                        assert(out@[j] == prev[j]);
                                    } else {
                                        assert(out@[prev.len() as int].0.index_spec() == i);
                                    }
                                }
                            }
                        },
                        None => {},
                    }
                },
                None => {},
            }
            rest = tail;
            index += 1;
        }
        proof {
            assert(seen =~= old(self)@.dom());
            assert(after_borrow(*self)@.dom() =~= old(self)@.dom());
        }
        out.into_iter()
    }
}

impl<T, K: Key> Default for SecondaryMap<T, K> {
    /// An empty map.
    fn default() -> (map: Self)
        ensures
            map.wf(),
            map@ == Map::<int, Entry<T>>::empty(),
            map.capacity_spec() == 0,
    {
        Self::new()
    }
}

impl<T: Clone, K: Key> Clone for SecondaryMap<T, K> {
    /// A map with the same entries, each holding a clone of the value, and
    /// with the same capacity. The two maps share nothing: a later change to
    /// one does not show in the other.
    fn clone(&self) -> (copy: Self)
        ensures
            self.wf() ==> copy.wf(),
            copy.capacity_spec() == self.capacity_spec(),
            copy@.dom() == self@.dom(),
            forall|i: int| #[trigger]
                self@.dom().contains(i) ==> copy@[i].generation == self@[i].generation && cloned(
                    self@[i].value,
                    copy@[i].value,
                ),
    {
        let mut slots = self.slots.clone();
        if self.capacity > slots.len() {
            slots.reserve(self.capacity - slots.len());
        }
        let copy = Self {
            slots,
            num_elems: self.num_elems,
            capacity: self.capacity,
            _marker: std::marker::PhantomData,
        };
        assert(copy@.dom() =~= self@.dom());
        copy
    }
}

} // verus!
