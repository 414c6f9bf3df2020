use vstd::prelude::*;
use vstd::set_lib::lemma_int_range;
use vstd::set_lib::lemma_len_subset;
use vstd::set_lib::set_int_range;
use vstd::std_specs::iter::IteratorSpec;
use crate::error::DeferredMapError;
use crate::error::SnapshotError;
use crate::generation::next_generation;
use crate::generation::Generation;
use crate::generation::MAX_GENERATION;
use crate::handle::Handle;
use crate::key::DefaultKey;
use crate::key::Key;
use crate::slot::Slot;
use crate::slot::SlotContent;
use crate::slot::SlotInner;
use crate::state::MapState;
use crate::state::SlotState;
use crate::state::SlotStatus;

verus! {

/// The state of the model that a slot of the container stands for.
pub open spec fn slot_state<T>(slot: Slot<T>) -> SlotState<T> {
    SlotState {
        generation: slot.generation_spec(),
        status: match slot.inner_spec() {
            SlotInner::Occupied(value) => SlotStatus::Occupied(value),
            SlotInner::Vacant(_) => SlotStatus::Vacant,
            SlotInner::Reserved => SlotStatus::Reserved,
        },
    }
}

/// The states of the model that the slots of a container stand for.
pub open spec fn slot_states<T>(slots: Seq<Slot<T>>) -> Seq<SlotState<T>> {
    Seq::new(slots.len(), |i: int| slot_state(slots[i]))
}

/// The link that the slot at position `j` of the free list `free` holds: the
/// next index of the list, or the number of slots at its end.
pub open spec fn next_link(free: Seq<int>, slot_count: nat, j: int) -> u32 {
    if j + 1 < free.len() {
        free[j + 1] as u32
    } else {
        slot_count as u32
    }
}

/// Whether the links of the vacant slots spell the free list `free` when
/// they are followed from `free_head`.
pub open spec fn links_spell<T>(slots: Seq<Slot<T>>, free_head: u32, free: Seq<int>) -> bool {
    &&& free_head as int == if free.len() > 0 {
        free[0]
    } else {
        slots.len() as int
    }
    &&& forall|j: int|
        0 <= j < free.len() ==> 0 <= free[j] < slots.len() && slots[#[trigger] free[j]].inner_spec()
            == SlotInner::<T>::Vacant(next_link(free, slots.len(), j))
}

/// Whether slots, a free-list head and an element count are the persisted
/// parts of a well-formed container whose free list is `free`. No slot of
/// them is reserved: a reserved slot belongs to an open handle and has no
/// persisted form.
pub open spec fn parts_agree<T>(slots: Seq<Slot<T>>, free_head: u32, num_elems: u32, free: Seq<int>) -> bool {
    let model = MapState { slots: slot_states(slots), free, capacity: (slots.len() - 1) as nat };
    &&& model.wf()
    &&& forall|i: int| 0 <= i < slots.len() ==> (#[trigger] slots[i]).wf()
    &&& forall|i: int| 0 <= i < slots.len() ==> !((#[trigger] slots[i]).inner_spec() is Reserved)
    &&& links_spell(slots, free_head, free)
    &&& num_elems as nat == model.len()
}

/// Whether slots, a free-list head and an element count are the persisted
/// parts of a well-formed container.
pub open spec fn restorable<T>(slots: Seq<Slot<T>>, free_head: u32, num_elems: u32) -> bool {
    exists|free: Seq<int>| parts_agree(slots, free_head, num_elems, free)
}

/// The links of the slots spell one free list at most.
pub proof fn lemma_free_list_unique<T>(slots: Seq<Slot<T>>, free_head: u32, a: Seq<int>, b: Seq<int>)
    requires
        links_spell(slots, free_head, a),
        links_spell(slots, free_head, b),
        forall|j: int| 0 <= j < a.len() ==> a[j] < u32::MAX,
        forall|j: int| 0 <= j < b.len() ==> b[j] < u32::MAX,
        slots.len() <= u32::MAX,
    ensures
        a == b,
{
    lemma_common_prefix(slots, free_head, a, b, a.len());
    lemma_common_prefix(slots, free_head, b, a, b.len());
}

/// Two free lists that the links of the slots spell agree on every position
/// that one of them has.
proof fn lemma_common_prefix<T>(slots: Seq<Slot<T>>, free_head: u32, a: Seq<int>, b: Seq<int>, n: nat)
    requires
        links_spell(slots, free_head, a),
        links_spell(slots, free_head, b),
        forall|j: int| 0 <= j < a.len() ==> a[j] < u32::MAX,
        forall|j: int| 0 <= j < b.len() ==> b[j] < u32::MAX,
        slots.len() <= u32::MAX,
        n <= a.len(),
    ensures
        n <= b.len(),
        forall|j: int| 0 <= j < n ==> a[j] == b[j],
    decreases n,
{
    if n > 0 {
        lemma_common_prefix(slots, free_head, a, b, (n - 1) as nat);
        let j = n - 1;
        assert(0 <= a[j] < slots.len());
        if j > 0 {
            assert(a[j - 1] == b[j - 1]);
        }
    }
}

/// A container that hands out a key before the value is known: a handle is
/// allocated first, which reserves a slot, and is later consumed to store
/// the value there or to give the slot back.
pub struct DeferredMap<T> {
    slots: Vec<Slot<T>>,
    free_head: u32,
    num_elems: u32,
    capacity: usize,
    free: Ghost<Seq<int>>,
}

impl<T> View for DeferredMap<T> {
    type V = MapState<T>;

    closed spec fn view(&self) -> MapState<T> {
        MapState {
            slots: slot_states(self.slots@),
            free: self.free@,
            capacity: self.capacity as nat,
        }
    }
}

impl<T> DeferredMap<T> {
    /// The invariant of the container: its model is well formed, every slot
    /// is, the links of the vacant slots spell the free list from its head,
    /// and the element count is the number of values.
    pub closed spec fn wf(&self) -> bool {
        &&& self@.wf()
        &&& forall|i: int| 0 <= i < self.slots@.len() ==> (#[trigger] self.slots@[i]).wf()
        &&& links_spell(self.slots@, self.free_head, self.free@)
        &&& self.num_elems as nat == self@.len()
    }

    /// A well-formed container has a well-formed model.
    pub proof fn lemma_view_wf(&self)
        requires
            self.wf(),
        ensures
            self@.wf(),
            self@.live_set().finite(),
            self@.len() <= self@.slots.len() - 1,
    {
        self@.lemma_len_bound();
    }

    /// An empty container.
    pub fn new() -> (map: Self)
        ensures
            map.wf(),
            map@ == MapState::<T>::empty(0),
    {
        Self::with_capacity(0)
    }

    /// An empty container with room for `capacity` values.
    pub fn with_capacity(capacity: usize) -> (map: Self)
        requires
            capacity < usize::MAX,
        ensures
            map.wf(),
            map@ == MapState::<T>::empty(capacity as nat),
    {
        let mut slots = Vec::with_capacity(capacity + 1);
        slots.push(Slot::sentinel());
        let map = Self { slots, free_head: 1, num_elems: 0, capacity, free: Ghost(Seq::empty()) };
        proof {
            assert(map@.live_set() =~= Set::empty());
        }
        map
    }

    /// Allocates a handle: reserves the slot at the head of the free list,
    /// or a new slot where the list is empty, and returns the handle that
    /// addresses it. Slots are reused last in, first out.
    pub fn allocate_handle(&mut self) -> (handle: Handle)
        requires
            old(self).wf(),
            old(self)@.can_allocate(),
        ensures
            final(self).wf(),
            final(self)@ == old(self)@.allocate(),
            handle.index_spec() == old(self)@.next_index(),
            handle.generation_spec() == old(self)@.next_handle_generation(),
    {
        let index = self.free_head;
        let ghost before = self@;
        if (index as usize) < self.slots.len() {
            assert(self.free@[0] == index);
            let next_free = self.slots[index as usize].reserve();
            self.free_head = next_free;
            proof {
                self.free = Ghost(self.free@.drop_first());
            }
            let generation = self.slots[index as usize].version().generation();
            proof {
                assert(self@.live_set() =~= before.live_set());
                assert forall|i: int|
                    1 <= i < self@.slots.len() && (#[trigger] self@.slots[i]).status is Vacant implies self@.free.contains(
                    i,
                ) by {
                    assert(before.slots[i].status is Vacant);
                    let j = choose|j: int| 0 <= j < before.free.len() && before.free[j] == i;
                    assert(self@.free[j - 1] == i);
                }
                assert forall|j: int| 0 <= j < self.free@.len() implies self.slots@[#[trigger] self.free@[j]].inner_spec()
                    == SlotInner::<T>::Vacant(next_link(self.free@, self.slots@.len(), j)) by {}
            }
            Handle::new(DefaultKey::new(index, generation))
        } else {
            self.slots.push(Slot::new_reserved());
            self.free_head = index + 1;
            if self.capacity < self.slots.len() - 1 {
                self.capacity = self.slots.len() - 1;
            }
            proof {
                assert(self@.slots =~= before.allocate().slots);
                assert(self@.live_set() =~= before.live_set());
            }
            Handle::new(DefaultKey::new(index, Generation::min()))
        }
    }

    /// Stores `value` in the slot that `handle` reserved and returns the
    /// key under which it is found from now on. The handle is consumed.
    ///
    /// A handle that does not address a reserved slot of its generation is
    /// turned away, and the container stays as it was.
    pub fn insert(&mut self, handle: Handle, value: T) -> (key: Result<DefaultKey, DeferredMapError>)
        requires
            old(self).wf(),
        ensures
            final(self).wf(),
            match old(self)@.handle_error(handle.index_spec(), handle.generation_spec()) {
                Some(error) => {
                    &&& key == Err::<DefaultKey, DeferredMapError>(error)
                    &&& final(self)@ == old(self)@
                },
                None => {
                    &&& key == Ok::<DefaultKey, DeferredMapError>(handle.key_spec())
                    &&& final(self)@ == old(self)@.insert(handle.index_spec() as int, value)
                },
            },
    {
        let index = handle.index();
        let ghost before = self@;
        if index == 0 || index as usize >= self.slots.len() {
            return Err(DeferredMapError::InvalidHandle);
        }
        if self.slots[index as usize].generation() != handle.generation().get() {
            return Err(DeferredMapError::GenerationMismatch);
        }
        if !self.slots[index as usize].is_reserved() {
            return Err(DeferredMapError::HandleAlreadyUsed);
        }
        self.slots[index as usize].occupy(value);
        proof {
            assert(self@.slots =~= before.insert(index as int, value).slots);
            assert(self@.live_set() =~= before.live_set().insert(index as int));
            before.lemma_len_bound();
            self@.lemma_len_bound();
        }
        self.num_elems += 1;
        Ok(handle.key())
    }

    /// Gives back the slot that `handle` reserved without storing a value.
    /// The handle is consumed, the slot moves on to the next generation and
    /// becomes the head of the free list. The number of values stays.
    ///
    /// A handle that does not address a reserved slot of its generation is
    /// turned away, and the container stays as it was.
    pub fn release_handle(&mut self, handle: Handle) -> (released: Result<(), DeferredMapError>)
        requires
            old(self).wf(),
        ensures
            final(self).wf(),
            match old(self)@.handle_error(handle.index_spec(), handle.generation_spec()) {
                Some(error) => {
                    &&& released == Err::<(), DeferredMapError>(error)
                    &&& final(self)@ == old(self)@
                },
                None => {
                    &&& released is Ok
                    &&& final(self)@ == old(self)@.vacate(handle.index_spec() as int)
                },
            },
    {
        let index = handle.index();
        if index == 0 || index as usize >= self.slots.len() {
            return Err(DeferredMapError::InvalidHandle);
        }
        if self.slots[index as usize].generation() != handle.generation().get() {
            return Err(DeferredMapError::GenerationMismatch);
        }
        if !self.slots[index as usize].is_reserved() {
            return Err(DeferredMapError::HandleAlreadyUsed);
        }
        let ghost old_free = self.free@;
        self.slots[index as usize].release(self.free_head);
        self.free_head = index;
        proof {
            self.free = Ghost(seq![index as int] + old_free);
            self.lemma_pushed(*old(self), index as int);
        }
        Ok(())
    }

    /// The invariant holds again after the slot at `index`, which was off
    /// the free list, was vacated and linked in as the head of the list.
    proof fn lemma_pushed(&self, before: Self, index: int)
        requires
            before.wf(),
            1 <= index < before.slots@.len(),
            !(before.slots@[index].inner_spec() is Vacant),
            self.slots@.len() == before.slots@.len(),
            forall|i: int| 0 <= i < self.slots@.len() && i != index ==> self.slots@[i] == before.slots@[i],
            self.slots@[index].wf(),
            self.slots@[index].generation_spec() == next_generation(before.slots@[index].generation_spec()),
            self.slots@[index].inner_spec() == SlotInner::<T>::Vacant(before.free_head),
            self.free_head == index,
            self.free@ == seq![index] + before.free@,
            self.capacity == before.capacity,
            self.num_elems == if before.slots@[index].inner_spec() is Occupied {
                before.num_elems - 1
            } else {
                before.num_elems as int
            },
        ensures
            self.wf(),
            self@ == before@.vacate(index),
    {
        let pre = before@;
        assert(self@.slots =~= pre.vacate(index).slots);
        pre.lemma_len_bound();
        if before.slots@[index].inner_spec() is Occupied {
            assert(self@.live_set() =~= pre.live_set().remove(index));
        } else {
            assert(self@.live_set() =~= pre.live_set());
        }
        assert(!pre.free.contains(index)) by {
            if pre.free.contains(index) {
                let j = choose|j: int| 0 <= j < pre.free.len() && pre.free[j] == index;
            }
        }
        assert forall|i: int|
            1 <= i < self@.slots.len() && (#[trigger] self@.slots[i]).status is Vacant implies self@.free.contains(
            i,
        ) by {
            if i == index {
                assert(self@.free[0] == i);
            } else {
                let j = choose|j: int| 0 <= j < pre.free.len() && pre.free[j] == i;
                assert(self@.free[j + 1] == i);
            }
        }
    }

    /// The value that `key` resolves to: the one in the slot that the key
    /// addresses, where the slot is occupied and in the generation of the
    /// key.
    pub fn get(&self, key: DefaultKey) -> (found: Option<&T>)
        requires
            self.wf(),
        ensures
            found == if self@.contains_key(key) {
                Some(&self@.value_of(key))
            } else {
                None
            },
    {
        let index = key.index() as usize;
        if index >= self.slots.len() {
            return None;
        }
        let slot = &self.slots[index];
        if slot.generation() != key.generation().get() {
            return None;
        }
        match slot.get() {
            SlotContent::Occupied(value) => Some(value),
            _ => None,
        }
    }

    /// Whether `key` resolves to a value.
    pub fn contains_key(&self, key: DefaultKey) -> (found: bool)
        requires
            self.wf(),
        ensures
            found == self@.contains_key(key),
    {
        self.get(key).is_some()
    }

    /// The number of values.
    pub fn len(&self) -> (len: usize)
        requires
            self.wf(),
        ensures
            len == self@.len(),
    {
        self.num_elems as usize
    }

    /// Whether the container holds no value.
    pub fn is_empty(&self) -> (empty: bool)
        requires
            self.wf(),
        ensures
            empty == (self@.len() == 0),
    {
        self.num_elems == 0
    }

    /// The number of values that the container has room for. The sentinel
    /// slot does not count.
    pub fn capacity(&self) -> (capacity: usize)
        requires
            self.wf(),
        ensures
            capacity == self@.capacity,
    {
        self.capacity
    }

    /// The invariant holds again after values were written over values:
    /// where nothing else changed, the container is well formed and its
    /// model differs in those values alone.
    proof fn lemma_values_written(before: Self, after: Self)
        requires
            before.wf(),
            after.slots@.len() == before.slots@.len(),
            forall|i: int|
                0 <= i < before.slots@.len() ==> {
                    &&& (#[trigger] after.slots@[i]).version_spec() == before.slots@[i].version_spec()
                    &&& if before.slots@[i].inner_spec() is Occupied {
                        after.slots@[i].inner_spec() is Occupied
                    } else {
                        after.slots@[i].inner_spec() == before.slots@[i].inner_spec()
                    }
                },
            after.free_head == before.free_head,
            after.num_elems == before.num_elems,
            after.capacity == before.capacity,
            after.free@ == before.free@,
        ensures
            after.wf(),
            after@.slots.len() == before@.slots.len(),
            after@.free == before@.free,
            after@.capacity == before@.capacity,
            after@.live_set() == before@.live_set(),
            forall|i: int|
                0 <= i < before@.slots.len() ==> {
                    &&& (#[trigger] after@.slots[i]).generation == before@.slots[i].generation
                    &&& if before@.slots[i].status is Occupied {
                        after@.slots[i].status == SlotStatus::Occupied(
                            after.slots@[i].inner_spec()->Occupied_0,
                        )
                    } else {
                        after@.slots[i].status == before@.slots[i].status
                    }
                },
    {
        assert(after@.live_set() =~= before@.live_set());
        assert forall|i: int| 0 <= i < after.slots@.len() implies (#[trigger] after.slots@[i]).wf() by {}
        assert forall|j: int|
            0 <= j < after@.free.len() implies 1 <= (#[trigger] after@.free[j]) < after@.slots.len()
            && after@.slots[after@.free[j]].status is Vacant by {
            assert(before@.slots[before@.free[j]].status is Vacant);
            assert(after.slots@[before@.free[j]].version_spec() == before.slots@[before@.free[j]].version_spec());
        }
        assert forall|i: int| 0 <= i < before@.slots.len() implies {
            &&& (#[trigger] after@.slots[i]).generation == before@.slots[i].generation
            &&& if before@.slots[i].status is Occupied {
                after@.slots[i].status == SlotStatus::Occupied(after.slots@[i].inner_spec()->Occupied_0)
            } else {
                after@.slots[i].status == before@.slots[i].status
            }
        } by {
            assert(after.slots@[i].version_spec() == before.slots@[i].version_spec());
        }
    }

    /// A mutable reference to the value that `key` resolves to. What is
    /// written through the reference becomes the value under `key`; nothing
    /// else changes.
    pub fn get_mut(&mut self, key: DefaultKey) -> (found: Option<&mut T>)
        requires
            old(self).wf(),
        ensures
            final(self).wf(),
            match found {
                Some(value) => {
                    &&& old(self)@.contains_key(key)
                    &&& *value == old(self)@.value_of(key)
                    &&& final(self)@ == old(self)@.set_value(key.index_spec() as int, *final(value))
                },
                None => {
                    &&& !old(self)@.contains_key(key)
                    &&& final(self)@ == old(self)@
                },
            },
    {
        let index = key.index() as usize;
        if index >= self.slots.len() {
            return None;
        }
        if self.slots[index].generation() != key.generation().get() {
            return None;
        }
        if !self.slots[index].is_occupied() {
            return None;
        }
        let found = self.slots[index].get_mut();
        proof {
            Self::lemma_values_written(*old(self), after_borrow(*self));
        }
        found
    }

    /// Removes the value that `key` resolves to and returns it. The slot
    /// moves on to the next generation, so that `key` resolves to nothing
    /// from now on, and becomes the head of the free list.
    pub fn remove(&mut self, key: DefaultKey) -> (removed: Option<T>)
        requires
            old(self).wf(),
        ensures
            final(self).wf(),
            if old(self)@.contains_key(key) {
                &&& removed == Some(old(self)@.value_of(key))
                &&& final(self)@ == old(self)@.vacate(key.index_spec() as int)
            } else {
                &&& removed is None
                &&& final(self)@ == old(self)@
            },
    {
        let index = key.index();
        if index as usize >= self.slots.len() {
            return None;
        }
        if self.slots[index as usize].generation() != key.generation().get() {
            return None;
        }
        if !self.slots[index as usize].is_occupied() {
            return None;
        }
        Some(self.take_at(index))
    }

    /// Takes the value out of the occupied slot at `index` and puts the
    /// slot on the free list.
    fn take_at(&mut self, index: u32) -> (value: T)
        requires
            old(self).wf(),
            old(self)@.is_live(index as int),
        ensures
            final(self).wf(),
            final(self)@ == old(self)@.vacate(index as int),
            value == old(self)@.value(index as int),
    {
        let ghost old_free = self.free@;
        proof {
            self@.lemma_len_bound();
            assert(self@.live_set().contains(index as int));
        }
        let value = self.slots[index as usize].vacate(self.free_head);
        self.free_head = index;
        self.num_elems -= 1;
        proof {
            self.free = Ghost(seq![index as int] + old_free);
            self.lemma_pushed(*old(self), index as int);
        }
        value
    }

    /// Makes room for `additional` more values than the slots hold now.
    pub fn reserve(&mut self, additional: usize)
        requires
            old(self).wf(),
            old(self)@.slots.len() + additional <= usize::MAX,
        ensures
            final(self).wf(),
            final(self)@ == old(self)@.reserve(additional as nat),
    {
        self.slots.reserve(additional);
        let wanted = self.slots.len() - 1 + additional;
        if self.capacity < wanted {
            self.capacity = wanted;
        }
        proof {
            assert(self@.live_set() =~= old(self)@.live_set());
        }
    }

    /// Gives up the room that no slot uses. The slots stay, vacant ones
    /// too.
    pub fn shrink_to_fit(&mut self)
        requires
            old(self).wf(),
        ensures
            final(self).wf(),
            final(self)@ == old(self)@.shrink_to_fit(),
    {
        shrink_vec(&mut self.slots);
        self.capacity = self.slots.len() - 1;
        proof {
            assert(self@.live_set() =~= old(self)@.live_set());
        }
    }

    /// Removes every value and every slot but the sentinel. Keys and
    /// handles of before the call no longer belong to the container.
    pub fn clear(&mut self)
        requires
            old(self).wf(),
        ensures
            final(self).wf(),
            final(self)@ == MapState::<T>::empty(0),
    {
        let mut slots = Vec::new();
        slots.push(Slot::sentinel());
        self.slots = slots;
        self.free_head = 1;
        self.num_elems = 0;
        self.capacity = 0;
        proof {
            self.free = Ghost(Seq::empty());
            assert(self@.live_set() =~= Set::empty());
        }
    }
}

impl<T> DeferredMap<T> {
    /// Keeps the values for which `f` returns `true` and removes the
    /// others. `f` is called once for every value, in the order of the slot
    /// indices, with the key of the value and a mutable reference to it;
    /// what it writes to a value that is kept stays there. The slot of a
    /// removed value moves on to the next generation and goes to the head
    /// of the free list, so that the slot removed last is reused first.
    pub fn retain<F>(&mut self, f: F) where F: FnMut(DefaultKey, &mut T) -> bool
        requires
            old(self).wf(),
            forall|k: DefaultKey, v: &mut T|
                old(self)@.contains_key(k) && *v == old(self)@.value_of(k) ==> call_requires(f, (k, v)),
        ensures
            final(self).wf(),
            final(self)@.slots.len() == old(self)@.slots.len(),
            final(self)@.capacity == old(self)@.capacity,
            forall|i: int|
                0 <= i < old(self)@.slots.len() && !old(self)@.is_live(i) ==> (#[trigger] final(self)@.slots[i])
                    == old(self)@.slots[i],
            forall|i: int| #[trigger]
                old(self)@.is_live(i) ==> exists|k: DefaultKey, v: &mut T, keep: bool|
                    {
                        &&& k.index_spec() == i
                        &&& k.generation_spec() == old(self)@.slots[i].generation
                        &&& *v == old(self)@.value(i)
                        &&& #[trigger] call_ensures(f, (k, v), keep)
                        &&& final(self)@.slots[i] == if keep {
                            SlotState {
                                generation: old(self)@.slots[i].generation,
                                status: SlotStatus::Occupied(*final(v)),
                            }
                        } else {
                            SlotState {
                                generation: next_generation(old(self)@.slots[i].generation),
                                status: SlotStatus::Vacant,
                            }
                        }
                    },
            final(self)@.free.len() >= old(self)@.free.len(),
            final(self)@.free.subrange(
                final(self)@.free.len() - old(self)@.free.len(),
                final(self)@.free.len() as int,
            ) == old(self)@.free,
            forall|j1: int, j2: int|
                0 <= j1 < j2 < final(self)@.free.len() - old(self)@.free.len() ==> final(self)@.free[j1]
                    > final(self)@.free[j2],
    {
        let mut call = f;
        let mut index: usize = 1;
        while index < self.slots.len()
            invariant
                call == f,
                old(self).wf(),
                self.wf(),
                1 <= index <= self.slots@.len(),
                self.slots@.len() == old(self).slots@.len(),
                self@.capacity == old(self)@.capacity,
                forall|k: DefaultKey, v: &mut T|
                    old(self)@.contains_key(k) && *v == old(self)@.value_of(k) ==> call_requires(f, (k, v)),
                forall|i: int| index <= i < self.slots@.len() ==> (#[trigger] self@.slots[i]) == old(self)@.slots[i],
                forall|i: int|
                    0 <= i < index && !old(self)@.is_live(i) ==> (#[trigger] self@.slots[i]) == old(
                        self,
                    )@.slots[i],
                forall|i: int|
                    0 <= i < index && #[trigger] old(self)@.is_live(i) ==> exists|
                        k: DefaultKey,
                        v: &mut T,
                        keep: bool,
                    |
                        {
                            &&& k.index_spec() == i
                            &&& k.generation_spec() == old(self)@.slots[i].generation
                            &&& *v == old(self)@.value(i)
                            &&& #[trigger] call_ensures(f, (k, v), keep)
                            &&& self@.slots[i] == if keep {
                                SlotState {
                                    generation: old(self)@.slots[i].generation,
                                    status: SlotStatus::Occupied(*final(v)),
                                }
                            } else {
                                SlotState {
                                    generation: next_generation(old(self)@.slots[i].generation),
                                    status: SlotStatus::Vacant,
                                }
                            }
                        },
                self@.free.len() >= old(self)@.free.len(),
                self@.free.subrange(self@.free.len() - old(self)@.free.len(), self@.free.len() as int) == old(
                    self,
                )@.free,
                forall|j: int| 0 <= j < self@.free.len() - old(self)@.free.len() ==> self@.free[j] < index,
                forall|j1: int, j2: int|
                    0 <= j1 < j2 < self@.free.len() - old(self)@.free.len() ==> self@.free[j1] > self@.free[j2],
            decreases self.slots@.len() - index,
        {
            let ghost start = *self;
            assert(start@.slots[index as int] == old(self)@.slots[index as int]);
            if self.slots[index].is_occupied() {
                let key = DefaultKey::new(index as u32, self.slots[index].version().generation());
                let keep = match self.slots[index].get_mut() {
                    Some(value) => call(key, value),
                    None => true,
                };
                proof {
                    Self::lemma_values_written(start, *self);
                }
                if !keep {
                    let _ = self.take_at(index as u32);
                }
            }
            index += 1;
        }
    }

    /// The values of the container with their keys, in the order of the
    /// slot indices.
    pub fn iter(&self) -> (iter: std::vec::IntoIter<(DefaultKey, &T)>)
        requires
            self.wf(),
        ensures
            iter.remaining().len() == self@.len(),
            self@.lists_below(iter.remaining(), self@.slots.len() as int),
            iter.obeys_prophetic_iter_laws(),
            iter.decrease() is Some,
            iter.initial_value_relation(&iter),
    {
        let mut out: Vec<(DefaultKey, &T)> = Vec::new();
        let mut index: usize = 1;
        let ghost mut seen: Set<int> = Set::empty();
        while index < self.slots.len()
            invariant
                self.wf(),
                1 <= index <= self.slots@.len(),
                self@.lists_below(out@, index as int),
                seen.finite(),
                seen.len() == out@.len(),
                seen == self@.live_set().filter(|i: int| i < index),
            decreases self.slots@.len() - index,
        {
            let ghost prev = out@;
            let slot = &self.slots[index];
            match slot.get() {
                SlotContent::Occupied(value) => {
                    let key = DefaultKey::new(index as u32, slot.version().generation());
                    out.push((key, value));
                    proof {
                        seen = seen.insert(index as int);
                        assert forall|i: int| 0 <= i < index + 1 && #[trigger] self@.is_live(i) implies exists|
                            j: int,
                        |
                            0 <= j < out@.len() && (#[trigger] out@[j]).0.index_spec() == i by {
                            if i < index {
                                let j = choose|j: int|
                                    0 <= j < prev.len() && (#[trigger] prev[j]).0.index_spec() == i;
                                assert(out@[j] == prev[j]);
                            } else {
                                assert(out@[prev.len() as int].0.index_spec() == i);
                            }
                        }
                    }
                },
                _ => {},
            }
            index += 1;
        }
        proof {
            assert(seen =~= self@.live_set());
        }
        out.into_iter()
    }
}

impl<T> DeferredMap<T> {
    /// The values of the container with their keys, in the order of the
    /// slot indices, each as a mutable reference. What is written through a
    /// reference becomes the value under its key; nothing else changes.
    pub fn iter_mut(&mut self) -> (iter: std::vec::IntoIter<(DefaultKey, &mut T)>)
        requires
            old(self).wf(),
        ensures
            final(self).wf(),
            final(self)@.slots.len() == old(self)@.slots.len(),
            final(self)@.free == old(self)@.free,
            final(self)@.capacity == old(self)@.capacity,
            forall|i: int|
                0 <= i < old(self)@.slots.len() && !old(self)@.is_live(i) ==> (#[trigger] final(self)@.slots[i])
                    == old(self)@.slots[i],
            iter.remaining().len() == old(self)@.len(),
            forall|j: int|
                0 <= j < iter.remaining().len() ==> {
                    let i = (#[trigger] iter.remaining()[j]).0.index_spec() as int;
                    &&& old(self)@.contains_key(iter.remaining()[j].0)
                    &&& old(self)@.value(i) == *iter.remaining()[j].1
                    &&& final(self)@.slots[i] == SlotState {
                        generation: old(self)@.slots[i].generation,
                        status: SlotStatus::Occupied(*final(iter.remaining()[j].1)),
                    }
                },
            forall|j1: int, j2: int|
                0 <= j1 < j2 < iter.remaining().len() ==> (#[trigger] iter.remaining()[j1]).0.index_spec() < (
                #[trigger] iter.remaining()[j2]).0.index_spec(),
            forall|i: int| #[trigger]
                old(self)@.is_live(i) ==> exists|j: int|
                    0 <= j < iter.remaining().len() && (#[trigger] iter.remaining()[j]).0.index_spec() == i,
            iter.obeys_prophetic_iter_laws(),
            iter.decrease() is Some,
            iter.initial_value_relation(&iter),
    {
        let mut out: Vec<(DefaultKey, &mut T)> = Vec::new();
        let ghost total = self.slots@.len() as int;
        let ghost before = self.slots@;
        let ghost mut seen: Set<int> = Set::empty();
        let mut index: usize = 0;
        let mut rest: &mut [Slot<T>] = self.slots.as_mut_slice();
        while rest.len() > 0
            invariant
                old(self).wf(),
                before == old(self).slots@,
                total == before.len(),
                index + rest@.len() == total,
                rest@ == before.subrange(index as int, total),
                after_borrow(self.slots)@.len() == index + final(rest)@.len(),
                forall|k: int|
                    0 <= k < final(rest)@.len() ==> after_borrow(self.slots)@[index + k] == final(rest)@[k],
                forall|i: int|
                    0 <= i < index ==> {
                        &&& (#[trigger] after_borrow(self.slots)@[i]).version_spec() == before[i].version_spec()
                        &&& if before[i].inner_spec() is Occupied {
                            after_borrow(self.slots)@[i].inner_spec() is Occupied
                        } else {
                            after_borrow(self.slots)@[i].inner_spec() == before[i].inner_spec()
                        }
                    },
                forall|j: int|
                    0 <= j < out@.len() ==> {
                        let i = (#[trigger] out@[j]).0.index_spec() as int;
                        &&& 0 <= i < index
                        &&& before[i].inner_spec() == SlotInner::Occupied(*out@[j].1)
                        &&& before[i].generation_spec() == out@[j].0.generation_spec()
                        &&& after_borrow(self.slots)@[i].inner_spec() == SlotInner::Occupied(*final(out@[j].1))
                    },
                forall|j1: int, j2: int|
                    0 <= j1 < j2 < out@.len() ==> (#[trigger] out@[j1]).0.index_spec() < (
                    #[trigger] out@[j2]).0.index_spec(),
                forall|i: int|
                    0 <= i < index && (#[trigger] before[i]).inner_spec() is Occupied ==> exists|j: int|
                        0 <= j < out@.len() && (#[trigger] out@[j]).0.index_spec() == i,
                seen.finite(),
                seen.len() == out@.len(),
                seen == old(self)@.live_set().filter(|i: int| i < index),
            decreases rest@.len(),
        {
            let ghost prev = out@;
            let (head, tail) = rest.split_at_mut(1);
            assert(final(head)@.len() > 0 ==> after_borrow(self.slots)@[index as int] == final(head)@[0]) by {
                if final(head)@.len() > 0 {
                    assert((final(head)@ + final(tail)@)[0] == final(head)@[0]);
                }
            }
            assert forall|k: int| 0 <= k < final(tail)@.len() implies after_borrow(self.slots)@[index
                + final(head)@.len() + k] == final(tail)@[k] by {
                assert((final(head)@ + final(tail)@)[final(head)@.len() + k] == final(tail)@[k]);
            }
            match head.first_mut() {
                Some(cell) => {
                    let generation = cell.version().generation();
                    match cell.get_mut() {
                        Some(value) => {
                            let key = DefaultKey::new(index as u32, generation);
                            out.push((key, value));
                            proof {
                                seen = seen.insert(index as int);
                                assert forall|i: int|
                                    0 <= i < index + 1 && (#[trigger] before[i]).inner_spec() is Occupied implies exists|
                                    j: int,
                                |
                                    0 <= j < out@.len() && (#[trigger] out@[j]).0.index_spec() == i by {
                                    if i < index {
                                        let j = choose|j: int|
                                            0 <= j < prev.len() && (#[trigger] prev[j]).0.index_spec() == i;
                                        assert(out@[j] == prev[j]);
                                    } else {
                                        assert(out@[prev.len() as int].0.index_spec() == i);
                                    }
                                }
                            }
                        },
                        None => {},
                    }
                },
                None => {},
            }
            rest = tail;
            index += 1;
        }
        proof {
            assert(seen =~= old(self)@.live_set());
            Self::lemma_values_written(*old(self), after_borrow(*self));
            old(self)@.lemma_len_bound();
        }
        out.into_iter()
    }
}

impl<T> DeferredMap<T> {
    /// The parts of the container in their persisted form: the slots, the
    /// head of the free list and the element count. A container with an
    /// open handle has no persisted form, because a reserved slot has none:
    /// it is handed back as it is.
    pub fn into_parts(self) -> (parts: Result<(Vec<Slot<T>>, u32, u32), Self>)
        requires
            self.wf(),
        ensures
            match parts {
                Ok(persisted) => {
                    &&& !self@.has_open_handle()
                    &&& parts_agree(persisted.0@, persisted.1, persisted.2, self@.free)
                    &&& restorable(persisted.0@, persisted.1, persisted.2)
                    &&& slot_states(persisted.0@) == self@.slots
                },
                Err(map) => {
                    &&& self@.has_open_handle()
                    &&& map == self
                },
            },
    {
        let mut index: usize = 0;
        while index < self.slots.len()
            invariant
                self.wf(),
                index <= self.slots@.len(),
                forall|i: int| 0 <= i < index ==> !((#[trigger] self.slots@[i]).inner_spec() is Reserved),
            decreases self.slots@.len() - index,
        {
            if self.slots[index].is_reserved() {
                assert(self@.slots[index as int].status is Reserved);
                return Err(self);
            }
            index += 1;
        }
        proof {
            let model = MapState {
                slots: slot_states(self.slots@),
                free: self.free@,
                capacity: (self.slots@.len() - 1) as nat,
            };
            assert(model.live_set() =~= self@.live_set());
            assert(!self@.has_open_handle()) by {
                if self@.has_open_handle() {
                    let i = choose|i: int|
                        0 <= i < self@.slots.len() && (#[trigger] self@.slots[i]).status is Reserved;
                    assert(self.slots@[i].inner_spec() is Reserved);
                }
            }
        }
        Ok((self.slots, self.free_head, self.num_elems))
    }

    /// Restores a container from its persisted parts. The parts are refused
    /// unless they are those of a well-formed container without an open
    /// handle: slot 0 is the sentinel, no slot is reserved, the links of the
    /// vacant slots spell, from the head, a free list that holds every
    /// vacant slot once, and the element count is the number of occupied
    /// slots. The capacity of the restored container is the number of its
    /// slots.
    pub fn from_parts(slots: Vec<Slot<T>>, free_head: u32, num_elems: u32) -> (restored: Result<
        Self,
        SnapshotError,
    >)
        requires
            forall|i: int| 0 <= i < slots@.len() ==> (#[trigger] slots@[i]).wf(),
        ensures
            restored is Ok <==> restorable(slots@, free_head, num_elems),
            restored matches Err(error) ==> error == SnapshotError::InconsistentContainer,
            restored matches Ok(map) ==> {
                &&& map.wf()
                &&& !map@.has_open_handle()
                &&& map@.slots == slot_states(slots@)
                &&& map@.capacity == slots@.len() - 1
                &&& parts_agree(slots@, free_head, num_elems, map@.free)
            },
    {
        let len = slots.len();
        if len == 0 || len > u32::MAX as usize {
            return Err(SnapshotError::InconsistentContainer);
        }
        if slots[0].generation() != 1 || !slots[0].is_vacant() {
            return Err(SnapshotError::InconsistentContainer);
        }
        let mut visited: Vec<bool> = Vec::new();
        while visited.len() < len
            invariant
                visited@.len() <= len,
                forall|i: int| 0 <= i < visited@.len() ==> !visited@[i],
            decreases len - visited@.len(),
        {
            visited.push(false);
        }
        let ghost mut free: Seq<int> = Seq::empty();
        let mut cur = free_head;
        while cur as usize != len
            invariant
                len == slots@.len(),
                visited@.len() == len,
                1 <= len <= u32::MAX,
                free.no_duplicates(),
                forall|j: int| 0 <= j < free.len() ==> 1 <= #[trigger] free[j] < len,
                forall|i: int| 0 <= i < len ==> (visited@[i] <==> free.contains(i)),
                free_head as int == if free.len() > 0 {
                    free[0]
                } else {
                    cur as int
                },
                forall|j: int|
                    0 <= j < free.len() ==> slots@[#[trigger] free[j]].inner_spec() == SlotInner::<T>::Vacant(
                        if j + 1 < free.len() {
                            free[j + 1] as u32
                        } else {
                            cur
                        },
                    ),
                forall|w: Seq<int>| #[trigger]
                    parts_agree(slots@, free_head, num_elems, w) ==> free.len() <= w.len() && (forall|j: int|
                        0 <= j < free.len() ==> free[j] == w[j]) && cur == if free.len() < w.len() {
                        w[free.len() as int] as u32
                    } else {
                        len as u32
                    },
            decreases len - free.len(),
        {
            proof {
                free.unique_seq_to_set();
                lemma_int_range(1, len as int);
                lemma_len_subset(free.to_set(), set_int_range(1, len as int));
            }
            if cur == 0 || cur as usize > len || visited[cur as usize] {
                assert(!restorable(slots@, free_head, num_elems)) by {
                    if restorable(slots@, free_head, num_elems) {
                        let c = cur as int;
                        if 0 < c < len && visited@[c] {
                            assert(free.contains(c));
                        }
                    }
                }
                return Err(SnapshotError::InconsistentContainer);
            }
            let next = match slots[cur as usize].get() {
                SlotContent::Vacant(next) => next,
                _ => {
                    return Err(SnapshotError::InconsistentContainer);
                },
            };
            let ghost prev = free;
            let ghost prev_visited = visited@;
            assert(!prev.contains(cur as int));
            visited[cur as usize] = true;
            proof {
                free = free.push(cur as int);
                assert forall|i: int| 0 <= i < len implies (visited@[i] <==> free.contains(i)) by {
                    if i == cur {
                        assert(free[prev.len() as int] == i);
                    } else {
                        if prev_visited[i] {
                            assert(prev.contains(i));
                            let j = choose|j: int| 0 <= j < prev.len() && prev[j] == i;
                            assert(free[j] == i);
                        } else if free.contains(i) {
                            let j = choose|j: int| 0 <= j < free.len() && free[j] == i;
                            assert(prev.contains(i));
                        }
                    }
                }
                assert forall|w: Seq<int>| #[trigger] parts_agree(slots@, free_head, num_elems, w) implies free.len()
                    <= w.len() && (forall|j: int| 0 <= j < free.len() ==> free[j] == w[j]) && next == if free.len()
                    < w.len() {
                    w[free.len() as int] as u32
                } else {
                    len as u32
                } by {
                    let n = prev.len() as int;
                }
            }
            cur = next;
        }
        let mut count: u32 = 0;
        let mut index: usize = 1;
        let ghost states = slot_states(slots@);
        let ghost model = MapState { slots: states, free, capacity: (len - 1) as nat };
        let ghost mut seen: Set<int> = Set::empty();
        while index < len
            invariant
                len == slots@.len(),
                visited@.len() == len,
                1 <= index <= len <= u32::MAX,
                model == (MapState { slots: slot_states(slots@), free, capacity: (len - 1) as nat }),
                forall|i: int| 0 <= i < len ==> (visited@[i] <==> free.contains(i)),
                forall|i: int| 0 <= i < slots@.len() ==> (#[trigger] slots@[i]).wf(),
                forall|i: int| 1 <= i < index && slots@[i].inner_spec() is Vacant ==> free.contains(i),
                forall|i: int| 0 <= i < index ==> !((#[trigger] slots@[i]).inner_spec() is Reserved),
                forall|w: Seq<int>| #[trigger] parts_agree(slots@, free_head, num_elems, w) ==> w == free,
                !model.is_live(0),
                seen.finite(),
                seen.len() == count,
                count < index,
                seen == model.live_set().filter(|i: int| i < index),
            decreases len - index,
        {
            if slots[index].is_occupied() {
                proof {
                    seen = seen.insert(index as int);
                }
                count += 1;
            } else if slots[index].is_reserved() {
                return Err(SnapshotError::InconsistentContainer);
            } else if !visited[index] {
                return Err(SnapshotError::InconsistentContainer);
            }
            index += 1;
        }
        proof {
            assert(seen =~= model.live_set());
        }
        if count != num_elems {
            return Err(SnapshotError::InconsistentContainer);
        }
        let map = Self { slots, free_head, num_elems, capacity: len - 1, free: Ghost(free) };
        proof {
            assert(parts_agree(slots@, free_head, num_elems, free));
        }
        Ok(map)
    }
}

impl<T> Default for DeferredMap<T> {
    /// An empty container.
    fn default() -> (map: Self)
        ensures
            map.wf(),
            map@ == MapState::<T>::empty(0),
    {
        Self::new()
    }
}

impl<T: Clone> Clone for DeferredMap<T> {
    /// A container with the same slots, free list and capacity, each value
    /// a clone of the one in the same slot: a key resolves in the copy where
    /// it resolves in this container. The two share nothing: a later change
    /// to one does not show in the other.
    fn clone(&self) -> (copy: Self)
        ensures
            self.wf() ==> copy.wf(),
            self.wf() ==> copy@.slots.len() == self@.slots.len(),
            self.wf() ==> copy@.free == self@.free,
            self.wf() ==> copy@.capacity == self@.capacity,
            self.wf() ==> copy@.len() == self@.len(),
            self.wf() ==> forall|i: int|
                0 <= i < self@.slots.len() ==> {
                    &&& (#[trigger] copy@.slots[i]).generation == self@.slots[i].generation
                    &&& match self@.slots[i].status {
                        SlotStatus::Occupied(value) => copy@.slots[i].status is Occupied && cloned(
                            value,
                            copy@.slots[i].status->Occupied_0,
                        ),
                        status => copy@.slots[i].status == status,
                    }
                },
    {
        let mut slots = self.slots.clone();
        let wanted = self.capacity.saturating_add(1);
        if wanted > slots.len() {
            slots.reserve(wanted - slots.len());
        }
        let copy = Self {
            slots,
            free_head: self.free_head,
            num_elems: self.num_elems,
            capacity: self.capacity,
            free: Ghost(self.free@),
        };
        proof {
            if self.wf() {
                Self::lemma_values_written(*self, copy);
            }
        }
        copy
    }
}

/// Calls `Vec::shrink_to_fit` of std, which gives up spare capacity. The
/// contract claims what its documentation states of the contents: they stay
/// as they are.
#[verifier::external_body]
fn shrink_vec<T>(vec: &mut Vec<T>)
    ensures
        final(vec)@ == old(vec)@,
{
    vec.shrink_to_fit();
}

} // verus!
