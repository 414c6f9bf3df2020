use vstd::prelude::*;
use vstd::set_lib::lemma_int_range;
use vstd::set_lib::lemma_len_subset;
use vstd::set_lib::set_int_range;
use crate::error::DeferredMapError;
use crate::generation::generation_after;
use crate::generation::lemma_generation_after_add;
use crate::generation::lemma_generation_returns_late;
use crate::generation::next_generation;
use crate::generation::MAX_GENERATION;
use crate::key::DefaultKey;
use crate::key::Key;

verus! {

/// The logical state of a slot.
pub enum SlotStatus<T> {
    /// On the free list.
    Vacant,
    /// Reserved by a handle; it holds no value yet.
    Reserved,
    /// Holding a value.
    Occupied(T),
}

/// A slot as the model of the container sees it: its generation and its
/// logical state.
pub struct SlotState<T> {
    pub generation: u32,
    pub status: SlotStatus<T>,
}

/// The model of a `DeferredMap`: the slots by index, the free list as the
/// sequence of vacant indices in the order in which they will be reused, and
/// the number of values that the container has room for.
#[verifier::ext_equal]
pub struct MapState<T> {
    pub slots: Seq<SlotState<T>>,
    pub free: Seq<int>,
    pub capacity: nat,
}

impl<T> MapState<T> {
    /// The sentinel: slot 0 is vacant for ever and no handle or key
    /// addresses it.
    pub open spec fn sentinel() -> SlotState<T> {
        SlotState { generation: 1, status: SlotStatus::Vacant }
    }

    /// The state of a container that holds nothing but the sentinel.
    pub open spec fn empty(capacity: nat) -> MapState<T> {
        MapState { slots: seq![Self::sentinel()], free: Seq::empty(), capacity }
    }

    /// The invariant of the model: slot 0 is the sentinel, every generation
    /// lies within `1..=MAX_GENERATION`, the free list holds each vacant
    /// slot but the sentinel exactly once and nothing else, and the capacity
    /// covers the slots.
    pub open spec fn wf(self) -> bool {
        &&& 1 <= self.slots.len() <= u32::MAX
        &&& self.slots[0] == Self::sentinel()
        &&& forall|i: int|
            0 <= i < self.slots.len() ==> 1 <= (#[trigger] self.slots[i]).generation <= MAX_GENERATION
        &&& self.free.no_duplicates()
        &&& forall|j: int|
            0 <= j < self.free.len() ==> 1 <= (#[trigger] self.free[j]) < self.slots.len()
                && self.slots[self.free[j]].status is Vacant
        &&& forall|i: int|
            1 <= i < self.slots.len() && (#[trigger] self.slots[i]).status is Vacant ==> self.free.contains(i)
        &&& self.slots.len() - 1 <= self.capacity
    }

    /// Whether the slot at `index` holds a value.
    pub open spec fn is_live(self, index: int) -> bool {
        0 <= index < self.slots.len() && self.slots[index].status is Occupied
    }

    /// Whether a key of the given index and generation resolves to a value:
    /// the slot is occupied and in that generation.
    pub open spec fn contains(self, index: u32, generation: u32) -> bool {
        self.is_live(index as int) && self.slots[index as int].generation == generation
    }

    /// Whether `key` resolves to a value.
    pub open spec fn contains_key(self, key: DefaultKey) -> bool {
        self.contains(key.index_spec(), key.generation_spec())
    }

    /// The value in the slot at `index`.
    pub open spec fn value(self, index: int) -> T {
        self.slots[index].status->Occupied_0
    }

    /// The value that `key` resolves to.
    pub open spec fn value_of(self, key: DefaultKey) -> T {
        self.value(key.index_spec() as int)
    }

    /// The indices of the slots that hold a value.
    pub open spec fn live_set(self) -> Set<int> {
        Set::new(|i: int| self.is_live(i))
    }

    /// The number of values.
    pub open spec fn len(self) -> nat {
        self.live_set().len()
    }

    /// The index of the slot that the next handle will address: the head of
    /// the free list, or a new slot behind the last one.
    pub open spec fn next_index(self) -> int {
        if self.free.len() > 0 {
            self.free[0]
        } else {
            self.slots.len() as int
        }
    }

    /// The generation that the next handle will carry: that of the slot it
    /// reuses, or the first generation for a new slot.
    pub open spec fn next_handle_generation(self) -> u32 {
        if self.free.len() > 0 {
            self.slots[self.free[0]].generation
        } else {
            1
        }
    }

    /// Whether a handle is open: a slot is reserved and waits for its
    /// handle to be consumed.
    pub open spec fn has_open_handle(self) -> bool {
        exists|i: int| 0 <= i < self.slots.len() && (#[trigger] self.slots[i]).status is Reserved
    }

    /// Whether a handle can be allocated: a slot can be reused, or the
    /// index of a new one still fits.
    pub open spec fn can_allocate(self) -> bool {
        self.free.len() > 0 || self.slots.len() < u32::MAX
    }

    /// Vacant, or not yet there, to reserved: the state after the next
    /// handle was allocated.
    pub open spec fn allocate(self) -> MapState<T> {
        if self.free.len() > 0 {
            MapState {
                slots: self.slots.update(
                    self.free[0],
                    SlotState { generation: self.slots[self.free[0]].generation, status: SlotStatus::Reserved },
                ),
                free: self.free.drop_first(),
                capacity: self.capacity,
            }
        } else {
            MapState {
                slots: self.slots.push(SlotState { generation: 1, status: SlotStatus::Reserved }),
                free: self.free,
                capacity: if self.capacity >= self.slots.len() {
                    self.capacity
                } else {
                    self.slots.len()
                },
            }
        }
    }

    /// Why a handle of the given index and generation is turned away, or
    /// `None` where it is the one that reserved the slot.
    pub open spec fn handle_error(self, index: u32, generation: u32) -> Option<DeferredMapError> {
        if index == 0 || index >= self.slots.len() {
            Some(DeferredMapError::InvalidHandle)
        } else if self.slots[index as int].generation != generation {
            Some(DeferredMapError::GenerationMismatch)
        } else if !(self.slots[index as int].status is Reserved) {
            Some(DeferredMapError::HandleAlreadyUsed)
        } else {
            None
        }
    }

    /// Reserved to occupied: the state after `value` was stored in the slot
    /// at `index`.
    pub open spec fn insert(self, index: int, value: T) -> MapState<T> {
        MapState {
            slots: self.slots.update(
                index,
                SlotState { generation: self.slots[index].generation, status: SlotStatus::Occupied(value) },
            ),
            ..self
        }
    }

    /// Occupied or reserved to vacant: the state after the slot at `index`
    /// was given back. The slot moves on to the next generation and becomes
    /// the head of the free list.
    pub open spec fn vacate(self, index: int) -> MapState<T> {
        MapState {
            slots: self.slots.update(
                index,
                SlotState {
                    generation: next_generation(self.slots[index].generation),
                    status: SlotStatus::Vacant,
                },
            ),
            free: seq![index] + self.free,
            capacity: self.capacity,
        }
    }

    /// The state after `value` was written over the value in the slot at
    /// `index`.
    pub open spec fn set_value(self, index: int, value: T) -> MapState<T> {
        self.insert(index, value)
    }

    /// Whether `items` lists the values in the slots below `bound`: each of
    /// them once, with the key that resolves to it, in the order of the slot
    /// indices.
    pub open spec fn lists_below(self, items: Seq<(DefaultKey, &T)>, bound: int) -> bool {
        &&& forall|j: int|
            0 <= j < items.len() ==> {
                let i = (#[trigger] items[j]).0.index_spec() as int;
                &&& i < bound
                &&& self.contains_key(items[j].0)
                &&& self.value(i) == *items[j].1
            }
        &&& forall|j1: int, j2: int|
            0 <= j1 < j2 < items.len() ==> (#[trigger] items[j1]).0.index_spec() < (
            #[trigger] items[j2]).0.index_spec()
        &&& forall|i: int|
            0 <= i < bound && #[trigger] self.is_live(i) ==> exists|j: int|
                0 <= j < items.len() && (#[trigger] items[j]).0.index_spec() == i
    }

    /// The state after room was made for `additional` more values than the
    /// slots hold: the capacity grows to that number where it is below it.
    pub open spec fn reserve(self, additional: nat) -> MapState<T> {
        MapState {
            capacity: if self.capacity >= self.slots.len() - 1 + additional {
                self.capacity
            } else {
                (self.slots.len() - 1 + additional) as nat
            },
            ..self
        }
    }

    /// The state after the room that no slot uses was given up: the
    /// capacity is the number of slots, the sentinel not counted.
    pub open spec fn shrink_to_fit(self) -> MapState<T> {
        MapState { capacity: (self.slots.len() - 1) as nat, ..self }
    }

    /// The values are finitely many, and fewer than the slots: the sentinel
    /// never holds one.
    pub proof fn lemma_len_bound(self)
        requires
            self.slots.len() >= 1,
            !self.is_live(0),
        ensures
            self.live_set().finite(),
            self.len() <= self.slots.len() - 1,
    {
        let n = self.slots.len() as int;
        lemma_int_range(1, n);
        lemma_len_subset(self.live_set(), set_int_range(1, n));
    }
}

/// An operation that a caller can perform on the container, as the model
/// sees it. Handles and keys appear by their index and generation.
pub enum Op<T> {
    /// Allocate a handle.
    Allocate,
    /// Consume a handle to store a value.
    Insert { index: u32, generation: u32, value: T },
    /// Give a handle back unused.
    Release { index: u32, generation: u32 },
    /// Remove the value under a key.
    Remove { index: u32, generation: u32 },
    /// Write over the value under a key.
    Write { index: u32, generation: u32, value: T },
    /// Make room for more values.
    Reserve { additional: nat },
    /// Give up the room that no slot uses.
    ShrinkToFit,
}

impl<T> MapState<T> {
    /// The state after `op`. An operation that the container turns away
    /// leaves the state as it is.
    pub open spec fn step(self, op: Op<T>) -> MapState<T> {
        match op {
            Op::Allocate => if self.can_allocate() {
                self.allocate()
            } else {
                self
            },
            Op::Insert { index, generation, value } => if self.handle_error(index, generation) is None {
                self.insert(index as int, value)
            } else {
                self
            },
            Op::Release { index, generation } => if self.handle_error(index, generation) is None {
                self.vacate(index as int)
            } else {
                self
            },
            Op::Remove { index, generation } => if self.contains(index, generation) {
                self.vacate(index as int)
            } else {
                self
            },
            Op::Write { index, generation, value } => if self.contains(index, generation) {
                self.set_value(index as int, value)
            } else {
                self
            },
            Op::Reserve { additional } => self.reserve(additional),
            Op::ShrinkToFit => self.shrink_to_fit(),
        }
    }

    /// Whether `op` gives the slot at `index` back, which moves the slot on
    /// to its next generation: a handle that reserved it is released, or
    /// the value in it is removed.
    pub open spec fn recycles(self, op: Op<T>, index: int) -> bool {
        match op {
            Op::Release { index: i, generation } => i == index && self.handle_error(i, generation) is None,
            Op::Remove { index: i, generation } => i == index && self.contains(i, generation),
            _ => false,
        }
    }

    /// How many of the operations `ops`, performed in their order from this
    /// state, give the slot at `index` back.
    pub open spec fn recycle_count(self, ops: Seq<Op<T>>, index: int) -> nat
        decreases ops.len(),
    {
        if ops.len() == 0 {
            0
        } else {
            self.recycle_count(ops.drop_last(), index) + if self.run(ops.drop_last()).recycles(
                ops.last(),
                index,
            ) {
                1nat
            } else {
                0nat
            }
        }
    }

    /// The state after the operations `ops`, in their order.
    pub open spec fn run(self, ops: Seq<Op<T>>) -> MapState<T>
        decreases ops.len(),
    {
        if ops.len() == 0 {
            self
        } else {
            self.run(ops.drop_last()).step(ops.last())
        }
    }

    /// Allocating a handle keeps the invariant, reserves the slot that the
    /// handle addresses in the generation that the handle carries, and
    /// changes no other slot.
    pub proof fn lemma_allocate(self)
        requires
            self.wf(),
            self.can_allocate(),
        ensures
            self.allocate().wf(),
            self.allocate().handle_error(self.next_index() as u32, self.next_handle_generation()) is None,
            self.allocate().live_set() == self.live_set(),
            forall|i: int|
                0 <= i < self.slots.len() && i != self.next_index() ==> self.allocate().slots[i]
                    == self.slots[i],
    {
        let after = self.allocate();
        if self.free.len() > 0 {
            assert forall|i: int|
                1 <= i < after.slots.len() && (#[trigger] after.slots[i]).status is Vacant implies after.free.contains(
                i,
            ) by {
                let j = choose|j: int| 0 <= j < self.free.len() && self.free[j] == i;
                assert(after.free[j - 1] == i);
            }
        }
    }

    /// Storing a value through a handle keeps the invariant and adds one
    /// value: the key of the handle resolves to it.
    pub proof fn lemma_insert(self, index: u32, generation: u32, value: T)
        requires
            self.wf(),
            self.handle_error(index, generation) is None,
        ensures
            self.insert(index as int, value).wf(),
            self.insert(index as int, value).contains(index, generation),
            self.insert(index as int, value).value(index as int) == value,
            self.insert(index as int, value).live_set() == self.live_set().insert(index as int),
            self.insert(index as int, value).len() == self.len() + 1,
    {
        let after = self.insert(index as int, value);
        self.lemma_len_bound();
    }

    /// Giving a slot back keeps the invariant. The slot moves on to the
    /// next generation, and it is the one that is reused first: slots are
    /// recycled last in, first out, and the handle that reuses a slot
    /// carries the generation after the one that was given back.
    pub proof fn lemma_vacate(self, index: int)
        requires
            self.wf(),
            1 <= index < self.slots.len(),
            !(self.slots[index].status is Vacant),
        ensures
            self.vacate(index).wf(),
            self.vacate(index).can_allocate(),
            self.vacate(index).next_index() == index,
            self.vacate(index).next_handle_generation() == next_generation(self.slots[index].generation),
            self.vacate(index).allocate().free == self.free,
            self.vacate(index).live_set() == self.live_set().remove(index),
            self.vacate(index).len() == if self.is_live(index) {
                self.len() - 1
            } else {
                self.len() as int
            },
    {
        let after = self.vacate(index);
        self.lemma_len_bound();
        assert forall|i: int|
            1 <= i < after.slots.len() && (#[trigger] after.slots[i]).status is Vacant implies after.free.contains(
            i,
        ) by {
            if i == index {
                assert(after.free[0] == i);
            } else {
                let j = choose|j: int| 0 <= j < self.free.len() && self.free[j] == i;
                assert(after.free[j + 1] == i);
            }
        }
    }

    /// Writing over a value keeps the invariant, the values' keys and their
    /// number.
    pub proof fn lemma_set_value(self, index: u32, generation: u32, value: T)
        requires
            self.wf(),
            self.contains(index, generation),
        ensures
            self.set_value(index as int, value).wf(),
            self.set_value(index as int, value).contains(index, generation),
            self.set_value(index as int, value).value(index as int) == value,
            self.set_value(index as int, value).live_set() == self.live_set(),
    {
        let after = self.set_value(index as int, value);
    }

    /// Every operation keeps the invariant and never takes a slot away. It
    /// moves a slot on to its next generation where it gives the slot back,
    /// and leaves the generation of every other slot as it is.
    pub proof fn lemma_step(self, op: Op<T>)
        requires
            self.wf(),
        ensures
            self.step(op).wf(),
            self.step(op).slots.len() >= self.slots.len(),
            forall|i: int|
                0 <= i < self.slots.len() ==> (#[trigger] self.step(op).slots[i]).generation == if self.recycles(
                    op,
                    i,
                ) {
                    next_generation(self.slots[i].generation)
                } else {
                    self.slots[i].generation
                },
    {
        match op {
            Op::Allocate => {
                if self.can_allocate() {
                    self.lemma_allocate();
                }
            },
            Op::Insert { index, generation, value } => {
                if self.handle_error(index, generation) is None {
                    self.lemma_insert(index, generation, value);
                }
            },
            Op::Release { index, generation } => {
                if self.handle_error(index, generation) is None {
                    self.lemma_vacate(index as int);
                }
            },
            Op::Remove { index, generation } => {
                if self.contains(index, generation) {
                    self.lemma_vacate(index as int);
                }
            },
            Op::Write { index, generation, value } => {
                if self.contains(index, generation) {
                    self.lemma_set_value(index, generation, value);
                }
            },
            Op::Reserve { additional } => {},
            Op::ShrinkToFit => {},
        }
    }

    /// A run of operations keeps the invariant and the slots. The
    /// generation of a slot after the run is the one it started from, moved
    /// on once for each operation of the run that gave the slot back;
    /// operations that do not touch the slot do not count.
    pub proof fn lemma_run(self, ops: Seq<Op<T>>, index: int)
        requires
            self.wf(),
            0 <= index < self.slots.len(),
        ensures
            self.run(ops).wf(),
            index < self.run(ops).slots.len(),
            self.run(ops).slots[index].generation == generation_after(
                self.slots[index].generation,
                self.recycle_count(ops, index),
            ),
        decreases ops.len(),
    {
        if ops.len() > 0 {
            self.lemma_run(ops.drop_last(), index);
            self.run(ops.drop_last()).lemma_step(ops.last());
        }
    }

    /// A removed key stays removed. Once the value under a key is removed,
    /// the key resolves to nothing, and no operation brings it back: the
    /// slot has moved on to another generation, and it comes back to the
    /// generation of the key only when the counter has gone all the way
    /// round. This holds for every run of operations, however long, that
    /// gives the slot back fewer than `MAX_GENERATION - 1` times. (`clear`
    /// starts the container afresh and is no such operation.)
    pub proof fn lemma_removed_key_stays_absent(self, index: u32, generation: u32, ops: Seq<Op<T>>)
        requires
            self.wf(),
            self.contains(index, generation),
            self.vacate(index as int).recycle_count(ops, index as int) + 1 < MAX_GENERATION,
        ensures
            !self.vacate(index as int).contains(index, generation),
            !self.vacate(index as int).run(ops).contains(index, generation),
            self.vacate(index as int).run(ops).slots[index as int].generation == generation_after(
                generation,
                self.vacate(index as int).recycle_count(ops, index as int) + 1,
            ),
    {
        let n = self.vacate(index as int).recycle_count(ops, index as int);
        self.lemma_vacate(index as int);
        self.vacate(index as int).lemma_run(ops, index as int);
        assert(generation_after(generation, 1) == next_generation(generation)) by {
            assert(generation_after(generation, 0) == generation);
        }
        lemma_generation_after_add(generation, 1, n);
        lemma_generation_returns_late(generation, n + 1);
        lemma_generation_returns_late(generation, 1);
    }

    /// A handle that was given back is of no use any more: the slot has
    /// moved on to another generation, so the handle is turned away by
    /// every state that a run of operations reaches, as long as the run
    /// gives the slot back fewer than `MAX_GENERATION - 1` times.
    pub proof fn lemma_released_handle_stays_invalid(self, index: u32, generation: u32, ops: Seq<Op<T>>)
        requires
            self.wf(),
            self.handle_error(index, generation) is None,
            self.vacate(index as int).recycle_count(ops, index as int) + 1 < MAX_GENERATION,
        ensures
            self.vacate(index as int).run(ops).handle_error(index, generation) == Some(
                DeferredMapError::GenerationMismatch,
            ),
    {
        let n = self.vacate(index as int).recycle_count(ops, index as int);
        self.lemma_vacate(index as int);
        self.vacate(index as int).lemma_run(ops, index as int);
        assert(generation_after(generation, 1) == next_generation(generation)) by {
            assert(generation_after(generation, 0) == generation);
        }
        lemma_generation_after_add(generation, 1, n);
        lemma_generation_returns_late(generation, n + 1);
    }
}

} // verus!
