use vstd::prelude::*;
use crate::error::SnapshotError;
use crate::generation::next_generation;
use crate::generation::Generation;
use crate::version::Version;
use crate::version::STATE_OCCUPIED;
use crate::version::STATE_RESERVED;
use crate::version::STATE_VACANT;

verus! {

/// What a slot holds beside its version. This is also the payload of a
/// slot's persisted form.
#[derive(Debug)]
pub enum SlotInner<T> {
    /// A live value.
    Occupied(T),
    /// The index of the next vacant slot: a link of the free list.
    Vacant(u32),
    /// Nothing yet: a handle has reserved the slot.
    Reserved,
}

/// What a reader sees of a slot.
#[derive(Debug)]
pub enum SlotContent<'a, T> {
    /// The value of an occupied slot.
    Occupied(&'a T),
    /// The free-list link of a vacant slot.
    Vacant(u32),
    /// A reserved slot shows nothing.
    Reserved,
}

impl<T> SlotInner<T> {
    /// The state bits that go with this payload.
    pub open spec fn state_spec(self) -> u32 {
        match self {
            SlotInner::Occupied(_) => STATE_OCCUPIED,
            SlotInner::Vacant(_) => STATE_VACANT,
            SlotInner::Reserved => STATE_RESERVED,
        }
    }
}

/// One cell of the primary container: a version, and a payload whose kind
/// agrees with the state bits of the version.
#[derive(Debug)]
pub struct Slot<T> {
    version: Version,
    inner: SlotInner<T>,
}

impl<T> Slot<T> {
    /// The version of the slot.
    pub closed spec fn version_spec(self) -> Version {
        self.version
    }

    /// The payload of the slot.
    pub closed spec fn inner_spec(self) -> SlotInner<T> {
        self.inner
    }

    /// A slot is well formed when its version is and the state bits name the
    /// kind of the payload.
    pub open spec fn wf(self) -> bool {
        &&& self.version_spec().wf()
        &&& self.version_spec().state_spec() == self.inner_spec().state_spec()
    }

    /// The counter of the slot's generation.
    pub open spec fn generation_spec(self) -> u32 {
        self.version_spec().generation_spec()
    }

    /// The sentinel slot: vacant, in the first generation, linked to
    /// itself.
    pub fn sentinel() -> (slot: Self)
        ensures
            slot.wf(),
            slot.generation_spec() == 1,
            slot.inner_spec() == SlotInner::<T>::Vacant(0),
    {
        Slot { version: Version::sentinel(), inner: SlotInner::Vacant(0) }
    }

    /// A fresh slot, reserved in the first generation.
    pub fn new_reserved() -> (slot: Self)
        ensures
            slot.wf(),
            slot.generation_spec() == 1,
            slot.inner_spec() == SlotInner::<T>::Reserved,
    {
        Slot { version: Version::new(Generation::min(), STATE_RESERVED), inner: SlotInner::Reserved }
    }

    /// The version of the slot.
    pub fn version(&self) -> (version: Version)
        ensures
            version == self.version_spec(),
    {
        self.version
    }

    /// The state bits: the two lowest bits of the version.
    pub fn state_bits(&self) -> (bits: u32)
        ensures
            bits == self.version_spec().state_spec(),
    {
        self.version.state()
    }

    /// Whether the slot is vacant.
    pub fn is_vacant(&self) -> (vacant: bool)
        requires
            self.wf(),
        ensures
            vacant == (self.inner_spec() is Vacant),
    {
        self.state_bits() == STATE_VACANT
    }

    /// Whether a handle has reserved the slot.
    pub fn is_reserved(&self) -> (reserved: bool)
        requires
            self.wf(),
        ensures
            reserved == (self.inner_spec() is Reserved),
    {
        self.state_bits() == STATE_RESERVED
    }

    /// Whether the slot holds a value.
    pub fn is_occupied(&self) -> (occupied: bool)
        requires
            self.wf(),
        ensures
            occupied == (self.inner_spec() is Occupied),
    {
        self.state_bits() == STATE_OCCUPIED
    }

    /// The counter of the slot's generation.
    pub fn generation(&self) -> (generation: u32)
        requires
            self.wf(),
        ensures
            generation == self.generation_spec(),
            generation != 0,
    {
        self.version.generation().get()
    }

    /// What the slot shows to a reader.
    pub fn get(&self) -> (content: SlotContent<'_, T>)
        ensures
            match self.inner_spec() {
                SlotInner::Occupied(value) => content == SlotContent::Occupied(&value),
                SlotInner::Vacant(next_free) => content == SlotContent::<T>::Vacant(next_free),
                SlotInner::Reserved => content == SlotContent::<T>::Reserved,
            },
    {
        match &self.inner {
            SlotInner::Occupied(value) => SlotContent::Occupied(value),
            SlotInner::Vacant(next_free) => SlotContent::Vacant(*next_free),
            SlotInner::Reserved => SlotContent::Reserved,
        }
    }

    /// A mutable reference to the value of an occupied slot. What is written
    /// through it becomes the value of the slot; the version stays.
    pub fn get_mut(&mut self) -> (value: Option<&mut T>)
        ensures
            final(self).version_spec() == old(self).version_spec(),
            match value {
                Some(v) => {
                    &&& old(self).inner_spec() == SlotInner::Occupied(*v)
                    &&& final(self).inner_spec() == SlotInner::Occupied(*final(v))
                },
                None => {
                    &&& !(old(self).inner_spec() is Occupied)
                    &&& final(self).inner_spec() == old(self).inner_spec()
                },
            },
    {
        match &mut self.inner {
            SlotInner::Occupied(value) => Some(value),
            _ => None,
        }
    }

    /// Vacant to reserved: takes the slot off the free list for a handle and
    /// returns the link it held. The generation stays.
    pub fn reserve(&mut self) -> (next_free: u32)
        requires
            old(self).wf(),
            old(self).inner_spec() is Vacant,
        ensures
            final(self).wf(),
            final(self).generation_spec() == old(self).generation_spec(),
            final(self).inner_spec() == SlotInner::<T>::Reserved,
            old(self).inner_spec() == SlotInner::<T>::Vacant(next_free),
    {
        let next_free = match &self.inner {
            SlotInner::Vacant(next_free) => *next_free,
            _ => 0,
        };
        self.version.vacant_to_reserved();
        self.inner = SlotInner::Reserved;
        next_free
    }

    /// Reserved to occupied: stores the value that the handle stood for. The
    /// generation stays.
    pub fn occupy(&mut self, value: T)
        requires
            old(self).wf(),
            old(self).inner_spec() is Reserved,
        ensures
            final(self).wf(),
            final(self).generation_spec() == old(self).generation_spec(),
            final(self).inner_spec() == SlotInner::Occupied(value),
    {
        self.version.reserved_to_occupied();
        self.inner = SlotInner::Occupied(value);
    }

    /// Occupied to vacant: takes the value out, links the slot to
    /// `next_free` and moves it on to the next generation.
    pub fn vacate(&mut self, next_free: u32) -> (value: T)
        requires
            old(self).wf(),
            old(self).inner_spec() is Occupied,
        ensures
            final(self).wf(),
            final(self).generation_spec() == next_generation(old(self).generation_spec()),
            final(self).inner_spec() == SlotInner::<T>::Vacant(next_free),
            old(self).inner_spec() == SlotInner::Occupied(value),
    {
        let mut inner = SlotInner::Vacant(next_free);
        core::mem::swap(&mut self.inner, &mut inner);
        self.version.occupied_to_vacant();
        match inner {
            SlotInner::Occupied(value) => value,
            _ => vstd::pervasive::unreached(),
        }
    }

    /// Reserved to vacant, for a handle that is given back unused: links the
    /// slot to `next_free` and moves it on to the next generation.
    pub fn release(&mut self, next_free: u32)
        requires
            old(self).wf(),
            old(self).inner_spec() is Reserved,
        ensures
            final(self).wf(),
            final(self).generation_spec() == next_generation(old(self).generation_spec()),
            final(self).inner_spec() == SlotInner::<T>::Vacant(next_free),
    {
        self.version.reserved_to_vacant();
        self.inner = SlotInner::Vacant(next_free);
    }

    /// The persisted form of the slot: its version word and its payload,
    /// which is a value or a link. A reserved slot has no persisted form:
    /// it is handed back as it is.
    pub fn into_parts(self) -> (parts: Result<(u32, SlotInner<T>), Slot<T>>)
        ensures
            match parts {
                Ok(persisted) => {
                    &&& !(self.inner_spec() is Reserved)
                    &&& persisted.0 == self.version_spec().bits()
                    &&& persisted.1 == self.inner_spec()
                    &&& self.wf() ==> Self::from_parts_spec(persisted.0, persisted.1) is None
                },
                Err(slot) => {
                    &&& self.inner_spec() is Reserved
                    &&& slot == self
                },
            },
    {
        match &self.inner {
            SlotInner::Reserved => Err(self),
            _ => Ok((self.version.to_bits(), self.inner)),
        }
    }

    /// Why a version word and a payload are not the persisted form of a
    /// slot, or `None` where they are: the payload is a value or a link, the
    /// generation field of the word is not zero, and its state bits name
    /// the kind of the payload.
    pub open spec fn from_parts_spec(version: u32, inner: SlotInner<T>) -> Option<SnapshotError> {
        if inner is Reserved {
            Some(SnapshotError::ReservedSlot)
        } else if version < 4 {
            Some(SnapshotError::ZeroGeneration)
        } else if version % 4 != inner.state_spec() {
            Some(SnapshotError::VersionContentMismatch)
        } else {
            None
        }
    }

    /// Restores a slot from its persisted form. The payload of a reserved
    /// slot is refused whatever the version word, and so are a version word
    /// without a generation and one whose state bits do not name the kind
    /// of the payload. A restored slot is occupied or vacant.
    pub fn from_parts(version: u32, inner: SlotInner<T>) -> (restored: Result<Slot<T>, SnapshotError>)
        ensures
            match Self::from_parts_spec(version, inner) {
                Some(error) => restored == Err::<Slot<T>, SnapshotError>(error),
                None => {
                    &&& restored is Ok
                    &&& restored->Ok_0.wf()
                    &&& restored->Ok_0.version_spec().bits() == version
                    &&& restored->Ok_0.inner_spec() == inner
                    &&& !(restored->Ok_0.inner_spec() is Reserved)
                },
            },
    {
        if let SlotInner::Reserved = &inner {
            return Err(SnapshotError::ReservedSlot);
        }
        let version = match Version::from_bits(version) {
            Some(version) => version,
            None => {
                return Err(SnapshotError::ZeroGeneration);
            },
        };
        let state = version.state();
        let agrees = match &inner {
            SlotInner::Occupied(_) => state == STATE_OCCUPIED,
            SlotInner::Vacant(_) => state == STATE_VACANT,
            SlotInner::Reserved => false,
        };
        if agrees {
            Ok(Slot { version, inner })
        } else {
            Err(SnapshotError::VersionContentMismatch)
        }
    }
}

impl<T: Clone> Clone for SlotInner<T> {
    /// A payload of the same kind: the same link, or a clone of the value.
    fn clone(&self) -> (copy: Self)
        ensures
            match *self {
                SlotInner::Occupied(value) => copy is Occupied && cloned(value, copy->Occupied_0),
                SlotInner::Vacant(next_free) => copy == SlotInner::<T>::Vacant(next_free),
                SlotInner::Reserved => copy == SlotInner::<T>::Reserved,
            },
    {
        match self {
            SlotInner::Occupied(value) => SlotInner::Occupied(value.clone()),
            SlotInner::Vacant(next_free) => SlotInner::Vacant(*next_free),
            SlotInner::Reserved => SlotInner::Reserved,
        }
    }
}

impl<T: Clone> Clone for Slot<T> {
    /// A slot with the same version and a payload of the same kind: the same
    /// link, or a clone of the value.
    fn clone(&self) -> (copy: Self)
        ensures
            copy.version_spec() == self.version_spec(),
            match self.inner_spec() {
                SlotInner::Occupied(value) => copy.inner_spec() is Occupied && cloned(
                    value,
                    copy.inner_spec()->Occupied_0,
                ),
                SlotInner::Vacant(next_free) => copy.inner_spec() == SlotInner::<T>::Vacant(next_free),
                SlotInner::Reserved => copy.inner_spec() == SlotInner::<T>::Reserved,
            },
    {
        Slot { version: self.version, inner: self.inner.clone() }
    }
}

} // verus!
