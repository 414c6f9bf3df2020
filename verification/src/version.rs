use vstd::prelude::*;
use crate::generation::Generation;
use crate::generation::MAX_GENERATION;
use crate::generation::next_generation;

verus! {

/// State bits of a slot that holds a link of the free list.
pub const STATE_VACANT: u32 = 0b00;

/// State bits of a slot that a handle has reserved and that holds no value
/// yet.
pub const STATE_RESERVED: u32 = 0b01;

/// State bits of a slot that holds a value.
pub const STATE_OCCUPIED: u32 = 0b11;

/// The version of a slot: its generation and its state in one word. The two
/// lowest bits are the state, the thirty bits above them the generation.
#[derive(Clone, Copy, PartialEq, Eq, Hash, Debug, Structural)]
pub struct Version {
    bits: u32,
}

impl Version {
    /// The packed word.
    pub closed spec fn bits(self) -> u32 {
        self.bits
    }

    /// A version is well formed when its generation field is not zero.
    pub open spec fn wf(self) -> bool {
        self.bits() >= 4
    }

    /// The generation field.
    pub open spec fn generation_spec(self) -> u32 {
        self.bits() / 4
    }

    /// The state field.
    pub open spec fn state_spec(self) -> u32 {
        self.bits() % 4
    }

    /// The word that packs `generation` and `state`.
    pub open spec fn pack(generation: u32, state: u32) -> int {
        generation * 4 + state
    }

    /// The version with the given generation and state bits.
    pub fn new(generation: Generation, state: u32) -> (v: Version)
        requires
            state <= 0b11,
            generation.value() <= MAX_GENERATION,
        ensures
            v.wf(),
            v.bits() == Self::pack(generation.value(), state),
            v.generation_spec() == generation.value(),
            v.state_spec() == state,
    {
        let g = generation.get();
        let bits = (g << 2) | (state & 0b11);
        assert(bits == g * 4 + state) by (bit_vector)
            requires
                bits == (g << 2) | (state & 0b11),
                state <= 0b11,
                g <= 0x3FFF_FFFF,
        ;
        Version { bits }
    }

    /// The version of the sentinel slot: vacant, in the first generation.
    pub fn sentinel() -> (v: Version)
        ensures
            v.wf(),
            v.generation_spec() == 1,
            v.state_spec() == STATE_VACANT,
    {
        Self::new(Generation::min(), STATE_VACANT)
    }

    /// The version that a packed word stands for, or `None` where the word's
    /// generation field is zero.
    pub fn from_bits(bits: u32) -> (v: Option<Version>)
        ensures
            bits < 4 <==> v is None,
            v matches Some(version) ==> version.bits() == bits && version.wf(),
    {
        if bits < 4 {
            None
        } else {
            Some(Version { bits })
        }
    }

    /// The packed word.
    pub fn to_bits(&self) -> (bits: u32)
        ensures
            bits == self.bits(),
    {
        self.bits
    }

    /// The generation part.
    pub fn generation(&self) -> (g: Generation)
        requires
            self.wf(),
        ensures
            g.value() == self.generation_spec(),
    {
        let bits = self.bits;
        assert(bits >> 2 == bits / 4) by (bit_vector);
        Generation::new_unchecked(self.bits >> 2)
    }

    /// The state part: the two lowest bits.
    pub fn state(&self) -> (s: u32)
        ensures
            s == self.state_spec(),
    {
        let bits = self.bits;
        assert(bits & 0b11 == bits % 4) by (bit_vector);
        self.bits & 0b11
    }

    /// Whether the state is vacant.
    pub fn is_vacant(&self) -> (b: bool)
        ensures
            b == (self.state_spec() == STATE_VACANT),
    {
        self.state() == STATE_VACANT
    }

    /// Whether the state is reserved.
    pub fn is_reserved(&self) -> (b: bool)
        ensures
            b == (self.state_spec() == STATE_RESERVED),
    {
        self.state() == STATE_RESERVED
    }

    /// Whether the state is occupied.
    pub fn is_occupied(&self) -> (b: bool)
        ensures
            b == (self.state_spec() == STATE_OCCUPIED),
    {
        self.state() == STATE_OCCUPIED
    }

    /// Vacant to reserved: the state advances, the generation stays.
    pub fn vacant_to_reserved(&mut self)
        requires
            old(self).wf(),
            old(self).state_spec() == STATE_VACANT,
        ensures
            final(self).wf(),
            final(self).bits() == old(self).bits() + 1,
            final(self).generation_spec() == old(self).generation_spec(),
            final(self).state_spec() == STATE_RESERVED,
    {
        self.bits = self.bits + 1;
    }

    /// Reserved to occupied: the state advances, the generation stays.
    pub fn reserved_to_occupied(&mut self)
        requires
            old(self).wf(),
            old(self).state_spec() == STATE_RESERVED,
        ensures
            final(self).wf(),
            final(self).bits() == old(self).bits() + 2,
            final(self).generation_spec() == old(self).generation_spec(),
            final(self).state_spec() == STATE_OCCUPIED,
    {
        self.bits = self.bits + 2;
    }

    /// Occupied to vacant: the state is reset and the generation moves on to
    /// the next one, skipping zero.
    pub fn occupied_to_vacant(&mut self)
        requires
            old(self).wf(),
            old(self).state_spec() == STATE_OCCUPIED,
        ensures
            final(self).wf(),
            final(self).generation_spec() == next_generation(old(self).generation_spec()),
            final(self).state_spec() == STATE_VACANT,
    {
        let mut v = self.bits.wrapping_add(1);
        assert(v >> 2 == v / 4) by (bit_vector);
        if v >> 2 == 0 {
            v = v.wrapping_add(4);
        }
        self.bits = v;
    }

    /// Reserved to vacant, for a handle that is given back unused: the state
    /// is reset and the generation moves on to the next one, skipping zero.
    pub fn reserved_to_vacant(&mut self)
        requires
            old(self).wf(),
            old(self).state_spec() == STATE_RESERVED,
        ensures
            final(self).wf(),
            final(self).generation_spec() == next_generation(old(self).generation_spec()),
            final(self).state_spec() == STATE_VACANT,
    {
        let mut v = self.bits.wrapping_add(3);
        assert(v >> 2 == v / 4) by (bit_vector);
        if v >> 2 == 0 {
            v = v.wrapping_add(4);
        }
        self.bits = v;
    }
}

} // verus!
