use vstd::prelude::*;
use crate::generation::Generation;
use crate::utils::decode_key;
use crate::utils::decode_key_spec;
use crate::utils::encode_key;
use crate::utils::encode_key_spec;
use crate::utils::INDEX_RANGE;

verus! {

/// An identifier made of a slot index and a generation. A key type can be
/// built from its two parts and gives them back unchanged.
pub trait Key: Copy + Clone + PartialEq + Eq + std::hash::Hash + std::fmt::Debug {
    /// The slot index that the key holds.
    spec fn index_spec(&self) -> u32;

    /// The counter of the generation that the key holds.
    spec fn generation_spec(&self) -> u32;

    /// The key that holds `index` and `generation`.
    fn from_parts(index: u32, generation: Generation) -> (key: Self)
        ensures
            key.index_spec() == index,
            key.generation_spec() == generation.value(),
    ;

    /// The slot index.
    fn index(&self) -> (index: u32)
        ensures
            index == self.index_spec(),
    ;

    /// The generation.
    fn generation(&self) -> (generation: Generation)
        ensures
            generation.value() == self.generation_spec(),
    ;
}

/// The key of the containers of this crate: 64 bits, the index in the low
/// half and the generation in the high half.
#[derive(Clone, Copy, PartialEq, Eq, Hash, Debug, Structural)]
pub struct DefaultKey {
    raw: u64,
}

impl Key for DefaultKey {
    open spec fn index_spec(&self) -> u32 {
        decode_key_spec(self.raw_spec()).0
    }

    open spec fn generation_spec(&self) -> u32 {
        decode_key_spec(self.raw_spec()).1
    }

    fn from_parts(index: u32, generation: Generation) -> (key: Self)
        ensures
            key == Self::from_parts_spec(index, generation),
    {
        DefaultKey { raw: encode_key(index, generation.get()) }
    }

    fn index(&self) -> (index: u32) {
        decode_key(self.raw).0
    }

    fn generation(&self) -> (generation: Generation)
        ensures
            generation == Generation::from_value(self.generation_spec()),
    {
        proof {
            use_type_invariant(self);
        }
        Generation::new_unchecked(decode_key(self.raw).1)
    }
}

impl DefaultKey {
    #[verifier::type_invariant]
    spec fn generation_non_zero(self) -> bool {
        self.raw >= INDEX_RANGE
    }

    /// The 64 bits of the key.
    pub closed spec fn raw_spec(self) -> u64 {
        self.raw
    }

    /// Two keys with the same index and the same generation are the same
    /// key.
    pub proof fn lemma_parts_injective(a: DefaultKey, b: DefaultKey)
        requires
            a.index_spec() == b.index_spec(),
            a.generation_spec() == b.generation_spec(),
        ensures
            a == b,
    {
        crate::utils::lemma_encode_decode(a.raw_spec());
        crate::utils::lemma_encode_decode(b.raw_spec());
    }

    /// The key that holds `index` and `generation`.
    pub closed spec fn from_parts_spec(index: u32, generation: Generation) -> DefaultKey {
        DefaultKey { raw: encode_key_spec(index, generation.value()) }
    }

    /// The index and the generation that the key holds.
    pub open spec fn decode_spec(self) -> (u32, Generation) {
        (self.index_spec(), Generation::from_value(self.generation_spec()))
    }

    /// Decoding undoes encoding: a key gives back the index and the
    /// generation that it was made of, whatever they are.
    pub proof fn lemma_round_trip(index: u32, generation: Generation)
        ensures
            Self::from_parts_spec(index, generation).decode_spec() == (index, generation),
            Self::from_parts_spec(index, generation).index_spec() == index,
            Self::from_parts_spec(index, generation).generation_spec() == generation.value(),
    {
        crate::utils::lemma_decode_encode(index, generation.value());
        generation.lemma_from_value(0);
    }

    /// Encoding undoes decoding: a key is made of the parts that it gives
    /// back, so the codec is a bijection.
    pub proof fn lemma_round_trip_back(self)
        ensures
            Self::from_parts_spec(self.decode_spec().0, self.decode_spec().1) == self,
    {
        crate::utils::lemma_encode_decode(self.raw_spec());
        self.decode_spec().1.lemma_from_value(self.generation_spec());
    }

    /// The key that holds `index` and `generation`.
    pub fn new(index: u32, generation: Generation) -> (key: DefaultKey)
        ensures
            key == Self::from_parts_spec(index, generation),
            key.index_spec() == index,
            key.generation_spec() == generation.value(),
            key.raw_spec() == encode_key_spec(index, generation.value()),
    {
        <DefaultKey as Key>::from_parts(index, generation)
    }

    /// The index and the generation of the key.
    pub fn decode(&self) -> (parts: (u32, Generation))
        ensures
            parts == self.decode_spec(),
            parts.0 == self.index_spec(),
            parts.1.value() == self.generation_spec(),
    {
        (self.index(), self.generation())
    }

    /// The 64 bits of the key.
    pub fn raw(&self) -> (raw: u64)
        ensures
            raw == self.raw_spec(),
            decode_key_spec(raw).1 != 0,
    {
        proof {
            use_type_invariant(self);
        }
        self.raw
    }

    /// The key that the 64 bits `raw` stand for, or `None` where their
    /// generation field is zero.
    pub fn from_raw(raw: u64) -> (key: Option<DefaultKey>)
        ensures
            decode_key_spec(raw).1 == 0 <==> key is None,
            key matches Some(k) ==> k.raw_spec() == raw,
    {
        if raw < INDEX_RANGE {
            None
        } else {
            Some(DefaultKey { raw })
        }
    }
}

} // verus!
