use vstd::prelude::*;

verus! {

/// The number of values of the index field of a key: the generation field
/// starts above it.
pub const INDEX_RANGE: u64 = 0x1_0000_0000;

/// The key bits that hold `index` in the low half and `generation` in the
/// high half.
pub open spec fn encode_key_spec(index: u32, generation: u32) -> u64 {
    (generation * INDEX_RANGE + index) as u64
}

/// The index and the generation that key bits hold.
pub open spec fn decode_key_spec(key: u64) -> (u32, u32) {
    ((key % INDEX_RANGE) as u32, (key / INDEX_RANGE) as u32)
}

/// Decoding undoes encoding: every index and generation come back from the
/// key bits that were made of them.
pub proof fn lemma_decode_encode(index: u32, generation: u32)
    ensures
        decode_key_spec(encode_key_spec(index, generation)) == (index, generation),
{
}

/// Encoding undoes decoding: the two fields are disjoint and cover the key
/// bits, so the codec is a bijection.
pub proof fn lemma_encode_decode(key: u64)
    ensures
        encode_key_spec(decode_key_spec(key).0, decode_key_spec(key).1) == key,
{
}

/// Packs an index and a generation into key bits.
pub fn encode_key(index: u32, generation: u32) -> (key: u64)
    ensures
        key == encode_key_spec(index, generation),
{
    let key = ((generation as u64) << 32) | (index as u64);
    assert(key == generation * 0x1_0000_0000 + index) by (bit_vector)
        requires
            key == ((generation as u64) << 32) | (index as u64),
    ;
    key
}

/// Unpacks key bits into the index and the generation.
pub fn decode_key(key: u64) -> (parts: (u32, u32))
    ensures
        parts == decode_key_spec(key),
{
    assert(key as u32 == key % 0x1_0000_0000) by (bit_vector);
    assert((key >> 32) as u32 == key / 0x1_0000_0000) by (bit_vector);
    let index = key as u32;
    let generation = (key >> 32) as u32;
    (index, generation)
}

} // verus!
