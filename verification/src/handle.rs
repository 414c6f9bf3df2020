use vstd::prelude::*;
use crate::generation::Generation;
use crate::key::DefaultKey;
use crate::key::Key;

verus! {

/// A one-time token for a reserved slot. It is handed out by
/// `allocate_handle` and consumed by `insert` or by `release_handle`. A
/// handle cannot be copied or cloned, so it is used at most once.
#[derive(Debug, PartialEq, Eq)]
pub struct Handle<K: Key = DefaultKey> {
    key: K,
}

impl<K: Key> Handle<K> {
    /// The key that the handle stands for.
    pub closed spec fn key_spec(self) -> K {
        self.key
    }

    /// The slot index that the handle addresses.
    pub open spec fn index_spec(self) -> u32 {
        self.key_spec().index_spec()
    }

    /// The counter of the generation that the handle was issued for.
    pub open spec fn generation_spec(self) -> u32 {
        self.key_spec().generation_spec()
    }

    /// The handle that stands for `key`.
    pub fn new(key: K) -> (handle: Self)
        ensures
            handle.key_spec() == key,
    {
        Self { key }
    }

    /// The key under which the value will be found once it is inserted.
    pub fn key(&self) -> (key: K)
        ensures
            key == self.key_spec(),
    {
        self.key
    }

    /// The slot index.
    pub fn index(&self) -> (index: u32)
        ensures
            index == self.index_spec(),
    {
        self.key.index()
    }

    /// The generation.
    pub fn generation(&self) -> (generation: Generation)
        ensures
            generation.value() == self.generation_spec(),
    {
        self.key.generation()
    }
}

} // verus!
