use vstd::prelude::*;

verus! {

/// Why a handle was turned away by `insert` or `release_handle`.
#[derive(Debug, Clone, Copy, PartialEq, Eq, Hash, Structural)]
pub enum DeferredMapError {
    /// The slot the handle addresses is no longer reserved: the handle was
    /// already consumed.
    HandleAlreadyUsed,
    /// The handle addresses the sentinel slot or a slot that does not exist.
    InvalidHandle,
    /// The slot has moved on to another generation than the handle records.
    GenerationMismatch,
}

impl DeferredMapError {
    /// The text that describes this error.
    pub open spec fn message_spec(self) -> Seq<char> {
        match self {
            DeferredMapError::HandleAlreadyUsed => "Handle has already been used"@,
            DeferredMapError::InvalidHandle => "Invalid handle"@,
            DeferredMapError::GenerationMismatch => "Generation mismatch"@,
        }
    }

    /// A human-readable description of the error.
    pub fn message(&self) -> (text: String)
        ensures
            text@ == self.message_spec(),
    {
        match self {
            DeferredMapError::HandleAlreadyUsed => "Handle has already been used".to_owned(),
            DeferredMapError::InvalidHandle => "Invalid handle".to_owned(),
            DeferredMapError::GenerationMismatch => "Generation mismatch".to_owned(),
        }
    }
}

/// Why a persisted slot or container was turned away on restore.
#[derive(Debug, Clone, Copy, PartialEq, Eq, Hash, Structural)]
pub enum SnapshotError {
    /// The generation field of a version word is zero.
    ZeroGeneration,
    /// The payload is that of a reserved slot. A reserved slot belongs to a
    /// handle that is still open and has no persisted form.
    ReservedSlot,
    /// The state bits of a version word disagree with the payload stored
    /// beside it.
    VersionContentMismatch,
    /// Slots, free-list head and element count are not the parts of one
    /// container: the sentinel is missing, a slot is reserved, the links do
    /// not spell a free list of all vacant slots, or the count is not that
    /// of the values.
    InconsistentContainer,
    /// The element count of a secondary map is not the number of its
    /// entries, or its storage is longer than slot indices reach.
    InconsistentEntries,
}

impl SnapshotError {
    /// The text that describes this error.
    pub open spec fn message_spec(self) -> Seq<char> {
        match self {
            SnapshotError::ZeroGeneration => "Slot version has no generation"@,
            SnapshotError::ReservedSlot => "Slot is reserved"@,
            SnapshotError::VersionContentMismatch => "Slot version and content mismatch"@,
            SnapshotError::InconsistentContainer => "Slots, free list and element count disagree"@,
            SnapshotError::InconsistentEntries => "Entries and element count disagree"@,
        }
    }

    /// A human-readable description of the error.
    pub fn message(&self) -> (text: String)
        ensures
            text@ == self.message_spec(),
    {
        match self {
            SnapshotError::ZeroGeneration => "Slot version has no generation".to_owned(),
            SnapshotError::ReservedSlot => "Slot is reserved".to_owned(),
            SnapshotError::VersionContentMismatch => "Slot version and content mismatch".to_owned(),
            SnapshotError::InconsistentContainer => "Slots, free list and element count disagree".to_owned(),
            SnapshotError::InconsistentEntries => "Entries and element count disagree".to_owned(),
        }
    }
}

} // verus!
