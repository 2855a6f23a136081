//! Errors reported by the runtime.
use vstd::prelude::*;

verus! {

/// Every way an operation of the runtime can fail.
#[derive(Clone, Copy, Debug, PartialEq, Eq, Structural)]
pub enum LoomError {
    /// Every slot of the store is taken.
    StoreFull,
    /// The id does not name an allocated node.
    OutOfRange,
    /// The persisted image holds a whole number of node slots, but not the requested number.
    CapacityMismatch,
    /// The persisted image does not hold a whole number of node slots.
    Malformed,
    /// No node carries the label, or no processor carries the id.
    NotFound,
    /// A processor was requested without members.
    EmptyMembers,
}

impl LoomError {
    /// True for the errors that only a larger capacity chosen up front can avoid.
    pub open spec fn is_capacity_error(self) -> bool {
        self == LoomError::StoreFull || self == LoomError::OutOfRange || self
            == LoomError::CapacityMismatch
    }

    /// Tells whether the error belongs to the capacity and range family.
    pub fn capacity_related(&self) -> (r: bool)
        ensures
            r == self.is_capacity_error(),
    {
        match self {
            LoomError::StoreFull => true,
            LoomError::OutOfRange => true,
            LoomError::CapacityMismatch => true,
            _ => false,
        }
    }

    /// A short human-readable description.
    pub fn message(&self) -> (r: &'static str)
        ensures
            r@ == match *self {
                LoomError::StoreFull => "store is full"@,
                LoomError::OutOfRange => "node id out of range"@,
                LoomError::CapacityMismatch => "capacity does not match the persisted image"@,
                LoomError::Malformed => "persisted image is malformed"@,
                LoomError::NotFound => "not found"@,
                LoomError::EmptyMembers => "processor without members"@,
            },
    {
        match self {
            LoomError::StoreFull => "store is full",
            LoomError::OutOfRange => "node id out of range",
            LoomError::CapacityMismatch => "capacity does not match the persisted image",
            LoomError::Malformed => "persisted image is malformed",
            LoomError::NotFound => "not found",
            LoomError::EmptyMembers => "processor without members",
        }
    }
}

} // verus!
