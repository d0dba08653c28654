use vstd::prelude::*;

verus! {

/// How strongly a write is guaranteed to survive a crash.
#[derive(Clone, Copy, Debug, PartialEq, Eq, Structural)]
pub enum DurabilityLevel {
    /// No explicit flush was requested.
    Buffered,
    /// The data was handed to the backend's persistence layer.
    Flushed,
    /// The backend confirmed that the data is recoverable after a crash.
    Synced,
}

impl DurabilityLevel {
    /// The position of the level in the order Buffered < Flushed < Synced.
    pub open spec fn rank(self) -> nat {
        match self {
            DurabilityLevel::Buffered => 0,
            DurabilityLevel::Flushed => 1,
            DurabilityLevel::Synced => 2,
        }
    }

    /// Whether this level promises at least what `other` promises.
    pub fn at_least(self, other: DurabilityLevel) -> (r: bool)
        ensures
            r == (self.rank() >= other.rank()),
    {
        match (self, other) {
            (_, DurabilityLevel::Buffered) => true,
            (DurabilityLevel::Buffered, _) => false,
            (DurabilityLevel::Flushed, DurabilityLevel::Flushed) => true,
            (DurabilityLevel::Flushed, DurabilityLevel::Synced) => false,
            (DurabilityLevel::Synced, _) => true,
        }
    }
}

} // verus!
