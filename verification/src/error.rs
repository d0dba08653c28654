use crate::backend::BackendKind;
use vstd::prelude::*;

verus! {

/// Everything that an operation of the interface can fail with.
#[derive(Clone, Copy, Debug, PartialEq, Eq, Structural)]
pub enum StorageError {
    /// The requested backend has no registered adapter.
    BackendUnavailable,
    /// The location does not exist and creation was not requested.
    NotFound,
    /// Another handle holds the location in a way that excludes this one.
    LocationBusy,
    /// The handle was closed before the operation.
    HandleClosed,
    /// The key is empty.
    InvalidKey,
    /// A mutation was attempted through a read-only handle.
    ReadOnlyViolation,
    /// An option of the configuration is not recognised.
    InvalidConfig,
    /// The named backend failed to read or write.
    IOFailure { backend: BackendKind },
    /// The named backend could not complete a flush or a sync.
    DurabilityFailure { backend: BackendKind },
}

impl StorageError {
    /// Whether the error was raised by the backend rather than by the
    /// interface's own checks.
    pub open spec fn from_backend(self) -> bool {
        self is IOFailure || self is DurabilityFailure
    }

    /// The backend that raised the error, if one did.
    pub fn backend(self) -> (r: Option<BackendKind>)
        ensures
            r == match self {
                StorageError::IOFailure { backend } => Some(backend),
                StorageError::DurabilityFailure { backend } => Some(backend),
                _ => None::<BackendKind>,
            },
    {
        match self {
            StorageError::IOFailure { backend } => Some(backend),
            StorageError::DurabilityFailure { backend } => Some(backend),
            _ => None,
        }
    }
}

} // verus!
