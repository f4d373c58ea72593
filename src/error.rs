use vstd::prelude::*;

verus! {

/// What can go wrong in the storage data path.
#[derive(Clone, Copy, Debug, PartialEq, Eq, Structural)]
pub enum StorageError {
    /// The device refused to take the operation; the native status code is kept.
    IoSubmission { code: i32 },
    /// The device took the operation and reported that it failed.
    IoCompletion,
    /// No device, pool or volume of that name.
    NotFound,
    /// A device, pool or volume of that name exists already.
    AlreadyExists,
    /// The device cannot be opened with the requested access.
    PermissionDenied,
    /// The pool cannot provision that many more bytes.
    CapacityExceeded,
    /// The pool still holds volumes.
    NotEmpty,
    /// The volume is exported and must be unshared first.
    InUse,
    /// The export layer failed to publish the volume.
    Export,
    /// The device address is not understood.
    InvalidUri,
}

} // verus!
