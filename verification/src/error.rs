//! Errors of the locked-memory layer.

use vstd::prelude::*;

verus! {

/// Why an operation on a locked memory failed.
#[derive(Clone, Copy, PartialEq, Eq, Structural, Debug)]
pub enum MemoryError {
    /// A locked memory of size zero was asked for.
    ZeroSizedNotAllowed,
    /// The operating system refused to pin the memory.
    AllocationFailed,
    /// The backing store failed, or holds something else than was written.
    FileSystemError,
}

/// Why an operation of the engine failed.
#[derive(Clone, Copy, PartialEq, Eq, Structural, Debug)]
pub enum EngineError {
    /// A locked memory failed.
    Memory(MemoryError),
    /// A snapshot or a record could not be authenticated or decoded.
    DecryptionFailed,
    /// A snapshot is of another version of the format.
    VersionMismatch,
    /// No client has this identifier.
    ClientNotFound,
    /// A client with this identifier is there already.
    ClientAlreadyExists,
    /// The client has no vault with this path.
    VaultNotFound,
    /// The vault has no record at this location.
    RecordNotFound,
    /// An argument is not acceptable: a payload too long to be encrypted, a
    /// key of the wrong length, or two snapshot paths that are the same.
    InvalidArgument,
    /// A procedure rejected its inputs; the number tells which kind of
    /// procedure it was.
    ProcedureFailed(u32),
}

} // verus!
