//! Error kinds surfaced by the cache, the byte-range engine and the
//! directory-entry reader.

use vstd::prelude::*;

verus! {

/// An error of this core.
///
/// A lookup that finds no matching name is not an error: it is reported as an
/// empty `Option`.
#[derive(Clone, Copy, PartialEq, Eq, Structural, Debug)]
pub enum KError {
    /// Underlying storage failed during a page fill or a raw backend access.
    BackendIo,
    /// A logical directory entry could not be reconstructed: a malformed
    /// fragment chain or a checksum mismatch. Local to one entry; enumeration
    /// continues at the next record boundary.
    CorruptDirEntry,
    /// A capability was invoked on a node kind that does not support it.
    Unsupported,
}

/// Result type used throughout this core.
pub type KResult<T> = Result<T, KError>;

} // verus!
