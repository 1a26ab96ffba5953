//! What can go wrong.

use vstd::prelude::*;

verus! {

/// The kinds of failure.
#[derive(Debug, Clone, Copy, PartialEq, Eq, Structural)]
pub enum TrashError {
    /// A path that was given does not exist.
    PathNotFound,
    /// A path could not be resolved, or has no directory above it or no name.
    PathResolutionError,
    /// The name that was chosen in the trash was taken when the move began.
    TrashCollision,
    /// The item could not be brought into the trash, by renaming or by
    /// copying, or the trash directory could not be laid out.
    MoveFailed,
    /// The `.trashinfo` file could not be written.
    MetadataWriteFailed,
    /// The size cache could not be brought up to date. The item is in the
    /// trash all the same.
    CacheUpdateFailed,
    /// The platform has no trash that the program knows.
    UnsupportedPlatform,
}

} // verus!
