//! The failures the core can report.

use vstd::prelude::*;

verus! {

/// Why a store or world operation failed.
#[derive(PartialEq, Eq, Structural, Clone, Copy, Debug)]
pub enum VoxelError {
    /// A block was placed at a relative position that is already occupied.
    /// Signals a generator bug: the store is never silently overwritten.
    DuplicateVoxel,
    /// A chunk was inserted at a chunk position that is already occupied.
    ChunkAlreadyExists,
    /// A block was removed from a relative position that holds none.
    VoxelNotFound,
}

impl VoxelError {
    /// A short description of the failure.
    pub fn describe(&self) -> (s: &'static str)
        ensures
            s@ == match self {
                VoxelError::DuplicateVoxel => "block already exists at this position"@,
                VoxelError::ChunkAlreadyExists => "chunk already exists at this position"@,
                VoxelError::VoxelNotFound => "no block at this position"@,
            },
    {
        match self {
            VoxelError::DuplicateVoxel => "block already exists at this position",
            VoxelError::ChunkAlreadyExists => "chunk already exists at this position",
            VoxelError::VoxelNotFound => "no block at this position",
        }
    }
}

} // verus!
