//! The data model: block types, blocks, and the three kinds of position.
//!
//! A chunk is a horizontal slab of `CHUNK_DIM x CHUNK_DIM` columns, each
//! `CHUNK_HEIGHT` blocks tall. Three coordinate systems address blocks:
//! - a `BlockPos` is an absolute position in the unbounded world grid;
//! - a `ChunkPos` identifies a chunk by its index on the two horizontal
//!   axes (the world is not chunked vertically);
//! - a `RelPos` is a block's position inside its owning chunk, bounded by
//!   the chunk's dimensions.

use vstd::prelude::*;

verus! {

/// Horizontal dimension of a chunk, in blocks.
pub const CHUNK_DIM: u8 = 16;

/// Vertical bound of the world, in blocks.
pub const CHUNK_HEIGHT: u16 = 256;

/// The material of a block. Carries no behavior.
#[derive(PartialEq, Eq, Structural, Clone, Copy, Debug)]
pub enum BlockType {
    Grass,
}

/// A unit cube of world material, carrying only its type.
#[derive(PartialEq, Eq, Structural, Clone, Copy, Debug)]
pub struct Block {
    pub block_type: BlockType,
}

impl Block {
    /// Makes a block of the given type.
    pub fn new(block_type: BlockType) -> (b: Block)
        ensures
            b.block_type == block_type,
    {
        Block { block_type }
    }
}

/// A chunk's index on the two horizontal axes. The second horizontal axis
/// is called `z`; the vertical axis `y` is never chunked.
#[derive(PartialEq, Eq, Structural, Clone, Copy, Debug)]
pub struct ChunkPos {
    pub x: i32,
    pub z: i32,
}

/// An absolute block position in the world grid, unbounded on every axis.
#[derive(PartialEq, Eq, Structural, Clone, Copy, Debug)]
pub struct BlockPos {
    pub x: i32,
    pub y: i32,
    pub z: i32,
}

/// A block's position inside its owning chunk: `x` and `z` range over
/// `[0, CHUNK_DIM)`, `y` over `[0, CHUNK_HEIGHT)`.
#[derive(PartialEq, Eq, Structural, Clone, Copy, Debug)]
pub struct RelPos {
    pub x: u8,
    pub y: u8,
    pub z: u8,
}

/// Whether `(x, y, z)` lies inside a chunk's valid relative range.
pub open spec fn rel_in_range(x: int, y: int, z: int) -> bool {
    &&& 0 <= x < CHUNK_DIM
    &&& 0 <= y < CHUNK_HEIGHT
    &&& 0 <= z < CHUNK_DIM
}

impl View for RelPos {
    type V = (int, int, int);

    /// The position as a triple of mathematical integers.
    open spec fn view(&self) -> (int, int, int) {
        (self.x as int, self.y as int, self.z as int)
    }
}

impl RelPos {
    /// A `RelPos` is valid when its components lie in the chunk's range.
    /// Every `u8` fits the vertical range, so only `x` and `z` constrain.
    pub open spec fn valid(self) -> bool {
        rel_in_range(self.x as int, self.y as int, self.z as int)
    }
}

} // verus!
