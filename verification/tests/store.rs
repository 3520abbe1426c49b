//! The per-chunk voxel store: placement, lookup, removal, and its failures.

use voxel_world::block::{Block, BlockType, ChunkPos, RelPos};
use voxel_world::chunk::Chunk;
use voxel_world::error::VoxelError;

#[test]
fn block_new_carries_its_type() {
    let b = Block::new(BlockType::Grass);
    assert_eq!(b.block_type, BlockType::Grass);
}

#[test]
fn place_then_get_and_contains() {
    let mut c = Chunk::new(ChunkPos { x: 0, z: 0 });
    let p = RelPos { x: 3, y: 4, z: 5 };
    assert!(!c.contains(p));
    assert_eq!(c.get(p), None);
    assert_eq!(c.place(p, Block::new(BlockType::Grass)), Ok(()));
    assert!(c.contains(p));
    assert_eq!(c.get(p), Some(Block::new(BlockType::Grass)));
    assert!(!c.contains(RelPos { x: 3, y: 4, z: 6 }));
}

#[test]
fn place_at_occupied_position_fails_and_keeps_the_block() {
    let mut c = Chunk::new(ChunkPos { x: 2, z: -1 });
    let p = RelPos { x: 0, y: 0, z: 0 };
    assert_eq!(c.place(p, Block::new(BlockType::Grass)), Ok(()));
    assert_eq!(
        c.place(p, Block::new(BlockType::Grass)),
        Err(VoxelError::DuplicateVoxel)
    );
    assert_eq!(c.get(p), Some(Block::new(BlockType::Grass)));
}

#[test]
fn remove_returns_the_block_and_empties_the_cell() {
    let mut c = Chunk::new(ChunkPos { x: 0, z: 0 });
    let p = RelPos { x: 8, y: 200, z: 15 };
    assert_eq!(c.place(p, Block::new(BlockType::Grass)), Ok(()));
    assert_eq!(c.remove(p), Ok(Block::new(BlockType::Grass)));
    assert!(!c.contains(p));
    assert_eq!(c.remove(p), Err(VoxelError::VoxelNotFound));
}

#[test]
fn chunk_keeps_its_position() {
    let c = Chunk::new(ChunkPos { x: -7, z: 9 });
    let p = c.pos();
    assert_eq!((p.x, p.z), (-7, 9));
}

#[test]
fn error_descriptions_name_the_failure() {
    assert_eq!(
        VoxelError::DuplicateVoxel.describe(),
        "block already exists at this position"
    );
    assert_eq!(
        VoxelError::ChunkAlreadyExists.describe(),
        "chunk already exists at this position"
    );
    assert_eq!(
        VoxelError::VoxelNotFound.describe(),
        "no block at this position"
    );
}
