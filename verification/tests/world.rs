//! The world: flat-chunk generation, duplicate-chunk refusal, map loading.

use voxel_world::block::{Block, BlockType, ChunkPos, RelPos};
use voxel_world::chunk::Chunk;
use voxel_world::error::VoxelError;
use voxel_world::world::World;

#[test]
fn flat_chunk_places_512_blocks_all_visible() {
    let (chunk, report) = Chunk::generate_flat_chunk(ChunkPos { x: 0, z: 0 }, 2);
    let p = chunk.pos();
    assert_eq!((p.x, p.z), (0, 0));
    // Two full layers of 16 x 16 blocks.
    assert_eq!(report.len(), 512);
    for x in 0..16u8 {
        for z in 0..16u8 {
            for y in 0..2u8 {
                let p = RelPos { x, y, z };
                assert_eq!(chunk.get(p), Some(Block::new(BlockType::Grass)));
                assert!(chunk.is_block_visible(p));
            }
            assert!(!chunk.contains(RelPos { x, y: 2, z }));
        }
    }
    // At thickness two no block is ever buried: the whole report says
    // exposed.
    for (_, vis) in &report {
        assert!(*vis);
    }
}

#[test]
fn thick_flat_chunk_buries_its_interior() {
    let (chunk, report) = Chunk::generate_flat_chunk(ChunkPos { x: 1, z: 1 }, 4);
    assert_eq!(report.len(), 1024);
    for (p, vis) in &report {
        let interior = p.x > 0 && p.x < 15 && p.z > 0 && p.z < 15 && p.y > 0 && p.y < 3;
        assert_eq!(*vis, !interior);
        assert_eq!(*vis, chunk.is_block_visible(*p));
    }
}

#[test]
fn flat_chunk_of_thickness_zero_is_empty() {
    let (chunk, report) = Chunk::generate_flat_chunk(ChunkPos { x: -5, z: 0 }, 0);
    assert_eq!(report.len(), 0);
    assert!(!chunk.contains(RelPos { x: 0, y: 0, z: 0 }));
}

#[test]
fn full_height_flat_chunk_exposes_only_its_shell() {
    let (chunk, report) = Chunk::generate_flat_chunk(ChunkPos { x: 0, z: 0 }, 256);
    assert_eq!(report.len(), 65536);
    let mut shown = 0usize;
    for (p, vis) in &report {
        let interior =
            p.x > 0 && p.x < 15 && p.z > 0 && p.z < 15 && p.y > 0 && p.y < 255;
        assert_eq!(*vis, !interior);
        if *vis {
            shown += 1;
        }
    }
    // Everything but the 14 x 254 x 14 interior cuboid is on the shell.
    assert_eq!(shown, 65536 - 14 * 254 * 14);
    assert!(chunk.contains(RelPos {
        x: 15,
        y: 255,
        z: 15
    }));
}

#[test]
fn adding_a_chunk_twice_fails_and_keeps_the_first() {
    let mut w = World::new();
    let pos = ChunkPos { x: 3, z: -2 };
    let report = w.add_chunk(pos, 2).unwrap();
    assert_eq!(report.len(), 512);
    // Mark the first chunk so a silent overwrite would be caught.
    assert!(w.get_chunk(pos).is_some());
    let second = w.add_chunk(pos, 5);
    assert_eq!(second, Err(VoxelError::ChunkAlreadyExists));
    let kept = w.get_chunk(pos).unwrap();
    // Still the thickness-two chunk, not a thickness-five one.
    assert!(kept.contains(RelPos { x: 0, y: 1, z: 0 }));
    assert!(!kept.contains(RelPos { x: 0, y: 2, z: 0 }));
    let p = kept.pos();
    assert_eq!((p.x, p.z), (3, -2));
}

#[test]
fn empty_world_has_no_chunks() {
    let w = World::new();
    assert!(!w.contains_chunk(ChunkPos { x: 0, z: 0 }));
    assert!(w.get_chunk(ChunkPos { x: 0, z: 0 }).is_none());
}

#[test]
fn load_map_fills_exactly_the_grid() {
    let mut w = World::new();
    w.load_map(4, 4, 1);
    for x in 0..4 {
        for z in 0..4 {
            let pos = ChunkPos { x, z };
            assert!(w.contains_chunk(pos));
            let c = w.get_chunk(pos).unwrap();
            let p = c.pos();
            assert_eq!((p.x, p.z), (x, z));
            assert!(c.contains(RelPos { x: 5, y: 0, z: 5 }));
            assert!(!c.contains(RelPos { x: 5, y: 1, z: 5 }));
        }
    }
    assert!(!w.contains_chunk(ChunkPos { x: 4, z: 0 }));
    assert!(!w.contains_chunk(ChunkPos { x: 0, z: 4 }));
    assert!(!w.contains_chunk(ChunkPos { x: -1, z: 0 }));
}

#[test]
fn load_map_replaces_previous_contents() {
    let mut w = World::new();
    w.add_chunk(ChunkPos { x: 9, z: 9 }, 1).unwrap();
    w.load_map(2, 2, 1);
    assert!(!w.contains_chunk(ChunkPos { x: 9, z: 9 }));
    assert!(w.contains_chunk(ChunkPos { x: 1, z: 1 }));
}
