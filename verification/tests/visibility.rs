//! The visibility engine: neighbor counting, boundary exposure, enclosure,
//! and the effect of adding a block.

use voxel_world::block::{Block, BlockType, ChunkPos, RelPos};
use voxel_world::chunk::Chunk;

fn grass() -> Block {
    Block::new(BlockType::Grass)
}

/// Fills the cuboid `[x0, x1) x [y0, y1) x [z0, z1)` solid with grass.
fn fill_cuboid(c: &mut Chunk, x0: u8, x1: u8, y0: u8, y1: u8, z0: u8, z1: u8) {
    for x in x0..x1 {
        for y in y0..y1 {
            for z in z0..z1 {
                assert_eq!(c.place(RelPos { x, y, z }, grass()), Ok(()));
            }
        }
    }
}

#[test]
fn lone_block_has_no_neighbours_and_is_visible() {
    let mut c = Chunk::new(ChunkPos { x: 0, z: 0 });
    let p = RelPos { x: 8, y: 8, z: 8 };
    assert_eq!(c.place(p, grass()), Ok(()));
    assert_eq!(c.get_block_neighbours(p).len(), 0);
    assert!(c.is_block_visible(p));
}

#[test]
fn neighbours_count_occupied_in_range_cells_only() {
    let mut c = Chunk::new(ChunkPos { x: 0, z: 0 });
    let p = RelPos { x: 0, y: 0, z: 0 };
    assert_eq!(c.place(p, grass()), Ok(()));
    assert_eq!(c.place(RelPos { x: 1, y: 0, z: 0 }, grass()), Ok(()));
    assert_eq!(c.place(RelPos { x: 0, y: 1, z: 0 }, grass()), Ok(()));
    assert_eq!(c.place(RelPos { x: 1, y: 1, z: 1 }, grass()), Ok(()));
    // A block two cells away is no neighbor.
    assert_eq!(c.place(RelPos { x: 2, y: 0, z: 0 }, grass()), Ok(()));
    let n = c.get_block_neighbours(p);
    assert_eq!(n.len(), 3);
    assert!(n.contains(&RelPos { x: 1, y: 0, z: 0 }));
    assert!(n.contains(&RelPos { x: 0, y: 1, z: 0 }));
    assert!(n.contains(&RelPos { x: 1, y: 1, z: 1 }));
}

#[test]
fn center_of_solid_cube_has_26_neighbours_and_is_enclosed() {
    let mut c = Chunk::new(ChunkPos { x: 0, z: 0 });
    fill_cuboid(&mut c, 5, 8, 5, 8, 5, 8);
    let center = RelPos { x: 6, y: 6, z: 6 };
    assert_eq!(c.get_block_neighbours(center).len(), 26);
    assert!(!c.is_block_visible(center));
}

#[test]
fn every_face_block_of_solid_cube_is_visible() {
    let mut c = Chunk::new(ChunkPos { x: 0, z: 0 });
    fill_cuboid(&mut c, 5, 8, 5, 8, 5, 8);
    for x in 5..8u8 {
        for y in 5..8u8 {
            for z in 5..8u8 {
                let on_face = x == 5 || x == 7 || y == 5 || y == 7 || z == 5 || z == 7;
                let p = RelPos { x, y, z };
                assert_eq!(c.is_block_visible(p), on_face);
            }
        }
    }
}

#[test]
fn boundary_blocks_stay_visible_even_when_fully_surrounded_in_range() {
    let mut c = Chunk::new(ChunkPos { x: 0, z: 0 });
    // Surround (0, 8, 8) with every in-range neighbor; the cells beyond the
    // x = 0 face are out of range, so the block must stay visible.
    fill_cuboid(&mut c, 0, 2, 7, 10, 7, 10);
    let p = RelPos { x: 0, y: 8, z: 8 };
    assert_eq!(c.get_block_neighbours(p).len(), 17);
    assert!(c.is_block_visible(p));
    // The same holds on the far face.
    let mut c2 = Chunk::new(ChunkPos { x: 0, z: 0 });
    fill_cuboid(&mut c2, 14, 16, 7, 10, 7, 10);
    assert!(c2.is_block_visible(RelPos { x: 15, y: 8, z: 8 }));
}

#[test]
fn adding_a_block_only_narrows_exposure() {
    let mut c = Chunk::new(ChunkPos { x: 0, z: 0 });
    fill_cuboid(&mut c, 5, 8, 5, 8, 5, 8);
    let center = RelPos { x: 6, y: 6, z: 6 };
    let corner = RelPos { x: 7, y: 7, z: 7 };
    assert_eq!(c.remove(corner), Ok(grass()));
    // With one neighbor missing the center is exposed.
    assert!(c.is_block_visible(center));
    // Adding the block back encloses it again, and no block that was
    // enclosed before becomes visible.
    assert_eq!(c.place(corner, grass()), Ok(()));
    assert!(!c.is_block_visible(center));
}

#[test]
fn visibility_pass_reports_every_block_once_with_its_exposure() {
    let mut c = Chunk::new(ChunkPos { x: 0, z: 0 });
    fill_cuboid(&mut c, 5, 8, 5, 8, 5, 8);
    let report = c.update_visable_block_status();
    assert_eq!(report.len(), 27);
    for (p, vis) in &report {
        assert!(c.contains(*p));
        assert_eq!(*vis, c.is_block_visible(*p));
    }
    for i in 0..report.len() {
        for j in (i + 1)..report.len() {
            assert_ne!(report[i].0, report[j].0);
        }
    }
    let enclosed: Vec<&(RelPos, bool)> = report.iter().filter(|(_, v)| !v).collect();
    assert_eq!(enclosed.len(), 1);
    assert_eq!(enclosed[0].0, RelPos { x: 6, y: 6, z: 6 });
}
