//! Coordinate conversions: floor semantics and the round trip.

use voxel_world::block::{BlockPos, ChunkPos, RelPos};
use voxel_world::chunk::Chunk;

#[test]
fn chunk_pos_uses_floor_division_for_negative_x() {
    let p = BlockPos {
        x: -1,
        y: 37,
        z: 0,
    };
    let c = Chunk::get_chunk_pos_at_block_pos(&p);
    assert_eq!(c.x, -1);
    assert_eq!(c.z, 0);
}

#[test]
fn chunk_pos_at_block_pos_exact_values() {
    let cases = [
        ((0, 0), (0, 0)),
        ((15, 15), (0, 0)),
        ((16, 15), (1, 0)),
        ((17, -17), (1, -2)),
        ((-16, 31), (-1, 1)),
        ((-17, -1), (-2, -1)),
    ];
    for ((wx, wz), (cx, cz)) in cases {
        let c = Chunk::get_chunk_pos_at_block_pos(&BlockPos { x: wx, y: 0, z: wz });
        assert_eq!((c.x, c.z), (cx, cz));
    }
}

#[test]
fn relative_pos_at_block_pos_exact_values() {
    let (c, r) = Chunk::get_block_relative_pos_at_block_pos(&BlockPos {
        x: 17,
        y: 5,
        z: -17,
    });
    assert_eq!((c.x, c.z), (1, -2));
    assert_eq!((r.x, r.y, r.z), (1, 5, 15));
}

#[test]
fn world_pos_from_chunk_and_rel_exact_values() {
    let w = Chunk::get_block_pos_from_chunk_and_rel_pos(
        &ChunkPos { x: -2, z: 1 },
        &RelPos { x: 15, y: 7, z: 0 },
    );
    assert_eq!((w.x, w.y, w.z), (-17, 7, 16));
}

#[test]
fn round_trip_holds_for_negative_and_positive_chunks() {
    let chunks = [(-3, 4), (0, 0), (7, -1), (-1, -1), (100, -250)];
    let rels = [(0, 0, 0), (15, 255, 15), (1, 128, 14), (9, 3, 0)];
    for (cx, cz) in chunks {
        for (rx, ry, rz) in rels {
            let cp = ChunkPos { x: cx, z: cz };
            let rp = RelPos {
                x: rx,
                y: ry,
                z: rz,
            };
            let w = Chunk::get_block_pos_from_chunk_and_rel_pos(&cp, &rp);
            let (cp2, rp2) = Chunk::get_block_relative_pos_at_block_pos(&w);
            assert_eq!((cp2.x, cp2.z), (cx, cz));
            assert_eq!((rp2.x, rp2.y, rp2.z), (rx, ry, rz));
        }
    }
}
