//! A chunk: a fixed-size slab of blocks with a dense per-position store,
//! the coordinate conversions, and the per-chunk visibility computation.
//!
//! The store maps every valid relative position to an optional block. It is
//! held as a flat array indexed by `x + z * CHUNK_DIM + y * CHUNK_DIM^2`;
//! its mathematical model, the chunk's view, is the partial map from
//! occupied relative positions (as integer triples) to blocks.

use vstd::arithmetic::div_mod::{
    lemma_fundamental_div_mod, lemma_fundamental_div_mod_converse,
    lemma_mod_division_less_than_divisor,
};
use vstd::prelude::*;

use crate::block::{rel_in_range, Block, BlockPos, BlockType, ChunkPos, RelPos, CHUNK_DIM, CHUNK_HEIGHT};
use crate::error::VoxelError;
use crate::visibility::{
    box_index, cand_dx, cand_dy, cand_dz, cand_rel, count_covered, covered, covered_cand, enclosed,
    exposed, is_neighbor, is_visibility_report, lemma_cand_compose, lemma_cand_decompose,
    lemma_count_covered_props, lemma_enclosed_iff_all_cand, Occupancy, CENTER,
};

verus! {

/// Number of cells in one chunk: `CHUNK_DIM * CHUNK_DIM * CHUNK_HEIGHT`.
pub const CHUNK_VOLUME: usize = 65536;

/// The dense store index of the relative position `(x, y, z)`.
pub open spec fn spec_idx(x: int, y: int, z: int) -> int {
    x + z * (CHUNK_DIM as int) + y * (CHUNK_DIM as int) * (CHUNK_DIM as int)
}

/// The dense store index of a relative position value.
pub open spec fn pos_idx(q: RelPos) -> int {
    spec_idx(q@.0, q@.1, q@.2)
}

/// Whether `c` is a chunk at `pos` holding a solid grass fill of the given
/// thickness: exactly the relative positions with `y < thickness` are
/// occupied, every one by a grass block.
pub open spec fn is_flat_grass_chunk(c: Chunk, pos: ChunkPos, thickness: int) -> bool {
    &&& c.wf()
    &&& c.spec_pos() == pos
    &&& forall|qx: int, qy: int, qz: int|
        #[trigger] c@.dom().contains((qx, qy, qz)) <==> (0 <= qx < CHUNK_DIM && 0 <= qy < thickness
            && 0 <= qz < CHUNK_DIM)
    &&& forall|qx: int, qy: int, qz: int|
        #[trigger] c@.dom().contains((qx, qy, qz)) ==> c@[(qx, qy, qz)] == (Block {
            block_type: BlockType::Grass,
        })
}

/// A flat fill of thickness at most two never buries a block: every block
/// in such a chunk is exposed, because a block on the bottom layer has an
/// out-of-range cell below it and a block on the layer above has an empty
/// cell above it.
pub proof fn lemma_thin_flat_chunk_all_exposed(
    c: Chunk,
    pos: ChunkPos,
    thickness: int,
    x: int,
    y: int,
    z: int,
)
    requires
        is_flat_grass_chunk(c, pos, thickness),
        thickness <= 2,
        c@.dom().contains((x, y, z)),
    ensures
        exposed(c@, x, y, z),
{
    if y == 0 {
        assert(!rel_in_range(x, y - 1, z));
    } else {
        assert(!c@.dom().contains((x, y + 1, z)));
    }
}

/// The chunk index owning world axis coordinate `w`: floor division by the
/// chunk dimension. Floor, not truncation toward zero — a world coordinate
/// of `-1` belongs to chunk `-1`, never to chunk `0`.
pub open spec fn spec_chunk_axis(w: int) -> int {
    w / (CHUNK_DIM as int)
}

/// The offset of world axis coordinate `w` from its owning chunk's origin.
pub open spec fn spec_rel_axis(w: int) -> int {
    w % (CHUNK_DIM as int)
}

/// The world axis coordinate of offset `r` inside chunk index `c`.
pub open spec fn spec_world_axis(c: int, r: int) -> int {
    c * (CHUNK_DIM as int) + r
}

/// Whether every block of chunk index `c` has a representable world
/// coordinate on that axis.
pub open spec fn chunk_axis_representable(c: int) -> bool {
    &&& i32::MIN <= c * (CHUNK_DIM as int)
    &&& c * (CHUNK_DIM as int) + (CHUNK_DIM as int) - 1 <= i32::MAX
}

/// Round trip law: taking a chunk position and a valid relative position to
/// the world position they name and back yields the original pair. Each
/// horizontal axis goes through floor division and remainder; the vertical
/// axis is carried unchanged by both conversions.
pub proof fn lemma_round_trip(cx: int, cz: int, rx: int, ry: int, rz: int)
    requires
        rel_in_range(rx, ry, rz),
    ensures
        spec_chunk_axis(spec_world_axis(cx, rx)) == cx,
        spec_rel_axis(spec_world_axis(cx, rx)) == rx,
        spec_chunk_axis(spec_world_axis(cz, rz)) == cz,
        spec_rel_axis(spec_world_axis(cz, rz)) == rz,
{
    lemma_fundamental_div_mod_converse(spec_world_axis(cx, rx), CHUNK_DIM as int, cx, rx);
    lemma_fundamental_div_mod_converse(spec_world_axis(cz, rz), CHUNK_DIM as int, cz, rz);
}

/// A fixed-size slab of blocks at a chunk position. The store owns its
/// blocks exclusively; positions are relative to the chunk.
pub struct Chunk {
    pos: ChunkPos,
    blocks: Vec<Option<Block>>,
}

impl View for Chunk {
    type V = Occupancy;

    /// The chunk's contents: the partial map from occupied relative
    /// positions, as integer triples, to the blocks they hold.
    closed spec fn view(&self) -> Occupancy {
        Map::new(
            |p: (int, int, int)|
                rel_in_range(p.0, p.1, p.2) && self.blocks@[spec_idx(p.0, p.1, p.2)] is Some,
            |p: (int, int, int)| self.blocks@[spec_idx(p.0, p.1, p.2)]->0,
        )
    }
}

impl Chunk {
    /// The store holds exactly one cell per valid relative position.
    pub closed spec fn wf(self) -> bool {
        self.blocks@.len() == CHUNK_VOLUME
    }

    /// Where this chunk sits in the grid of chunks.
    pub closed spec fn spec_pos(self) -> ChunkPos {
        self.pos
    }

    /// Where this chunk sits in the grid of chunks.
    pub fn pos(&self) -> (p: ChunkPos)
        ensures
            p == self.spec_pos(),
    {
        self.pos
    }

    /// The exec counterpart of `spec_idx`.
    fn rel_idx(pos: RelPos) -> (i: usize)
        requires
            pos.valid(),
        ensures
            i == spec_idx(pos@.0, pos@.1, pos@.2),
            i < CHUNK_VOLUME,
    {
        pos.x as usize + pos.z as usize * CHUNK_DIM as usize + pos.y as usize * CHUNK_DIM as usize
            * CHUNK_DIM as usize
    }

    /// Makes an empty chunk at the given chunk position.
    pub fn new(pos: ChunkPos) -> (c: Chunk)
        ensures
            c.wf(),
            c.spec_pos() == pos,
            c@ == Map::<(int, int, int), Block>::empty(),
    {
        let mut blocks: Vec<Option<Block>> = Vec::new();
        while blocks.len() < CHUNK_VOLUME
            invariant
                blocks@.len() <= CHUNK_VOLUME,
                forall|i: int| 0 <= i < blocks@.len() ==> blocks@[i] is None,
            decreases CHUNK_VOLUME - blocks@.len(),
        {
            blocks.push(None);
        }
        let c = Chunk { pos, blocks };
        proof {
            assert(c@ =~= Map::<(int, int, int), Block>::empty());
        }
        c
    }

    /// Whether the store holds a block at `pos`.
    pub fn contains(&self, pos: RelPos) -> (r: bool)
        requires
            self.wf(),
            pos.valid(),
        ensures
            r == self@.dom().contains(pos@),
    {
        let i = Self::rel_idx(pos);
        self.blocks[i].is_some()
    }

    /// The block at `pos`, if any.
    pub fn get(&self, pos: RelPos) -> (r: Option<Block>)
        requires
            self.wf(),
            pos.valid(),
        ensures
            match r {
                Some(b) => self@.dom().contains(pos@) && self@[pos@] == b,
                None => !self@.dom().contains(pos@),
            },
    {
        let i = Self::rel_idx(pos);
        self.blocks[i]
    }

    /// Inserts a block at a position known to be free.
    fn place_new(&mut self, pos: RelPos, block: Block)
        requires
            old(self).wf(),
            pos.valid(),
            !old(self)@.dom().contains(pos@),
        ensures
            final(self).wf(),
            final(self).spec_pos() == old(self).spec_pos(),
            final(self)@ == old(self)@.insert(pos@, block),
    {
        let i = Self::rel_idx(pos);
        self.blocks[i] = Some(block);
        proof {
            assert(self@ =~= old(self)@.insert(pos@, block));
        }
    }

    /// Places a block at `pos`. Fails with `DuplicateVoxel`, leaving the
    /// chunk unchanged, exactly when the position is already occupied: the
    /// store never silently overwrites a block.
    pub fn place(&mut self, pos: RelPos, block: Block) -> (r: Result<(), VoxelError>)
        requires
            old(self).wf(),
            pos.valid(),
        ensures
            final(self).wf(),
            final(self).spec_pos() == old(self).spec_pos(),
            match r {
                Ok(()) => !old(self)@.dom().contains(pos@) && final(self)@ == old(self)@.insert(
                    pos@,
                    block,
                ),
                Err(e) => e == VoxelError::DuplicateVoxel && old(self)@.dom().contains(pos@)
                    && final(self)@ == old(self)@,
            },
    {
        if self.contains(pos) {
            Err(VoxelError::DuplicateVoxel)
        } else {
            self.place_new(pos, block);
            Ok(())
        }
    }

    /// Removes and returns the block at `pos`. Fails with `VoxelNotFound`,
    /// leaving the chunk unchanged, exactly when the position is empty.
    pub fn remove(&mut self, pos: RelPos) -> (r: Result<Block, VoxelError>)
        requires
            old(self).wf(),
            pos.valid(),
        ensures
            final(self).wf(),
            final(self).spec_pos() == old(self).spec_pos(),
            match r {
                Ok(b) => old(self)@.dom().contains(pos@) && b == old(self)@[pos@] && final(self)@
                    == old(self)@.remove(pos@),
                Err(e) => e == VoxelError::VoxelNotFound && !old(self)@.dom().contains(pos@)
                    && final(self)@ == old(self)@,
            },
    {
        let i = Self::rel_idx(pos);
        let cur = self.blocks[i];
        match cur {
            Some(b) => {
                self.blocks[i] = None;
                proof {
                    assert(self@ =~= old(self)@.remove(pos@));
                }
                Ok(b)
            },
            None => Err(VoxelError::VoxelNotFound),
        }
    }

    /// The neighbors of `pos` that count against its exposure: the cells of
    /// its 26-neighborhood that lie inside the chunk's valid range and hold
    /// a block. The result lists each such position exactly once, and has
    /// all 26 entries exactly when the block at `pos` is enclosed.
    pub fn get_block_neighbours(&self, pos: RelPos) -> (r: Vec<RelPos>)
        requires
            self.wf(),
            pos.valid(),
        ensures
            forall|i: int|
                0 <= i < r@.len() ==> {
                    let q = #[trigger] r@[i];
                    &&& q.valid()
                    &&& self@.dom().contains(q@)
                    &&& is_neighbor(pos@.0, pos@.1, pos@.2, q@.0, q@.1, q@.2)
                },
            forall|i1: int, i2: int| 0 <= i1 < i2 < r@.len() ==> r@[i1] != r@[i2],
            forall|qx: int, qy: int, qz: int|
                is_neighbor(pos@.0, pos@.1, pos@.2, qx, qy, qz) && #[trigger] covered(
                    self@,
                    qx,
                    qy,
                    qz,
                ) ==> r@.contains(RelPos { x: qx as u8, y: qy as u8, z: qz as u8 }),
            r@.len() == 26 <==> enclosed(self@, pos@.0, pos@.1, pos@.2),
    {
        let ghost px = pos@.0;
        let ghost py = pos@.1;
        let ghost pz = pos@.2;
        let mut out: Vec<RelPos> = Vec::new();
        let mut k: u8 = 0;
        while k < 27
            invariant
                self.wf(),
                pos.valid(),
                px == pos@.0 && py == pos@.1 && pz == pos@.2,
                k <= 27,
                out@.len() == count_covered(self@, px, py, pz, k as int),
                forall|i: int|
                    0 <= i < out@.len() ==> {
                        let q = #[trigger] out@[i];
                        &&& q.valid()
                        &&& self@.dom().contains(q@)
                        &&& is_neighbor(px, py, pz, q@.0, q@.1, q@.2)
                    },
                forall|i: int|
                    0 <= i < out@.len() ==> #[trigger] box_index(px, py, pz, out@[i]) < k as int,
                forall|i1: int, i2: int| 0 <= i1 < i2 < out@.len() ==> out@[i1] != out@[i2],
                forall|j: int|
                    0 <= j < k as int && j != CENTER && #[trigger] covered_cand(
                        self@,
                        px,
                        py,
                        pz,
                        j,
                    ) ==> out@.contains(cand_rel(px, py, pz, j)),
            decreases 27 - k,
        {
            if k != CENTER {
                let a = k / 9;
                let rem = k % 9;
                let b = rem / 3;
                let c = rem % 3;
                proof {
                    lemma_cand_decompose(k as int);
                }
                let nx = pos.x as i32 + a as i32 - 1;
                let ny = pos.y as i32 + b as i32 - 1;
                let nz = pos.z as i32 + c as i32 - 1;
                if nx >= 0 && nx < CHUNK_DIM as i32 && ny >= 0 && ny < CHUNK_HEIGHT as i32 && nz
                    >= 0 && nz < CHUNK_DIM as i32 {
                    let q = RelPos { x: nx as u8, y: ny as u8, z: nz as u8 };
                    if self.contains(q) {
                        let ghost old_out = out@;
                        out.push(q);
                        proof {
                            assert(q == cand_rel(px, py, pz, k as int));
                            assert(covered_cand(self@, px, py, pz, k as int));
                            assert(box_index(px, py, pz, q) == k as int);
                            assert forall|j: int|
                                0 <= j < k as int + 1 && j != CENTER && #[trigger] covered_cand(
                                    self@,
                                    px,
                                    py,
                                    pz,
                                    j,
                                ) implies out@.contains(cand_rel(px, py, pz, j)) by {
                                if j < k as int {
                                    let w = choose|i: int|
                                        0 <= i < old_out.len() && old_out[i] == cand_rel(
                                            px,
                                            py,
                                            pz,
                                            j,
                                        );
                                    assert(out@[w] == cand_rel(px, py, pz, j));
                                } else {
                                    assert(out@[out@.len() - 1] == q);
                                }
                            }
                        }
                    } else {
                        proof {
                            assert(!covered_cand(self@, px, py, pz, k as int));
                        }
                    }
                } else {
                    proof {
                        assert(!rel_in_range(px + cand_dx(k as int), py + cand_dy(k as int), pz
                            + cand_dz(k as int)));
                        assert(!covered_cand(self@, px, py, pz, k as int));
                    }
                }
            }
            proof {
                assert(count_covered(self@, px, py, pz, k as int + 1) == count_covered(
                    self@,
                    px,
                    py,
                    pz,
                    k as int,
                ) + if k as int != CENTER && covered_cand(self@, px, py, pz, k as int) {
                    1int
                } else {
                    0int
                });
            }
            k = k + 1;
        }
        proof {
            lemma_count_covered_props(self@, px, py, pz, 27);
            lemma_enclosed_iff_all_cand(self@, px, py, pz);
            assert forall|qx: int, qy: int, qz: int|
                is_neighbor(px, py, pz, qx, qy, qz) && #[trigger] covered(
                    self@,
                    qx,
                    qy,
                    qz,
                ) implies out@.contains(RelPos { x: qx as u8, y: qy as u8, z: qz as u8 }) by {
                let dx = qx - px;
                let dy = qy - py;
                let dz = qz - pz;
                lemma_cand_compose(dx, dy, dz);
                let j = 9 * (dx + 1) + 3 * (dy + 1) + (dz + 1);
                assert(covered_cand(self@, px, py, pz, j));
                assert(out@.contains(cand_rel(px, py, pz, j)));
                assert(cand_rel(px, py, pz, j) == (RelPos {
                    x: qx as u8,
                    y: qy as u8,
                    z: qz as u8,
                }));
            }
        }
        out
    }

    /// Whether the block at `pos` is visually exposed: true unless all 26
    /// neighboring cells are inside the chunk's range and occupied. A block
    /// on the chunk's boundary is always exposed, because the cells beyond
    /// the boundary are out of range and never counted.
    pub fn is_block_visible(&self, pos: RelPos) -> (r: bool)
        requires
            self.wf(),
            pos.valid(),
        ensures
            r == exposed(self@, pos@.0, pos@.1, pos@.2),
    {
        self.get_block_neighbours(pos).len() != 26
    }

    /// Runs a full visibility pass: classifies every block in the chunk as
    /// exposed or enclosed. The result lists every occupied position exactly
    /// once, paired with its exposure, for the caller to show or hide each
    /// block's visual representation.
    #[verifier::rlimit(60)]
    pub fn update_visable_block_status(&self) -> (r: Vec<(RelPos, bool)>)
        requires
            self.wf(),
        ensures
            is_visibility_report(self@, r@),
    {
        let mut out: Vec<(RelPos, bool)> = Vec::new();
        let mut y: u16 = 0;
        while y < CHUNK_HEIGHT
            invariant
                self.wf(),
                y <= CHUNK_HEIGHT,
                forall|i: int|
                    0 <= i < out@.len() ==> {
                        let (q, v) = #[trigger] out@[i];
                        &&& q.valid()
                        &&& self@.dom().contains(q@)
                        &&& v == exposed(self@, q@.0, q@.1, q@.2)
                    },
                forall|i: int|
                    0 <= i < out@.len() ==> #[trigger] pos_idx(out@[i].0) < 256 * y as int,
                forall|i1: int, i2: int|
                    0 <= i1 < i2 < out@.len() ==> pos_idx(out@[i1].0) < pos_idx(out@[i2].0),
                forall|qx: int, qy: int, qz: int|
                    #[trigger] self@.dom().contains((qx, qy, qz)) && qy < y as int ==> exists|
                        i: int,
                    |
                        0 <= i < out@.len() && out@[i].0 == (RelPos {
                            x: qx as u8,
                            y: qy as u8,
                            z: qz as u8,
                        }),
            decreases CHUNK_HEIGHT - y,
        {
            let mut z: u8 = 0;
            while z < CHUNK_DIM
                invariant
                    self.wf(),
                    y < CHUNK_HEIGHT,
                    z <= CHUNK_DIM,
                    forall|i: int|
                        0 <= i < out@.len() ==> {
                            let (q, v) = #[trigger] out@[i];
                            &&& q.valid()
                            &&& self@.dom().contains(q@)
                            &&& v == exposed(self@, q@.0, q@.1, q@.2)
                        },
                    forall|i: int|
                        0 <= i < out@.len() ==> #[trigger] pos_idx(out@[i].0) < 256 * y as int + 16
                            * z as int,
                    forall|i1: int, i2: int|
                        0 <= i1 < i2 < out@.len() ==> pos_idx(out@[i1].0) < pos_idx(out@[i2].0),
                    forall|qx: int, qy: int, qz: int|
                        #[trigger] self@.dom().contains((qx, qy, qz)) && (qy < y as int || (qy == y
                            as int && qz < z as int)) ==> exists|i: int|
                            0 <= i < out@.len() && out@[i].0 == (RelPos {
                                x: qx as u8,
                                y: qy as u8,
                                z: qz as u8,
                            }),
                decreases CHUNK_DIM - z,
            {
                let mut x: u8 = 0;
                while x < CHUNK_DIM
                    invariant
                        self.wf(),
                        y < CHUNK_HEIGHT,
                        z < CHUNK_DIM,
                        x <= CHUNK_DIM,
                        forall|i: int|
                            0 <= i < out@.len() ==> {
                                let (q, v) = #[trigger] out@[i];
                                &&& q.valid()
                                &&& self@.dom().contains(q@)
                                &&& v == exposed(self@, q@.0, q@.1, q@.2)
                            },
                        forall|i: int|
                            0 <= i < out@.len() ==> #[trigger] pos_idx(out@[i].0) < 256 * y as int
                                + 16 * z as int + x as int,
                        forall|i1: int, i2: int|
                            0 <= i1 < i2 < out@.len() ==> pos_idx(out@[i1].0) < pos_idx(
                                out@[i2].0,
                            ),
                        forall|qx: int, qy: int, qz: int|
                            #[trigger] self@.dom().contains((qx, qy, qz)) && (qy < y as int || (qy
                                == y as int && qz < z as int) || (qy == y as int && qz == z as int
                                && qx < x as int)) ==> exists|i: int|
                                0 <= i < out@.len() && out@[i].0 == (RelPos {
                                    x: qx as u8,
                                    y: qy as u8,
                                    z: qz as u8,
                                }),
                    decreases CHUNK_DIM - x,
                {
                    let p = RelPos { x, y: y as u8, z };
                    let ghost prev = out@;
                    if self.contains(p) {
                        let vis = self.is_block_visible(p);
                        out.push((p, vis));
                    }
                    proof {
                        assert forall|qx: int, qy: int, qz: int|
                            #[trigger] self@.dom().contains((qx, qy, qz)) && (qy < y as int || (qy
                                == y as int && qz < z as int) || (qy == y as int && qz == z as int
                                && qx < x as int + 1)) implies exists|i: int|
                            0 <= i < out@.len() && out@[i].0 == (RelPos {
                                x: qx as u8,
                                y: qy as u8,
                                z: qz as u8,
                            }) by {
                            if qy == y as int && qz == z as int && qx == x as int {
                                assert(out@[out@.len() - 1].0 == p);
                            } else {
                                let w = choose|i: int|
                                    0 <= i < prev.len() && prev[i].0 == (RelPos {
                                        x: qx as u8,
                                        y: qy as u8,
                                        z: qz as u8,
                                    });
                                assert(out@[w].0 == (RelPos {
                                    x: qx as u8,
                                    y: qy as u8,
                                    z: qz as u8,
                                }));
                            }
                        }
                    }
                    x = x + 1;
                }
                z = z + 1;
            }
            y = y + 1;
        }
        out
    }

    /// Creates a chunk at `pos` and fills its bottom `thickness` layers
    /// solid with grass: every relative position with `y < thickness` holds
    /// a block, and no other position does. A full visibility pass then
    /// classifies every placed block, once, after the fill completes; the
    /// pass is returned alongside the chunk.
    pub fn generate_flat_chunk(pos: ChunkPos, thickness: u16) -> (r: (Chunk, Vec<(RelPos, bool)>))
        requires
            thickness <= CHUNK_HEIGHT,
        ensures
            is_flat_grass_chunk(r.0, pos, thickness as int),
            is_visibility_report(r.0@, r.1@),
    {
        let mut chunk = Chunk::new(pos);
        let mut x: u8 = 0;
        while x < CHUNK_DIM
            invariant
                chunk.wf(),
                chunk.spec_pos() == pos,
                thickness <= CHUNK_HEIGHT,
                x <= CHUNK_DIM,
                forall|qx: int, qy: int, qz: int|
                    #[trigger] chunk@.dom().contains((qx, qy, qz)) <==> (0 <= qy < thickness && 0
                        <= qz < CHUNK_DIM && 0 <= qx < x as int),
                forall|qx: int, qy: int, qz: int|
                    #[trigger] chunk@.dom().contains((qx, qy, qz)) ==> chunk@[(qx, qy, qz)]
                        == (Block { block_type: BlockType::Grass }),
            decreases CHUNK_DIM - x,
        {
            let mut y: u16 = 0;
            while y < thickness
                invariant
                    chunk.wf(),
                    chunk.spec_pos() == pos,
                    thickness <= CHUNK_HEIGHT,
                    x < CHUNK_DIM,
                    y <= thickness,
                    forall|qx: int, qy: int, qz: int|
                        #[trigger] chunk@.dom().contains((qx, qy, qz)) <==> (0 <= qy < thickness
                            && 0 <= qz < CHUNK_DIM && 0 <= qx < x as int) || (qx == x as int && 0
                            <= qz < CHUNK_DIM && 0 <= qy < y as int),
                    forall|qx: int, qy: int, qz: int|
                        #[trigger] chunk@.dom().contains((qx, qy, qz)) ==> chunk@[(qx, qy, qz)]
                            == (Block { block_type: BlockType::Grass }),
                decreases thickness - y,
            {
                let mut z: u8 = 0;
                while z < CHUNK_DIM
                    invariant
                        chunk.wf(),
                        chunk.spec_pos() == pos,
                        thickness <= CHUNK_HEIGHT,
                        x < CHUNK_DIM,
                        y < thickness,
                        z <= CHUNK_DIM,
                        forall|qx: int, qy: int, qz: int|
                            #[trigger] chunk@.dom().contains((qx, qy, qz)) <==> (0 <= qy
                                < thickness && 0 <= qz < CHUNK_DIM && 0 <= qx < x as int) || (qx
                                == x as int && 0 <= qz < CHUNK_DIM && 0 <= qy < y as int) || (qx
                                == x as int && qy == y as int && 0 <= qz < z as int),
                        forall|qx: int, qy: int, qz: int|
                            #[trigger] chunk@.dom().contains((qx, qy, qz)) ==> chunk@[(qx, qy, qz)]
                                == (Block { block_type: BlockType::Grass }),
                    decreases CHUNK_DIM - z,
                {
                    let p = RelPos { x, y: y as u8, z };
                    chunk.place_new(p, Block { block_type: BlockType::Grass });
                    z = z + 1;
                }
                y = y + 1;
            }
            x = x + 1;
        }
        let report = chunk.update_visable_block_status();
        let ghost gchunk = chunk;
        let ghost greport = report@;
        let r = (chunk, report);
        proof {
            assert(r.0 == gchunk);
            assert(r.1@ == greport);
            assert(is_flat_grass_chunk(r.0, pos, thickness as int));
            assert(is_visibility_report(r.0@, r.1@));
        }
        r
    }

    /// Floor division of a world axis coordinate by the chunk dimension.
    fn floor_div_dim(w: i32) -> (q: i32)
        ensures
            q as int == spec_chunk_axis(w as int),
    {
        proof {
            lemma_fundamental_div_mod(w as int, CHUNK_DIM as int);
            lemma_mod_division_less_than_divisor(w as int, CHUNK_DIM as int);
        }
        w.checked_div_euclid(CHUNK_DIM as i32).unwrap()
    }

    /// The chunk position owning the block at world position `pos`: floor
    /// division of the two horizontal axes by the chunk dimension. The
    /// vertical axis is never chunked.
    pub fn get_chunk_pos_at_block_pos(pos: &BlockPos) -> (r: ChunkPos)
        ensures
            r.x as int == spec_chunk_axis(pos.x as int),
            r.z as int == spec_chunk_axis(pos.z as int),
    {
        ChunkPos { x: Self::floor_div_dim(pos.x), z: Self::floor_div_dim(pos.z) }
    }

    /// The owning chunk position and the in-chunk relative position of the
    /// block at world position `pos`. The relative `x` and `z` are the
    /// offsets from the chunk's origin; the world `y` is carried unchanged.
    pub fn get_block_relative_pos_at_block_pos(pos: &BlockPos) -> (r: (ChunkPos, RelPos))
        requires
            0 <= pos.y < CHUNK_HEIGHT,
        ensures
            r.0.x as int == spec_chunk_axis(pos.x as int),
            r.0.z as int == spec_chunk_axis(pos.z as int),
            r.1@ == (spec_rel_axis(pos.x as int), pos.y as int, spec_rel_axis(pos.z as int)),
            r.1.valid(),
    {
        let chunk_pos = Self::get_chunk_pos_at_block_pos(pos);
        proof {
            lemma_fundamental_div_mod(pos.x as int, CHUNK_DIM as int);
            lemma_mod_division_less_than_divisor(pos.x as int, CHUNK_DIM as int);
            lemma_fundamental_div_mod(pos.z as int, CHUNK_DIM as int);
            lemma_mod_division_less_than_divisor(pos.z as int, CHUNK_DIM as int);
            assert(chunk_pos.x as int * (CHUNK_DIM as int) == pos.x as int - spec_rel_axis(
                pos.x as int,
            ));
            assert(chunk_pos.z as int * (CHUNK_DIM as int) == pos.z as int - spec_rel_axis(
                pos.z as int,
            ));
        }
        let rx = pos.x - chunk_pos.x * CHUNK_DIM as i32;
        let rz = pos.z - chunk_pos.z * CHUNK_DIM as i32;
        (chunk_pos, RelPos { x: rx as u8, y: pos.y as u8, z: rz as u8 })
    }

    /// The world position of the block at relative position `block_rel_pos`
    /// inside the chunk at `chunk_pos`: the inverse of
    /// `get_block_relative_pos_at_block_pos` on valid relative positions.
    pub fn get_block_pos_from_chunk_and_rel_pos(
        chunk_pos: &ChunkPos,
        block_rel_pos: &RelPos,
    ) -> (r: BlockPos)
        requires
            block_rel_pos.valid(),
            chunk_axis_representable(chunk_pos.x as int),
            chunk_axis_representable(chunk_pos.z as int),
        ensures
            r.x as int == spec_world_axis(chunk_pos.x as int, block_rel_pos@.0),
            r.y as int == block_rel_pos@.1,
            r.z as int == spec_world_axis(chunk_pos.z as int, block_rel_pos@.2),
    {
        BlockPos {
            x: chunk_pos.x * CHUNK_DIM as i32 + block_rel_pos.x as i32,
            y: block_rel_pos.y as i32,
            z: chunk_pos.z * CHUNK_DIM as i32 + block_rel_pos.z as i32,
        }
    }
}

} // verus!
