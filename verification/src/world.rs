//! The world: a collection of chunks keyed by chunk position.
//!
//! The world owns every chunk and holds at most one chunk per position.
//! Inserting at an occupied position is refused, never silently
//! overwritten: an overwrite would corrupt the exposure computation of the
//! chunk already there.

use std::collections::HashMap;
use vstd::prelude::*;

use crate::block::{ChunkPos, RelPos, CHUNK_HEIGHT};
use crate::chunk::{is_flat_grass_chunk, Chunk};
use crate::error::VoxelError;
use crate::visibility::is_visibility_report;

verus! {

/// The key a chunk position is stored under: both axes shifted to be
/// nonnegative, then packed into one integer.
pub open spec fn spec_chunk_key(x: int, z: int) -> int {
    (x + 0x8000_0000) * 0x1_0000_0000 + (z + 0x8000_0000)
}

/// The chunks of the world, keyed by chunk position.
pub struct World {
    chunks: HashMap<u64, Chunk>,
}

impl View for World {
    type V = Map<(int, int), Chunk>;

    /// The world's contents: the partial map from occupied chunk positions,
    /// as integer pairs, to the chunks that sit there.
    closed spec fn view(&self) -> Map<(int, int), Chunk> {
        Map::new(
            |p: (int, int)|
                {
                    &&& i32::MIN <= p.0 <= i32::MAX
                    &&& i32::MIN <= p.1 <= i32::MAX
                    &&& self.chunks@.dom().contains(spec_chunk_key(p.0, p.1) as u64)
                },
            |p: (int, int)| self.chunks@[spec_chunk_key(p.0, p.1) as u64],
        )
    }
}

impl World {
    /// Every chunk is well formed and stored under the key of its own
    /// position.
    pub closed spec fn wf(self) -> bool {
        forall|k: u64|
            #[trigger] self.chunks@.dom().contains(k) ==> {
                let c = self.chunks@[k];
                &&& c.wf()
                &&& spec_chunk_key(c.spec_pos().x as int, c.spec_pos().z as int) == k
            }
    }

    /// The exec counterpart of `spec_chunk_key`.
    fn key_of(pos: ChunkPos) -> (k: u64)
        ensures
            k as int == spec_chunk_key(pos.x as int, pos.z as int),
    {
        let xs = (pos.x as i64 + 0x8000_0000i64) as u64;
        let zs = (pos.z as i64 + 0x8000_0000i64) as u64;
        xs * 0x1_0000_0000u64 + zs
    }

    /// Makes a world with no chunks.
    pub fn new() -> (w: World)
        ensures
            w.wf(),
            w@ == Map::<(int, int), Chunk>::empty(),
    {
        let w = World { chunks: HashMap::new() };
        proof {
            assert(w@ =~= Map::<(int, int), Chunk>::empty());
        }
        w
    }

    /// Whether a chunk sits at `pos`.
    pub fn contains_chunk(&self, pos: ChunkPos) -> (r: bool)
        ensures
            r == self@.dom().contains((pos.x as int, pos.z as int)),
    {
        let key = Self::key_of(pos);
        self.chunks.contains_key(&key)
    }

    /// The chunk at `pos`, if any. A returned chunk is well formed and
    /// knows the position it was looked up under.
    pub fn get_chunk(&self, pos: ChunkPos) -> (r: Option<&Chunk>)
        requires
            self.wf(),
        ensures
            match r {
                Some(c) => {
                    &&& self@.dom().contains((pos.x as int, pos.z as int))
                    &&& *c == self@[(pos.x as int, pos.z as int)]
                    &&& c.wf()
                    &&& c.spec_pos() == pos
                },
                None => !self@.dom().contains((pos.x as int, pos.z as int)),
            },
    {
        let key = Self::key_of(pos);
        self.chunks.get(&key)
    }

    /// Generates a flat chunk at `pos` and inserts it. Fails with
    /// `ChunkAlreadyExists`, leaving the world unchanged, exactly when a
    /// chunk already sits at `pos`. On success, returns the chunk's
    /// visibility report and changes nothing else in the world.
    pub fn add_chunk(&mut self, pos: ChunkPos, thickness: u16) -> (r: Result<
        Vec<(RelPos, bool)>,
        VoxelError,
    >)
        requires
            old(self).wf(),
            thickness <= CHUNK_HEIGHT,
        ensures
            final(self).wf(),
            match r {
                Ok(report) => {
                    let p = (pos.x as int, pos.z as int);
                    &&& !old(self)@.dom().contains(p)
                    &&& final(self)@ == old(self)@.insert(p, final(self)@[p])
                    &&& is_flat_grass_chunk(final(self)@[p], pos, thickness as int)
                    &&& is_visibility_report(final(self)@[p]@, report@)
                },
                Err(e) => {
                    &&& e == VoxelError::ChunkAlreadyExists
                    &&& old(self)@.dom().contains((pos.x as int, pos.z as int))
                    &&& final(self)@ == old(self)@
                },
            },
    {
        let key = Self::key_of(pos);
        if self.chunks.contains_key(&key) {
            Err(VoxelError::ChunkAlreadyExists)
        } else {
            let (chunk, report) = Chunk::generate_flat_chunk(pos, thickness);
            self.chunks.insert(key, chunk);
            proof {
                let p = (pos.x as int, pos.z as int);
                assert(self@.dom().contains(p));
                assert(self@ =~= old(self)@.insert(p, self@[p]));
            }
            Ok(report)
        }
    }

    /// Clears the world and fills the grid of chunk positions with both
    /// axes in `[0, xwidth)` and `[0, zwidth)` with flat chunks of the
    /// given thickness.
    pub fn load_map(&mut self, xwidth: i32, zwidth: i32, thickness: u16)
        requires
            thickness <= CHUNK_HEIGHT,
        ensures
            final(self).wf(),
            forall|p: (int, int)|
                #[trigger] final(self)@.dom().contains(p) <==> (0 <= p.0 < xwidth && 0 <= p.1
                    < zwidth),
            forall|p: (int, int)|
                #[trigger] final(self)@.dom().contains(p) ==> is_flat_grass_chunk(
                    final(self)@[p],
                    ChunkPos { x: p.0 as i32, z: p.1 as i32 },
                    thickness as int,
                ),
    {
        self.chunks = HashMap::new();
        proof {
            assert(self@ =~= Map::<(int, int), Chunk>::empty());
        }
        let mut x: i32 = 0;
        while x < xwidth
            invariant
                self.wf(),
                thickness <= CHUNK_HEIGHT,
                0 <= x,
                x <= xwidth || x == 0,
                forall|p: (int, int)|
                    #[trigger] self@.dom().contains(p) <==> (0 <= p.0 < x && 0 <= p.1 < zwidth),
                forall|p: (int, int)|
                    #[trigger] self@.dom().contains(p) ==> is_flat_grass_chunk(
                        self@[p],
                        ChunkPos { x: p.0 as i32, z: p.1 as i32 },
                        thickness as int,
                    ),
            decreases xwidth - x,
        {
            let mut z: i32 = 0;
            while z < zwidth
                invariant
                    self.wf(),
                    thickness <= CHUNK_HEIGHT,
                    0 <= x < xwidth,
                    0 <= z,
                    z <= zwidth || z == 0,
                    forall|p: (int, int)|
                        #[trigger] self@.dom().contains(p) <==> ((0 <= p.0 < x && 0 <= p.1
                            < zwidth) || (p.0 == x && 0 <= p.1 < z)),
                    forall|p: (int, int)|
                        #[trigger] self@.dom().contains(p) ==> is_flat_grass_chunk(
                            self@[p],
                            ChunkPos { x: p.0 as i32, z: p.1 as i32 },
                            thickness as int,
                        ),
                decreases zwidth - z,
            {
                let added = self.add_chunk(ChunkPos { x, z }, thickness);
                match added {
                    Ok(_) => {},
                    Err(_) => {
                        proof {
                            assert(false);
                        }
                    },
                }
                z = z + 1;
            }
            x = x + 1;
        }
    }
}

} // verus!
