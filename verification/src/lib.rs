//! A voxel world partitioned into fixed-size chunks.
//!
//! The library has four layers, leaves first:
//! - `block`: the data model — block types, blocks, and the three-tier
//!   coordinate system (world position, chunk position, chunk-relative
//!   position);
//! - `chunk`: the per-chunk voxel store and the coordinate conversions;
//! - `visibility`: the rules that classify a voxel as exposed (some
//!   neighboring cell is empty or outside the chunk) or enclosed;
//! - `world`: the collection of chunks keyed by chunk position, with
//!   generation and visibility refresh.
//!
//! Rendering is not part of this crate: callers receive, for every voxel,
//! its position and whether it is exposed, and draw from that.

pub mod block;
pub mod chunk;
pub mod error;
pub mod visibility;
pub mod world;
