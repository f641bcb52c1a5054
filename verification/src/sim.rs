//! Names of things in the simulated world.

use vstd::prelude::*;

verus! {

/// Cells along one side of a terrain chunk.
pub const CHUNK_SIZE: u32 = 16;

/// A place on an integer grid.
#[derive(Debug, Clone, Copy, PartialEq, Eq, Hash, Structural)]
pub struct IVec2 {
    pub x: i32,
    pub y: i32,
}

impl IVec2 {
    pub fn new(x: i32, y: i32) -> (r: Self)
        ensures
            r == (IVec2 { x, y }),
    {
        IVec2 { x, y }
    }
}

/// Where a chunk stands on the grid of chunks.
pub type ChunkCoord = IVec2;

/// A zone: an index into the table of zones, and a generation that tells
/// apart zones that had the same index at different times.
#[derive(Debug, Clone, Copy, PartialEq, Eq, Hash, PartialOrd, Ord, Structural)]
pub struct ZoneId {
    pub index: u32,
    pub generation: u32,
}

impl ZoneId {
    pub fn from_raw(index: u32, generation: u32) -> (r: Self)
        ensures
            r == (ZoneId { index, generation }),
    {
        ZoneId { index, generation }
    }
}

/// An object of a zone, by index and generation.
#[derive(Debug, Clone, Copy, PartialEq, Eq, Hash, PartialOrd, Ord, Structural)]
pub struct WorldObjectId {
    pub index: u32,
    pub generation: u32,
}

impl WorldObjectId {
    pub fn from_raw(index: u32, generation: u32) -> (r: Self)
        ensures
            r == (WorldObjectId { index, generation }),
    {
        WorldObjectId { index, generation }
    }
}

/// An object of the world: its zone and its id there.
#[derive(Debug, Clone, Copy, PartialEq, Eq, Hash, PartialOrd, Ord, Structural)]
pub struct WorldObjectRef {
    pub zone: ZoneId,
    pub id: WorldObjectId,
}

} // verus!
