//! Hit ids: what the renderer writes under the cursor, and what it means.
//!
//! While a frame is drawn, everything that can be picked reserves ids. The
//! id under the cursor is read back some frames later and looked up in the
//! table of the frame that wrote it.

use crate::sim::{ChunkCoord, IVec2, WorldObjectId, ZoneId, CHUNK_SIZE};
use vstd::prelude::*;

verus! {

/// What a hit id stands for.
#[derive(Debug, Clone, Copy, PartialEq, Eq, Structural)]
pub enum HitTarget {
    /// A terrain cell of a zone.
    TerrainCell { zone: ZoneId, cell: IVec2 },
    /// An object of a zone. It may be gone by the time the id is looked up.
    Object { zone: ZoneId, id: WorldObjectId },
}

/// Cells per chunk: the ids that one chunk reserves.
pub const CELLS_PER_CHUNK: u32 = 256;

/// The ids of one chunk: `CELLS_PER_CHUNK` of them from `base_id` on, row by
/// row.
#[derive(Debug, Clone, Copy)]
pub struct TerrainChunkEntry {
    pub base_id: u32,
    pub zone: ZoneId,
    pub chunk_coord: ChunkCoord,
}

/// The id of one object.
#[derive(Debug, Clone, Copy)]
pub struct ObjectEntry {
    pub hit_id: u32,
    pub zone: ZoneId,
    pub object_id: WorldObjectId,
}

/// Every cell of the chunk has coordinates.
pub open spec fn addressable(c: ChunkCoord) -> bool {
    &&& -0x800_0000 <= c.x < 0x800_0000
    &&& -0x800_0000 <= c.y < 0x800_0000
}

/// The cell of a chunk with the given local number.
pub open spec fn cell_of(c: ChunkCoord, local: int) -> IVec2 {
    IVec2 {
        x: (c.x * CHUNK_SIZE + local % CHUNK_SIZE as int) as i32,
        y: (c.y * CHUNK_SIZE + local / CHUNK_SIZE as int) as i32,
    }
}

/// The entry covers the id.
pub open spec fn covers(entry: TerrainChunkEntry, id: u32) -> bool {
    entry.base_id <= id && id - entry.base_id < CELLS_PER_CHUNK
}

/// The cell that an id stands for, by the first chunk that covers it.
pub open spec fn find_cell(chunks: Seq<TerrainChunkEntry>, id: u32) -> Option<HitTarget>
    decreases chunks.len(),
{
    if chunks.len() == 0 {
        None
    } else if covers(chunks[0], id) {
        Some(
            HitTarget::TerrainCell {
                zone: chunks[0].zone,
                cell: cell_of(chunks[0].chunk_coord, id - chunks[0].base_id),
            },
        )
    } else {
        find_cell(chunks.skip(1), id)
    }
}

/// The object that an id stands for, by the first entry with that id.
pub open spec fn find_object(objects: Seq<ObjectEntry>, id: u32) -> Option<HitTarget>
    decreases objects.len(),
{
    if objects.len() == 0 {
        None
    } else if objects[0].hit_id == id {
        Some(HitTarget::Object { zone: objects[0].zone, id: objects[0].object_id })
    } else {
        find_object(objects.skip(1), id)
    }
}

/// What an id stands for: nothing for 0, else a cell, else an object.
pub open spec fn target_of(
    chunks: Seq<TerrainChunkEntry>,
    objects: Seq<ObjectEntry>,
    id: u32,
) -> Option<HitTarget> {
    if id == 0 {
        None
    } else {
        match find_cell(chunks, id) {
            Some(target) => Some(target),
            None => find_object(objects, id),
        }
    }
}

/// How many ids were asked for.
pub open spec fn asked_for(chunks: Seq<TerrainChunkEntry>, objects: Seq<ObjectEntry>) -> int {
    CELLS_PER_CHUNK * chunks.len() + objects.len()
}

/// The reservations of a table as far as they have been made: all ids are
/// above 0, each kind's come in ascending order, and until more ids are asked
/// for than there are the ranges do not overlap and lie below the next free id.
pub open spec fn well_packed(
    chunks: Seq<TerrainChunkEntry>,
    objects: Seq<ObjectEntry>,
    next_id: u32,
) -> bool {
    &&& next_id == (if asked_for(chunks, objects) < u32::MAX {
        asked_for(chunks, objects) + 1
    } else {
        u32::MAX as int
    })
    &&& forall|i: int|
        0 <= i < chunks.len() ==> 1 <= (#[trigger] chunks[i]).base_id <= next_id && addressable(
            chunks[i].chunk_coord,
        )
    &&& forall|i: int| 0 <= i < objects.len() ==> 1 <= (#[trigger] objects[i]).hit_id <= next_id
    &&& forall|i: int, j: int|
        0 <= i < j < chunks.len() ==> (#[trigger] chunks[i]).base_id <= (
        #[trigger] chunks[j]).base_id
    &&& forall|i: int, j: int|
        0 <= i < j < objects.len() ==> (#[trigger] objects[i]).hit_id <= (
        #[trigger] objects[j]).hit_id
    &&& asked_for(chunks, objects) < u32::MAX ==> {
        &&& forall|i: int|
            0 <= i < chunks.len() ==> (#[trigger] chunks[i]).base_id + CELLS_PER_CHUNK <= next_id
        &&& forall|i: int| 0 <= i < objects.len() ==> (#[trigger] objects[i]).hit_id < next_id
        &&& forall|i: int, j: int|
            0 <= i < j < chunks.len() ==> (#[trigger] chunks[i]).base_id + CELLS_PER_CHUNK <= (
            #[trigger] chunks[j]).base_id
        &&& forall|i: int, j: int|
            0 <= i < j < objects.len() ==> (#[trigger] objects[i]).hit_id < (
            #[trigger] objects[j]).hit_id
        &&& forall|i: int, j: int|
            0 <= i < chunks.len() && 0 <= j < objects.len() ==> !covers(
                #[trigger] chunks[i],
                (#[trigger] objects[j]).hit_id,
            )
    }
}

/// The sum, or the greatest id.
pub open spec fn advanced(id: u32, by: u32) -> u32 {
    if id + by > u32::MAX {
        u32::MAX
    } else {
        (id + by) as u32
    }
}

/// The ids reserved in one frame. Both kinds of reservation draw on one
/// counter.
pub struct FrameIdTable {
    next_id: u32,
    terrain_chunks: Vec<TerrainChunkEntry>,
    objects: Vec<ObjectEntry>,
}

impl FrameIdTable {
    #[verifier::type_invariant]
    closed spec fn wf(self) -> bool {
        well_packed(self.terrain_chunks@, self.objects@, self.next_id)
    }

    /// The next free id.
    pub closed spec fn next_id(&self) -> u32 {
        self.next_id
    }

    /// The chunks, in the order in which they reserved.
    pub closed spec fn chunks(&self) -> Seq<TerrainChunkEntry> {
        self.terrain_chunks@
    }

    /// The objects, in the order in which they reserved.
    pub closed spec fn objects(&self) -> Seq<ObjectEntry> {
        self.objects@
    }

    /// A table without reservations. Id 0 stands for nothing, so ids start
    /// at 1.
    pub fn new() -> (r: Self)
        ensures
            r.next_id() == 1,
            r.chunks() == Seq::<TerrainChunkEntry>::empty(),
            r.objects() == Seq::<ObjectEntry>::empty(),
            well_packed(r.chunks(), r.objects(), r.next_id()),
    {
        FrameIdTable { next_id: 1, terrain_chunks: Vec::new(), objects: Vec::new() }
    }

    /// Forgets every reservation.
    pub fn clear(&mut self)
        ensures
            final(self).next_id() == 1,
            final(self).chunks() == Seq::<TerrainChunkEntry>::empty(),
            final(self).objects() == Seq::<ObjectEntry>::empty(),
    {
        *self = FrameIdTable::new();
    }

    /// Reserves an id for each cell of a chunk. The cell in column `x` of row
    /// `y` gets the returned id plus `y * CHUNK_SIZE + x`.
    pub fn reserve_terrain_chunk(&mut self, zone: ZoneId, chunk_coord: ChunkCoord) -> (base: u32)
        requires
            addressable(chunk_coord),
        ensures
            base == old(self).next_id(),
            final(self).next_id() == advanced(old(self).next_id(), CELLS_PER_CHUNK),
            final(self).chunks() == old(self).chunks().push(
                TerrainChunkEntry { base_id: base, zone, chunk_coord },
            ),
            final(self).objects() == old(self).objects(),
            well_packed(final(self).chunks(), final(self).objects(), final(self).next_id()),
    {
        proof {
            use_type_invariant(&*self);
        }
        let ghost chunks0 = self.terrain_chunks@;
        let ghost objects0 = self.objects@;
        let base = self.next_id;
        let next_id = base.saturating_add(CELLS_PER_CHUNK);
        let mut taken = FrameIdTable::new();
        core::mem::swap(self, &mut taken);
        let FrameIdTable { next_id: _, mut terrain_chunks, objects } = taken;
        terrain_chunks.push(TerrainChunkEntry { base_id: base, zone, chunk_coord });
        proof {
            lemma_pack_chunk(
                chunks0,
                objects0,
                base,
                TerrainChunkEntry { base_id: base, zone, chunk_coord },
            );
        }
        *self = FrameIdTable { next_id, terrain_chunks, objects };
        base
    }

    /// Reserves an id for an object.
    pub fn reserve_object(&mut self, zone: ZoneId, object_id: WorldObjectId) -> (hit_id: u32)
        ensures
            hit_id == old(self).next_id(),
            final(self).next_id() == advanced(old(self).next_id(), 1),
            final(self).objects() == old(self).objects().push(
                ObjectEntry { hit_id, zone, object_id },
            ),
            final(self).chunks() == old(self).chunks(),
            well_packed(final(self).chunks(), final(self).objects(), final(self).next_id()),
    {
        proof {
            use_type_invariant(&*self);
        }
        let ghost chunks0 = self.terrain_chunks@;
        let ghost objects0 = self.objects@;
        let hit_id = self.next_id;
        let next_id = hit_id.saturating_add(1);
        let mut taken = FrameIdTable::new();
        core::mem::swap(self, &mut taken);
        let FrameIdTable { next_id: _, terrain_chunks, mut objects } = taken;
        objects.push(ObjectEntry { hit_id, zone, object_id });
        proof {
            lemma_pack_object(chunks0, objects0, hit_id, ObjectEntry { hit_id, zone, object_id });
        }
        *self = FrameIdTable { next_id, terrain_chunks, objects };
        hit_id
    }

    /// Looks up an id read from the buffer. Nothing comes back for 0 and for
    /// ids that nothing reserved.
    pub fn resolve(&self, id: u32) -> (r: Option<HitTarget>)
        ensures
            r == target_of(self.chunks(), self.objects(), id),
    {
        proof {
            use_type_invariant(self);
        }
        if id == 0 {
            return None;
        }
        let ghost chunks = self.terrain_chunks@;
        let mut i: usize = 0;
        assert(chunks.skip(0) =~= chunks);
        while i < self.terrain_chunks.len()
            invariant
                i <= chunks.len(),
                id != 0,
                chunks == self.terrain_chunks@,
                well_packed(self.terrain_chunks@, self.objects@, self.next_id),
                find_cell(chunks, id) == find_cell(chunks.skip(i as int), id),
            ensures
                find_cell(chunks, id) is None,
            decreases chunks.len() - i,
        {
            let entry = self.terrain_chunks[i];
            assert(chunks.skip(i as int)[0] == entry);
            assert(chunks.skip(i as int).skip(1) =~= chunks.skip(i + 1));
            if id < entry.base_id {
                proof {
                    lemma_no_cell(chunks.skip(i as int), id);
                }
                break;
            }
            let local = id - entry.base_id;
            if local < CELLS_PER_CHUNK {
                assert(addressable(chunks[i as int].chunk_coord));
                let lx = (local % CHUNK_SIZE) as i32;
                let ly = (local / CHUNK_SIZE) as i32;
                let side = CHUNK_SIZE as i32;
                let cell = IVec2 {
                    x: entry.chunk_coord.x * side + lx,
                    y: entry.chunk_coord.y * side + ly,
                };
                return Some(HitTarget::TerrainCell { zone: entry.zone, cell });
            }
            i += 1;
        }
        let ghost objects = self.objects@;
        let mut j: usize = 0;
        assert(objects.skip(0) =~= objects);
        while j < self.objects.len()
            invariant
                j <= objects.len(),
                id != 0,
                objects == self.objects@,
                chunks == self.terrain_chunks@,
                find_cell(chunks, id) is None,
                well_packed(self.terrain_chunks@, self.objects@, self.next_id),
                find_object(objects, id) == find_object(objects.skip(j as int), id),
            ensures
                find_object(objects, id) is None,
            decreases objects.len() - j,
        {
            let entry = self.objects[j];
            assert(objects.skip(j as int)[0] == entry);
            assert(objects.skip(j as int).skip(1) =~= objects.skip(j + 1));
            if entry.hit_id == id {
                return Some(HitTarget::Object { zone: entry.zone, id: entry.object_id });
            }
            if entry.hit_id > id {
                proof {
                    lemma_no_object(objects.skip(j as int), id);
                }
                break;
            }
            j += 1;
        }
        None
    }
}

impl Default for FrameIdTable {
    fn default() -> (r: Self)
        ensures
            r.next_id() == 1,
            r.chunks() == Seq::<TerrainChunkEntry>::empty(),
            r.objects() == Seq::<ObjectEntry>::empty(),
    {
        FrameIdTable::new()
    }
}

impl Clone for FrameIdTable {
    fn clone(&self) -> (r: Self)
        ensures
            r.next_id() == self.next_id(),
            r.chunks() == self.chunks(),
            r.objects() == self.objects(),
    {
        proof {
            use_type_invariant(self);
        }
        let mut terrain_chunks: Vec<TerrainChunkEntry> = Vec::new();
        let mut i: usize = 0;
        while i < self.terrain_chunks.len()
            invariant
                i <= self.terrain_chunks@.len(),
                terrain_chunks@ == self.terrain_chunks@.take(i as int),
            decreases self.terrain_chunks@.len() - i,
        {
            terrain_chunks.push(self.terrain_chunks[i]);
            i += 1;
            assert(terrain_chunks@ =~= self.terrain_chunks@.take(i as int));
        }
        let mut objects: Vec<ObjectEntry> = Vec::new();
        let mut j: usize = 0;
        while j < self.objects.len()
            invariant
                j <= self.objects@.len(),
                objects@ == self.objects@.take(j as int),
            decreases self.objects@.len() - j,
        {
            objects.push(self.objects[j]);
            j += 1;
            assert(objects@ =~= self.objects@.take(j as int));
        }
        assert(terrain_chunks@ =~= self.terrain_chunks@);
        assert(objects@ =~= self.objects@);
        FrameIdTable { next_id: self.next_id, terrain_chunks, objects }
    }
}

proof fn lemma_pack_chunk(
    chunks: Seq<TerrainChunkEntry>,
    objects: Seq<ObjectEntry>,
    next_id: u32,
    entry: TerrainChunkEntry,
)
    requires
        well_packed(chunks, objects, next_id),
        entry.base_id == next_id,
        addressable(entry.chunk_coord),
    ensures
        well_packed(chunks.push(entry), objects, advanced(next_id, CELLS_PER_CHUNK)),
{
}

proof fn lemma_pack_object(
    chunks: Seq<TerrainChunkEntry>,
    objects: Seq<ObjectEntry>,
    next_id: u32,
    entry: ObjectEntry,
)
    requires
        well_packed(chunks, objects, next_id),
        entry.hit_id == next_id,
    ensures
        well_packed(chunks, objects.push(entry), advanced(next_id, 1)),
{
}

/// Chunks that all start above an id do not cover it.
proof fn lemma_no_cell(chunks: Seq<TerrainChunkEntry>, id: u32)
    requires
        chunks.len() > 0 ==> id < chunks[0].base_id,
        forall|i: int, j: int|
            0 <= i < j < chunks.len() ==> (#[trigger] chunks[i]).base_id <= (
            #[trigger] chunks[j]).base_id,
    ensures
        find_cell(chunks, id) is None,
    decreases chunks.len(),
{
    if chunks.len() > 0 {
        let rest = chunks.skip(1);
        if rest.len() > 0 {
            assert(chunks[0].base_id <= chunks[1].base_id);
        }
        assert forall|i: int, j: int| 0 <= i < j < rest.len() implies (#[trigger] rest[i]).base_id
            <= (#[trigger] rest[j]).base_id by {
            assert(chunks[i + 1].base_id <= chunks[j + 1].base_id);
        }
        lemma_no_cell(rest, id);
    }
}

/// Objects whose ids are all above an id do not have it.
proof fn lemma_no_object(objects: Seq<ObjectEntry>, id: u32)
    requires
        objects.len() > 0 ==> id < objects[0].hit_id,
        forall|i: int, j: int|
            0 <= i < j < objects.len() ==> (#[trigger] objects[i]).hit_id <= (
            #[trigger] objects[j]).hit_id,
    ensures
        find_object(objects, id) is None,
    decreases objects.len(),
{
    if objects.len() > 0 {
        let rest = objects.skip(1);
        if rest.len() > 0 {
            assert(objects[0].hit_id <= objects[1].hit_id);
        }
        assert forall|i: int, j: int| 0 <= i < j < rest.len() implies (#[trigger] rest[i]).hit_id
            <= (#[trigger] rest[j]).hit_id by {
            assert(objects[i + 1].hit_id <= objects[j + 1].hit_id);
        }
        lemma_no_object(rest, id);
    }
}

proof fn lemma_find_cell(chunks: Seq<TerrainChunkEntry>, k: int, id: u32)
    requires
        0 <= k < chunks.len(),
        covers(chunks[k], id),
        forall|i: int| 0 <= i < k ==> !covers(#[trigger] chunks[i], id),
    ensures
        find_cell(chunks, id) == Some(
            HitTarget::TerrainCell {
                zone: chunks[k].zone,
                cell: cell_of(chunks[k].chunk_coord, id - chunks[k].base_id),
            },
        ),
    decreases chunks.len(),
{
    if k > 0 {
        assert(!covers(chunks[0], id));
        let rest = chunks.skip(1);
        assert forall|i: int| 0 <= i < k - 1 implies !covers(#[trigger] rest[i], id) by {
            assert(!covers(chunks[i + 1], id));
        }
        lemma_find_cell(rest, k - 1, id);
    }
}

proof fn lemma_find_no_cell(chunks: Seq<TerrainChunkEntry>, id: u32)
    requires
        forall|i: int| 0 <= i < chunks.len() ==> !covers(#[trigger] chunks[i], id),
    ensures
        find_cell(chunks, id) is None,
    decreases chunks.len(),
{
    if chunks.len() > 0 {
        assert(!covers(chunks[0], id));
        let rest = chunks.skip(1);
        assert forall|i: int| 0 <= i < rest.len() implies !covers(#[trigger] rest[i], id) by {
            assert(!covers(chunks[i + 1], id));
        }
        lemma_find_no_cell(rest, id);
    }
}

proof fn lemma_find_object(objects: Seq<ObjectEntry>, k: int)
    requires
        0 <= k < objects.len(),
        forall|i: int| 0 <= i < k ==> (#[trigger] objects[i]).hit_id != objects[k].hit_id,
    ensures
        find_object(objects, objects[k].hit_id) == Some(
            HitTarget::Object { zone: objects[k].zone, id: objects[k].object_id },
        ),
    decreases objects.len(),
{
    if k > 0 {
        assert(objects[0].hit_id != objects[k].hit_id);
        let rest = objects.skip(1);
        assert(rest[k - 1] == objects[k]);
        assert forall|i: int| 0 <= i < k - 1 implies (#[trigger] rest[i]).hit_id != rest[k
            - 1].hit_id by {
            assert(objects[i + 1].hit_id != objects[k].hit_id);
        }
        lemma_find_object(rest, k - 1);
    }
}

/// As long as no more ids are asked for than there are, each object's id resolves to the object
/// that reserved it.
pub proof fn law_object_ids_resolve(
    chunks: Seq<TerrainChunkEntry>,
    objects: Seq<ObjectEntry>,
    next_id: u32,
    k: int,
)
    requires
        well_packed(chunks, objects, next_id),
        asked_for(chunks, objects) < u32::MAX,
        0 <= k < objects.len(),
    ensures
        target_of(chunks, objects, objects[k].hit_id) == Some(
            HitTarget::Object { zone: objects[k].zone, id: objects[k].object_id },
        ),
{
    let id = objects[k].hit_id;
    assert forall|i: int| 0 <= i < chunks.len() implies !covers(#[trigger] chunks[i], id) by {
        assert(!covers(chunks[i], objects[k].hit_id));
    }
    lemma_find_no_cell(chunks, id);
    assert forall|i: int| 0 <= i < k implies (#[trigger] objects[i]).hit_id != id by {
        assert(objects[i].hit_id < objects[k].hit_id);
    }
    lemma_find_object(objects, k);
}

/// As long as no more ids are asked for than there are, each id of a chunk resolves to the cell of
/// that chunk that it was reserved for.
pub proof fn law_cell_ids_resolve(
    chunks: Seq<TerrainChunkEntry>,
    objects: Seq<ObjectEntry>,
    next_id: u32,
    k: int,
    column: u32,
    row: u32,
)
    requires
        well_packed(chunks, objects, next_id),
        asked_for(chunks, objects) < u32::MAX,
        0 <= k < chunks.len(),
        column < CHUNK_SIZE,
        row < CHUNK_SIZE,
    ensures
        target_of(chunks, objects, (chunks[k].base_id + row * CHUNK_SIZE + column) as u32) == Some(
            HitTarget::TerrainCell {
                zone: chunks[k].zone,
                cell: IVec2 {
                    x: (chunks[k].chunk_coord.x * CHUNK_SIZE + column) as i32,
                    y: (chunks[k].chunk_coord.y * CHUNK_SIZE + row) as i32,
                },
            },
        ),
{
    let local = row * CHUNK_SIZE + column;
    assert(local < CELLS_PER_CHUNK && local % 16 == column && local / 16 == row as int);
    assert(chunks[k].base_id + CELLS_PER_CHUNK <= next_id);
    let id = (chunks[k].base_id + local) as u32;
    assert forall|i: int| 0 <= i < k implies !covers(#[trigger] chunks[i], id) by {
        assert(chunks[i].base_id + CELLS_PER_CHUNK <= chunks[k].base_id);
    }
    lemma_find_cell(chunks, k, id);
}

/// An id that no chunk covers and no object has stands for nothing; nor does 0.
pub proof fn law_other_ids_resolve_to_nothing(
    chunks: Seq<TerrainChunkEntry>,
    objects: Seq<ObjectEntry>,
    id: u32,
)
    requires
        id == 0 || {
            &&& forall|i: int| 0 <= i < chunks.len() ==> !covers(#[trigger] chunks[i], id)
            &&& forall|i: int| 0 <= i < objects.len() ==> (#[trigger] objects[i]).hit_id != id
        },
    ensures
        target_of(chunks, objects, id) is None,
{
    if id != 0 {
        lemma_find_no_cell(chunks, id);
        lemma_absent_object(objects, id);
    }
}

/// As long as no more ids are asked for than there are, an id that has not been
/// handed out stands for nothing.
pub proof fn law_unreserved_ids_resolve_to_nothing(
    chunks: Seq<TerrainChunkEntry>,
    objects: Seq<ObjectEntry>,
    next_id: u32,
    id: u32,
)
    requires
        well_packed(chunks, objects, next_id),
        asked_for(chunks, objects) < u32::MAX,
        id >= next_id || id == 0,
    ensures
        target_of(chunks, objects, id) is None,
{
    if id != 0 {
        assert forall|i: int| 0 <= i < chunks.len() implies !covers(#[trigger] chunks[i], id) by {
            assert(chunks[i].base_id + CELLS_PER_CHUNK <= next_id);
        }
        lemma_find_no_cell(chunks, id);
        lemma_absent_object(objects, id);
    }
}

proof fn lemma_absent_object(objects: Seq<ObjectEntry>, id: u32)
    requires
        forall|i: int| 0 <= i < objects.len() ==> (#[trigger] objects[i]).hit_id != id,
    ensures
        find_object(objects, id) is None,
    decreases objects.len(),
{
    if objects.len() > 0 {
        let rest = objects.skip(1);
        assert(objects[0].hit_id != id);
        assert forall|i: int| 0 <= i < rest.len() implies (#[trigger] rest[i]).hit_id != id by {
            assert(objects[i + 1].hit_id != id);
        }
        lemma_absent_object(rest, id);
    }
}

} // verus!
