use currawong::render::picking_buffer::{FrameIdTable, HitTarget, CELLS_PER_CHUNK};
use currawong::sim::{ChunkCoord, IVec2, WorldObjectId, ZoneId, CHUNK_SIZE};

fn zone(idx: u32) -> ZoneId {
    ZoneId::from_raw(idx, 0)
}

fn object(idx: u32) -> WorldObjectId {
    WorldObjectId::from_raw(idx, 0)
}

#[test]
fn resolve_no_hit_returns_none() {
    let table = FrameIdTable::new();
    assert_eq!(table.resolve(0), None);
}

#[test]
fn first_reservation_starts_at_one() {
    let mut table = FrameIdTable::new();
    let base = table.reserve_terrain_chunk(zone(0), ChunkCoord::new(0, 0));
    assert_eq!(base, 1);
}

#[test]
fn reservations_pack_sequentially() {
    let mut table = FrameIdTable::new();
    let a = table.reserve_terrain_chunk(zone(0), ChunkCoord::new(0, 0));
    let b = table.reserve_terrain_chunk(zone(0), ChunkCoord::new(1, 0));
    assert_eq!(a, 1);
    assert_eq!(b, 1 + CELLS_PER_CHUNK);
}

fn unwrap_cell(target: Option<HitTarget>) -> (ZoneId, IVec2) {
    match target.expect("expected a hit target") {
        HitTarget::TerrainCell { zone, cell } => (zone, cell),
        HitTarget::Object { .. } => panic!("expected TerrainCell, got Object"),
    }
}

fn unwrap_object(target: Option<HitTarget>) -> (ZoneId, WorldObjectId) {
    match target.expect("expected a hit target") {
        HitTarget::Object { zone, id } => (zone, id),
        HitTarget::TerrainCell { .. } => panic!("expected Object, got TerrainCell"),
    }
}

#[test]
fn resolve_finds_cells_within_a_chunk() {
    let mut table = FrameIdTable::new();
    let base = table.reserve_terrain_chunk(zone(7), ChunkCoord::new(0, 0));

    let (z, cell) = unwrap_cell(table.resolve(base));
    assert_eq!(z, zone(7));
    assert_eq!(cell, IVec2::new(0, 0));

    let (_, cell) = unwrap_cell(table.resolve(base + 1));
    assert_eq!(cell, IVec2::new(1, 0));

    let (_, cell) = unwrap_cell(table.resolve(base + CHUNK_SIZE));
    assert_eq!(cell, IVec2::new(0, 1));
}

#[test]
fn resolve_respects_chunk_coord_offset() {
    let mut table = FrameIdTable::new();
    let base = table.reserve_terrain_chunk(zone(0), ChunkCoord::new(2, -1));
    let (_, cell) = unwrap_cell(table.resolve(base));
    assert_eq!(
        cell,
        IVec2::new(2 * CHUNK_SIZE as i32, -(CHUNK_SIZE as i32)),
    );
}

#[test]
fn resolve_returns_none_for_ids_past_the_end() {
    let mut table = FrameIdTable::new();
    let base = table.reserve_terrain_chunk(zone(0), ChunkCoord::new(0, 0));
    assert!(table.resolve(base + CELLS_PER_CHUNK).is_none());
    assert!(table.resolve(u32::MAX).is_none());
}

#[test]
fn clear_resets_to_empty() {
    let mut table = FrameIdTable::new();
    table.reserve_terrain_chunk(zone(0), ChunkCoord::new(0, 0));
    table.reserve_object(zone(0), object(0));
    table.clear();
    assert_eq!(table.resolve(1), None);
    let base = table.reserve_terrain_chunk(zone(0), ChunkCoord::new(5, 5));
    assert_eq!(base, 1);
}


#[test]
fn object_reservation_resolves_to_zone_and_id() {
    let mut table = FrameIdTable::new();
    let id = table.reserve_object(zone(3), object(42));
    let (z, oid) = unwrap_object(table.resolve(id));
    assert_eq!(z, zone(3));
    assert_eq!(oid, object(42));
}

#[test]
fn object_reservations_share_counter_with_terrain() {
    let mut table = FrameIdTable::new();
    let terrain_base = table.reserve_terrain_chunk(zone(0), ChunkCoord::new(0, 0));
    let object_id = table.reserve_object(zone(0), object(7));
    assert_eq!(terrain_base, 1);
    assert_eq!(object_id, 1 + CELLS_PER_CHUNK);
}

#[test]
fn interleaved_reservations_resolve_to_their_owners() {
    let mut table = FrameIdTable::new();
    let chunk_a = table.reserve_terrain_chunk(zone(0), ChunkCoord::new(0, 0));
    let obj_a = table.reserve_object(zone(0), object(11));
    let chunk_b = table.reserve_terrain_chunk(zone(0), ChunkCoord::new(1, 0));
    let obj_b = table.reserve_object(zone(1), object(22));

    let (_, cell) = unwrap_cell(table.resolve(chunk_a));
    assert_eq!(cell, IVec2::new(0, 0));
    let (_, cell) = unwrap_cell(table.resolve(chunk_b));
    assert_eq!(cell, IVec2::new(CHUNK_SIZE as i32, 0));

    let (z, oid) = unwrap_object(table.resolve(obj_a));
    assert_eq!((z, oid), (zone(0), object(11)));
    let (z, oid) = unwrap_object(table.resolve(obj_b));
    assert_eq!((z, oid), (zone(1), object(22)));
}

#[test]
fn object_ids_outside_any_reservation_return_none() {
    let mut table = FrameIdTable::new();
    let id = table.reserve_object(zone(0), object(0));
    assert!(table.resolve(id + 1).is_none());
}
