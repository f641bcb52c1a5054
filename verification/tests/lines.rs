use currawong::render::cell_highlight::{
    CellHighlight, HexGrid, OutlineVertex, SquareGrid, MAX_VERTICES,
};
use currawong::render::line_geometry::{
    unit_cube_fat_line_geometry, unit_cube_line_geometry, FatLineVertex,
};
use currawong::render::scene_resources::{
    FatLineUniform, FAT_LINE_UNIFORM_BYTES, VIEWPORT_OFFSET, WIDTH_OFFSET,
};
use glam::Vec3;

fn point(bits: [u32; 3]) -> Vec3 {
    Vec3::from_array(bits.map(f32::from_bits))
}

#[test]
fn unit_cube_geometry_has_12_edges() {
    let (corners, indices) = unit_cube_line_geometry();
    let vertices = corners.map(point);
    assert_eq!(vertices.len(), 8);
    assert_eq!(indices.len(), 24);
    for i in indices {
        assert!((i as usize) < vertices.len());
    }
}

#[test]
fn unit_cube_corners_span_pm_half() {
    let (corners, _) = unit_cube_line_geometry();
    let vertices = corners.map(point);
    let mut min = vertices[0];
    let mut max = vertices[0];
    for v in &vertices[1..] {
        min = min.min(*v);
        max = max.max(*v);
    }
    assert_eq!(min, Vec3::splat(-0.5));
    assert_eq!(max, Vec3::splat(0.5));
}

#[test]
fn unit_cube_edges_have_unit_length() {
    let (corners, indices) = unit_cube_line_geometry();
    let vertices = corners.map(point);
    for pair in indices.chunks_exact(2) {
        let a = vertices[pair[0] as usize];
        let b = vertices[pair[1] as usize];
        let len = (a - b).length();
        assert!(
            (len - 1.0).abs() < 1e-5,
            "edge {pair:?} has length {len}, expected 1.0",
        );
    }
}

#[test]
fn vertex_stride_is_32() {
    assert_eq!(std::mem::size_of::<FatLineVertex>(), 32);
    assert_eq!(FatLineVertex::stride(), 32);
}

#[test]
fn fat_line_attributes_stand_in_the_vertex() {
    let attrs = FatLineVertex::attributes(2);
    let offsets: Vec<u64> = attrs.iter().map(|a| a.offset).collect();
    assert_eq!(offsets, vec![0, 12, 24, 28]);
    let locations: Vec<u32> = attrs.iter().map(|a| a.shader_location).collect();
    assert_eq!(locations, vec![2, 3, 4, 5]);
}

#[test]
fn uniform_size_matches_wgsl_layout() {
    let u = FatLineUniform::new([1, 2, 3, 4], 9);
    let words = u.words();
    assert_eq!(std::mem::size_of_val(&words), 32);
    assert_eq!(FAT_LINE_UNIFORM_BYTES, 32);
    assert_eq!(VIEWPORT_OFFSET, 16);
    assert_eq!(WIDTH_OFFSET, 24);
    assert_eq!(words[..4], [1, 2, 3, 4]);
    assert_eq!(words[VIEWPORT_OFFSET as usize / 4], 1.0f32.to_bits());
    assert_eq!(words[WIDTH_OFFSET as usize / 4], 9);
}

#[test]
fn unit_cube_has_12_segments() {
    let (vertices, indices) = unit_cube_fat_line_geometry();
    assert_eq!(vertices.len(), 48);
    assert_eq!(indices.len(), 72);
    for i in &indices {
        assert!((*i as usize) < vertices.len());
    }
}

#[test]
fn unit_cube_segments_have_unit_length() {
    let (vertices, _) = unit_cube_fat_line_geometry();
    for chunk in vertices.chunks_exact(4) {
        for v in chunk {
            assert_eq!(v.pos_a, chunk[0].pos_a);
            assert_eq!(v.pos_b, chunk[0].pos_b);
        }
        let dx = point(chunk[0].pos_b).x - point(chunk[0].pos_a).x;
        let dy = point(chunk[0].pos_b).y - point(chunk[0].pos_a).y;
        let dz = point(chunk[0].pos_b).z - point(chunk[0].pos_a).z;
        let len = (dx * dx + dy * dy + dz * dz).sqrt();
        assert!(
            (len - 1.0).abs() < 1e-5,
            "segment length {len} != 1.0 (a={:?}, b={:?})",
            chunk[0].pos_a,
            chunk[0].pos_b,
        );
    }
}

#[test]
fn unit_cube_segment_sides_and_endpoints_cover_quad() {
    let (vertices, _) = unit_cube_fat_line_geometry();
    for chunk in vertices.chunks_exact(4) {
        let actual: Vec<(f32, f32)> = chunk.iter().map(|v| (f32::from_bits(v.endpoint), f32::from_bits(v.side))).collect();
        assert_eq!(
            actual,
            vec![(0.0, -1.0), (0.0, 1.0), (1.0, -1.0), (1.0, 1.0)],
        );
    }
}

#[test]
fn fan_vertex_count_fits_buffer() {
    let square_tris = SquareGrid::CORNERS_PER_CELL;
    let hex_tris = HexGrid::CORNERS_PER_CELL;
    assert!(3 * square_tris as u64 <= MAX_VERTICES);
    assert!(3 * hex_tris as u64 <= MAX_VERTICES);
}

#[test]
fn outline_vertex_struct_is_pod_size() {
    assert_eq!(std::mem::size_of::<OutlineVertex>(), 28);
}

#[test]
fn the_fan_goes_round_the_cell() {
    let color = [7, 7, 7, 7];
    let mut highlight = CellHighlight::new(color);
    assert_eq!(highlight.draw(), None);
    let corners = [[1, 1], [2, 1], [2, 2]];
    let vertices = highlight.set_cell([5, 5], &corners, 9);
    let points: Vec<[u32; 3]> = vertices.iter().map(|v| v.pos).collect();
    assert_eq!(
        points,
        vec![
            [5, 5, 9],
            [1, 1, 9],
            [2, 1, 9],
            [5, 5, 9],
            [2, 1, 9],
            [2, 2, 9],
            [5, 5, 9],
            [2, 2, 9],
            [1, 1, 9],
        ]
    );
    assert!(vertices.iter().all(|v| v.color == color));
    assert_eq!(highlight.draw(), Some(9));
    highlight.set_color([8, 8, 8, 8]);
    assert_eq!(highlight.set_cell([5, 5], &corners, 9)[0].color, [8, 8, 8, 8]);
    highlight.clear();
    assert_eq!(highlight.draw(), None);
}
