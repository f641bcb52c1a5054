use currawong::render::glb::{encode_glb_u32, encode_unit_cube_glb, position_bounds};
use currawong::render::mesh::{
    decode_mesh_file, y_up_to_z_up, z_up_to_y_up, MeshFile, MeshLoadError, PosNormalUv,
    RawPrimitive,
};
use currawong::render::mesh_load::{decode_gltf_mesh, try_decode_gltf_mesh};
use currawong::render::mesh_primitives::{ConePoint, CylinderPoint, GridPoint, PrimitiveMesh};
use currawong::render::placeholder::{jitter, noisy_solid};
use glam::Vec3;

fn bits3(v: Vec3) -> [u32; 3] {
    v.to_array().map(f32::to_bits)
}

fn point(bits: [u32; 3]) -> Vec3 {
    Vec3::from_array(bits.map(f32::from_bits))
}

fn cube(size: Vec3) -> PrimitiveMesh {
    PrimitiveMesh::cube(bits3(size * 0.5))
}

fn unit_cube_glb() -> Vec<u8> {
    encode_unit_cube_glb(&cube(Vec3::ONE))
}

fn vertex(n: u32) -> PosNormalUv {
    PosNormalUv {
        position: [n, 0, 0],
        normal: [0, 0, 1.0f32.to_bits()],
        uv: [0, 0],
    }
}

fn on_grid(p: GridPoint) -> PosNormalUv {
    vertex(1000 * p.row + p.column)
}

fn indices_in_bounds(mesh: &PrimitiveMesh) -> bool {
    let n = mesh.vertices.len() as u32;
    mesh.indices.iter().all(|&i| i < n)
}

fn vertex_count_is_multiple_of_three(mesh: &PrimitiveMesh) -> bool {
    mesh.indices.len() % 3 == 0
}

#[test]
fn decode_unit_cube_yields_one_primitive_with_expected_counts_and_bounds() {
    let mesh = decode_gltf_mesh(&unit_cube_glb()).expect("unit-cube glb must decode");
    assert_eq!(mesh.primitives.len(), 1, "cube glb has a single primitive");
    let prim = &mesh.primitives[0];
    assert_eq!(prim.vertices.len(), 24, "cube has 6 faces of 4 vertices");
    assert_eq!(prim.indices.len(), 36, "cube has 6 faces of 2 triangles");
    assert_eq!(point(mesh.bounds.min), Vec3::splat(-0.5));
    assert_eq!(point(mesh.bounds.max), Vec3::splat(0.5));
}

#[test]
fn decode_preserves_position_normal_uv_consistency() {
    let mesh = decode_gltf_mesh(&unit_cube_glb()).expect("decode");
    let prim = &mesh.primitives[0];
    for face_start in (0..24).step_by(4) {
        let n0 = prim.vertices[face_start].normal;
        for i in 1..4 {
            assert_eq!(
                prim.vertices[face_start + i].normal,
                n0,
                "face {} vertices must share a normal",
                face_start / 4
            );
        }
    }
}

#[test]
fn written_meshes_load_back() {
    let mesh = cube(Vec3::new(1.6, 1.6, 1.2));
    let (min, max) = position_bounds(&mesh);
    assert_eq!(point(min), Vec3::new(-0.8, -0.6, -0.8));
    assert_eq!(point(max), Vec3::new(0.8, 0.6, 0.8));
    let bytes = encode_glb_u32(
        "box",
        &mesh,
        "[-0.800000,-0.600000,-0.800000]",
        "[0.800000,0.600000,0.800000]",
    );
    let decoded = decode_gltf_mesh(&bytes).expect("decode");
    assert_eq!(decoded.primitives[0].vertices, mesh.vertices);
    assert_eq!(decoded.primitives[0].indices, mesh.indices);
    assert_eq!(decoded.primitives[0].material_name, None);
    assert_eq!(point(decoded.bounds.max), Vec3::new(0.8, 0.8, 0.6));
}

#[test]
fn glb_header_tells_its_length() {
    let bytes = unit_cube_glb();
    assert_eq!(&bytes[..4], b"glTF");
    assert_eq!(bytes[4..8], 2u32.to_le_bytes());
    assert_eq!(bytes[8..12], (bytes.len() as u32).to_le_bytes());
    assert_eq!(&bytes[16..20], b"JSON");
    assert_eq!(bytes.len() % 4, 0);
}

#[test]
fn y_up_to_z_up_rotates_axes_correctly() {
    let flip = |v: [f32; 3]| y_up_to_z_up(v.map(f32::to_bits)).map(f32::from_bits);
    assert_eq!(flip([0.0, 1.0, 0.0]), [0.0, 0.0, 1.0]);
    assert_eq!(flip([0.0, 0.0, 1.0]), [0.0, -1.0, 0.0]);
    assert_eq!(flip([1.0, 0.0, 0.0]), [1.0, 0.0, 0.0]);
}

#[test]
fn frames_turn_back() {
    let v = bits3(Vec3::new(1.0, -2.0, 3.5));
    assert_eq!(y_up_to_z_up(z_up_to_y_up(v)), v);
    assert_eq!(z_up_to_y_up(y_up_to_z_up(v)), v);
}

#[test]
fn parse_garbage_bytes_surfaces_parse_error() {
    let err = decode_gltf_mesh(b"not a real glb").expect_err("garbage must not decode");
    assert!(
        matches!(err, MeshLoadError::Parse(_)),
        "expected Parse, got {err:?}"
    );
    if let MeshLoadError::Parse(inner) = &err {
        assert!(err.message().contains(&inner.to_string()));
    }
}

#[test]
fn missing_blob_rejected_loudly() {
    let json_only = br#"{"asset":{"version":"2.0"},"meshes":[]}"#;
    let err = decode_gltf_mesh(json_only).expect_err("no-blob input must fail");
    assert!(
        matches!(err, MeshLoadError::MissingBinaryBlob),
        "expected MissingBinaryBlob, got {err:?}"
    );
}

#[test]
fn decoding_says_when_a_file_cannot_be_read_safely() {
    assert!(try_decode_gltf_mesh(&unit_cube_glb()).is_some());
    assert!(matches!(
        try_decode_gltf_mesh(b"not a real glb"),
        Some(Err(MeshLoadError::Parse(_)))
    ));
    let mut short = unit_cube_glb();
    short[8..12].copy_from_slice(&11u32.to_le_bytes());
    assert!(try_decode_gltf_mesh(&short).is_none());
}

/// A file whose JSON and binary chunk are given.
fn glb(json: &str, bin: &[u8]) -> Vec<u8> {
    let mut json = json.as_bytes().to_vec();
    while json.len() % 4 != 0 {
        json.push(b' ');
    }
    let mut bin = bin.to_vec();
    while bin.len() % 4 != 0 {
        bin.push(0);
    }
    let mut out = b"glTF".to_vec();
    out.extend(2u32.to_le_bytes());
    out.extend(((12 + 8 + json.len() + 8 + bin.len()) as u32).to_le_bytes());
    out.extend((json.len() as u32).to_le_bytes());
    out.extend(b"JSON");
    out.extend(&json);
    out.extend((bin.len() as u32).to_le_bytes());
    out.extend(b"BIN\0");
    out.extend(&bin);
    out
}

#[test]
fn material_slot_names_are_kept_as_written() {
    // One triangle: positions, normals, texture coordinates, indices.
    let mut bin: Vec<u8> = Vec::new();
    for p in [[0.0f32, 0.0, 0.0], [1.0, 0.0, 0.0], [0.0, 1.0, 0.0]] {
        for c in p {
            bin.extend(c.to_le_bytes());
        }
    }
    for _ in 0..3 {
        for c in [0.0f32, 0.0, 1.0] {
            bin.extend(c.to_le_bytes());
        }
    }
    for uv in [[0.0f32, 0.0], [1.0, 0.0], [0.0, 1.0]] {
        for c in uv {
            bin.extend(c.to_le_bytes());
        }
    }
    for i in [0u32, 1, 2] {
        bin.extend(i.to_le_bytes());
    }
    let json = r#"{"asset":{"version":"2.0"},"scene":0,"scenes":[{"nodes":[0]}],"nodes":[{"mesh":0}],"materials":[{"name":"Lumber"}],"meshes":[{"primitives":[{"attributes":{"POSITION":0,"NORMAL":1,"TEXCOORD_0":2},"indices":3,"mode":4,"material":0}]}],"accessors":[{"bufferView":0,"componentType":5126,"count":3,"type":"VEC3","min":[0,0,0],"max":[1,1,0]},{"bufferView":1,"componentType":5126,"count":3,"type":"VEC3"},{"bufferView":2,"componentType":5126,"count":3,"type":"VEC2"},{"bufferView":3,"componentType":5125,"count":3,"type":"SCALAR"}],"bufferViews":[{"buffer":0,"byteOffset":0,"byteLength":36},{"buffer":0,"byteOffset":36,"byteLength":36},{"buffer":0,"byteOffset":72,"byteLength":24},{"buffer":0,"byteOffset":96,"byteLength":12}],"buffers":[{"byteLength":108}]}"#;
    let mesh = decode_gltf_mesh(&glb(json, &bin)).expect("decode");
    assert_eq!(
        mesh.primitives[0].material_name.as_deref(),
        Some("Lumber")
    );
    assert_eq!(mesh.primitives[0].indices, vec![0, 1, 2]);
    assert_eq!(
        point(mesh.primitives[0].vertices[2].position),
        Vec3::new(0.0, 0.0, 1.0)
    );
    let uv = mesh.primitives[0].vertices[1].uv.map(f32::from_bits);
    assert_eq!(uv, [1.0, 0.0]);
}

#[test]
fn files_outside_the_subset_are_rejected() {
    let skins = r#"{"asset":{"version":"2.0"},"nodes":[{}],"skins":[{"joints":[0]}],"meshes":[],"buffers":[{"byteLength":4}]}"#;
    assert!(matches!(
        decode_gltf_mesh(&glb(skins, &[0; 4])),
        Err(MeshLoadError::Unsupported("skins"))
    ));
    let animations = r#"{"asset":{"version":"2.0"},"animations":[{"channels":[],"samplers":[]}],"meshes":[],"buffers":[{"byteLength":4}]}"#;
    assert!(matches!(
        decode_gltf_mesh(&glb(animations, &[0; 4])),
        Err(MeshLoadError::Unsupported("animations"))
    ));
    let none = r#"{"asset":{"version":"2.0"},"meshes":[],"buffers":[{"byteLength":4}]}"#;
    assert!(matches!(
        decode_gltf_mesh(&glb(none, &[0; 4])),
        Err(MeshLoadError::WrongMeshCount(0))
    ));
}

fn triangle() -> RawPrimitive {
    RawPrimitive {
        positions: Some(vec![[0, 0, 0], [1.0f32.to_bits(), 0, 0], [0, 0, 1.0f32.to_bits()]]),
        normals: Some(vec![[0, 1.0f32.to_bits(), 0]; 3]),
        uvs: Some(vec![[0, 0]; 3]),
        indices: Some(vec![0, 1, 2]),
        material_name: None,
    }
}

fn file(primitives: Vec<RawPrimitive>) -> MeshFile {
    MeshFile {
        has_blob: true,
        skins: 0,
        animations: 0,
        meshes: 1,
        primitives,
    }
}

#[test]
fn every_fault_of_a_mesh_is_told() {
    assert!(decode_mesh_file(file(vec![triangle()])).is_ok());
    let mut f = file(vec![triangle()]);
    f.has_blob = false;
    assert!(matches!(decode_mesh_file(f), Err(MeshLoadError::MissingBinaryBlob)));
    let mut f = file(vec![triangle()]);
    f.animations = 1;
    assert!(matches!(decode_mesh_file(f), Err(MeshLoadError::Unsupported("animations"))));
    let mut f = file(vec![triangle()]);
    f.meshes = 2;
    assert!(matches!(decode_mesh_file(f), Err(MeshLoadError::WrongMeshCount(2))));
    assert!(matches!(
        decode_mesh_file(file(vec![])),
        Err(MeshLoadError::NoPrimitives)
    ));
    let mut t = triangle();
    t.normals = None;
    assert!(matches!(
        decode_mesh_file(file(vec![t])),
        Err(MeshLoadError::MissingAttribute("NORMAL"))
    ));
    let mut t = triangle();
    t.indices = None;
    assert!(matches!(
        decode_mesh_file(file(vec![t])),
        Err(MeshLoadError::MissingIndices)
    ));
    let mut t = triangle();
    t.uvs = Some(vec![[0, 0]]);
    match decode_mesh_file(file(vec![t])) {
        Err(e) => {
            assert!(matches!(
                e,
                MeshLoadError::AttributeCountMismatch { expected: 3, actual: 1, .. }
            ));
            assert!(e.message().contains('3') && e.message().contains('1'));
        }
        Ok(_) => panic!("must fail"),
    }
    let mut t = triangle();
    t.positions = Some(vec![]);
    t.normals = Some(vec![]);
    t.uvs = Some(vec![]);
    assert!(matches!(
        decode_mesh_file(file(vec![t])),
        Err(MeshLoadError::EmptyPrimitive)
    ));
}

#[test]
fn error_message_names_the_missing_attribute() {
    let err = MeshLoadError::MissingAttribute("NORMAL");
    let msg = err.message();
    assert!(msg.contains("NORMAL"), "error should name attribute: {msg}");
    assert!(
        msg.contains("PosNormalUv"),
        "error should name the layout: {msg}"
    );
}

#[test]
fn error_message_names_the_unsupported_feature() {
    let err = MeshLoadError::Unsupported("skins");
    let msg = err.message();
    assert!(msg.contains("skins"), "error should name feature: {msg}");
}

#[test]
fn cube_has_24_verts_and_36_indices() {
    let m = cube(Vec3::ONE);
    assert_eq!(m.vertices.len(), 24);
    assert_eq!(m.indices.len(), 36);
    assert!(indices_in_bounds(&m));
    assert!(vertex_count_is_multiple_of_three(&m));
    assert_eq!(m.index_count(), 36);
}

#[test]
fn cube_extents_match_requested_size() {
    let size = Vec3::new(2.0, 4.0, 6.0);
    let m = cube(size);
    let (mut min, mut max) = (Vec3::splat(f32::INFINITY), Vec3::splat(f32::NEG_INFINITY));
    for v in &m.vertices {
        let p = point(v.position);
        min = min.min(p);
        max = max.max(p);
    }
    assert_eq!(min, -size * 0.5);
    assert_eq!(max, size * 0.5);
}

#[test]
fn cube_face_normals_point_outward() {
    let m = cube(Vec3::ONE);
    for face in 0..6 {
        let n = point(m.vertices[face * 4].normal);
        assert!(
            (n - Vec3::X).length() < 1e-5
                || (n + Vec3::X).length() < 1e-5
                || (n - Vec3::Y).length() < 1e-5
                || (n + Vec3::Y).length() < 1e-5
                || (n - Vec3::Z).length() < 1e-5
                || (n + Vec3::Z).length() < 1e-5,
            "face {face} normal {n:?} is not axis-aligned"
        );
        for k in 1..4 {
            assert_eq!(m.vertices[face * 4 + k].normal, m.vertices[face * 4].normal);
        }
    }
}

#[test]
fn cube_faces_are_wound_outward() {
    let m = cube(Vec3::new(2.0, 4.0, 6.0));
    for t in m.indices.chunks(3) {
        let p: Vec<Vec3> = t.iter().map(|&i| point(m.vertices[i as usize].position)).collect();
        let n = point(m.vertices[t[0] as usize].normal);
        assert!((p[1] - p[0]).cross(p[2] - p[0]).dot(n) > 0.0);
    }
}

#[test]
fn plane_default_has_one_quad() {
    let m = PrimitiveMesh::plane(1, 1, on_grid);
    assert_eq!(m.vertices.len(), 4);
    assert_eq!(m.indices.len(), 6);
    assert!(indices_in_bounds(&m));
}

#[test]
fn plane_subdivided_counts_match_grid() {
    let m = PrimitiveMesh::plane(3, 5, on_grid);
    assert_eq!(m.vertices.len(), 4 * 6);
    assert_eq!(m.indices.len(), 3 * 5 * 6);
    assert!(indices_in_bounds(&m));
    // Row by row.
    assert_eq!(m.vertices[0].position[0], 0);
    assert_eq!(m.vertices[3].position[0], 3);
    assert_eq!(m.vertices[4].position[0], 1000);
}

#[test]
fn plane_zero_segments_clamps_to_one() {
    let m = PrimitiveMesh::plane(0, 0, on_grid);
    assert_eq!(m.vertices.len(), 4);
    assert_eq!(m.indices.len(), 6);
}

#[test]
fn sphere_indices_in_bounds_and_complete() {
    let m = PrimitiveMesh::sphere(16, 8, on_grid);
    assert!(indices_in_bounds(&m));
    assert!(vertex_count_is_multiple_of_three(&m));
    assert_eq!(m.indices.len(), 16 * 8 * 6);
}

fn on_cylinder(p: CylinderPoint) -> PosNormalUv {
    match p {
        CylinderPoint::SideBottom(i) => vertex(i),
        CylinderPoint::SideTop(i) => vertex(100 + i),
        CylinderPoint::TopCentre => vertex(200),
        CylinderPoint::TopRing(i) => vertex(300 + i),
        CylinderPoint::BottomCentre => vertex(400),
        CylinderPoint::BottomRing(i) => vertex(500 + i),
    }
}

#[test]
fn cylinder_without_caps_has_only_sides() {
    let m = PrimitiveMesh::cylinder(8, false, on_cylinder);
    assert_eq!(m.vertices.len(), 18);
    assert_eq!(m.indices.len(), 48);
    assert!(indices_in_bounds(&m));
}

#[test]
fn cylinder_with_caps_adds_two_fans() {
    let m = PrimitiveMesh::cylinder(8, true, on_cylinder);
    assert_eq!(m.vertices.len(), 38);
    assert_eq!(m.indices.len(), 96);
    assert!(indices_in_bounds(&m));
}

fn on_cone(p: ConePoint) -> PosNormalUv {
    match p {
        ConePoint::SlantRing(i) => vertex(i),
        ConePoint::Apex(_) => vertex(9999),
        ConePoint::BaseCentre => vertex(200),
        ConePoint::BaseRing(i) => vertex(300 + i),
    }
}

#[test]
fn cone_slant_only_counts() {
    let m = PrimitiveMesh::cone(8, false, on_cone);
    assert_eq!(m.vertices.len(), 17);
    assert_eq!(m.indices.len(), 24);
    assert!(indices_in_bounds(&m));
}

#[test]
fn cone_with_base_adds_disk() {
    let m = PrimitiveMesh::cone(8, true, on_cone);
    assert_eq!(m.vertices.len(), 27);
    assert_eq!(m.indices.len(), 48);
    assert!(indices_in_bounds(&m));
}

#[test]
fn cone_apex_is_at_top() {
    let m = PrimitiveMesh::cone(6, false, on_cone);
    let apex_start = 7;
    for i in 0..6 {
        assert_eq!(m.vertices[apex_start + i].position[0], 9999);
    }
}

#[test]
fn capsule_vertex_and_index_counts() {
    let m = PrimitiveMesh::capsule(8, 2, on_grid);
    assert_eq!(m.vertices.len(), 54);
    assert_eq!(m.indices.len(), 240);
    assert!(indices_in_bounds(&m));
    assert!(vertex_count_is_multiple_of_three(&m));
}

#[test]
fn noise_repeats_and_stays_in_range() {
    let image = noisy_solid([105, 70, 40, 255], 16, 12);
    assert_eq!(image.len(), 16 * 16 * 4);
    assert_eq!(image, noisy_solid([105, 70, 40, 255], 16, 12));
    let mut distinct = 0;
    for pixel in image.chunks(4) {
        assert!((93..=117).contains(&pixel[0]));
        assert!((58..=82).contains(&pixel[1]));
        assert!((28..=52).contains(&pixel[2]));
        assert_eq!(pixel[3], 255);
        distinct += (pixel[0] != image[0]) as u32;
    }
    assert!(distinct > 0);
}

#[test]
fn noise_is_a_hash_of_the_place() {
    let hash = |x: u32, y: u32, size: u32| {
        let mut h: u64 = 0x9e37_79b9_7f4a_7c15;
        h ^= (x as u64).wrapping_mul(0x2545_f491_4f6c_dd1d);
        h ^= (y as u64).wrapping_mul(0x9e37_79b9_7f4a_7c15);
        h ^= (size as u64).wrapping_mul(0xd1b5_4a32_d192_ed03);
        h ^= h.rotate_left(27);
        (h as i64).wrapping_abs()
    };
    for (x, y, size) in [(0, 0, 16), (3, 7, 16), (u32::MAX, 1, 2), (15, 15, 4096)] {
        assert_eq!(jitter(x, y, size), hash(x, y, size));
    }
}

#[test]
fn positions_without_an_accessor_are_not_decoded() {
    let dangling = r#"{"asset":{"version":"2.0"},"meshes":[{"primitives":[{"attributes":{"POSITION":0}}]}],"buffers":[{"byteLength":4}]}"#;
    assert!(try_decode_gltf_mesh(&glb(dangling, &[0; 4])).is_none());
    assert!(try_decode_gltf_mesh(dangling.as_bytes()).is_none());
    let without = r#"{"asset":{"version":"2.0"},"meshes":[{"primitives":[{"attributes":{}}]}],"buffers":[{"byteLength":4}]}"#;
    assert!(matches!(
        try_decode_gltf_mesh(&glb(without, &[0; 4])),
        Some(Err(MeshLoadError::Parse(_)))
    ));
}

#[test]
fn parse_errors_are_told_with_their_detail() {
    let err = decode_gltf_mesh(b"not a real glb").unwrap_err();
    assert_eq!(err.message_with("odd"), "glTF parse error: odd");
    assert_eq!(
        MeshLoadError::EmptyPrimitive.message_with("odd"),
        "glTF primitive has zero positions"
    );
}

#[test]
fn bounds_touch_the_vertices() {
    let mesh = cube(Vec3::new(1.0, 2.0, 3.0));
    let bytes = encode_glb_u32("box", &mesh, "[-0.5,-1.5,-1.0]", "[0.5,1.5,1.0]");
    let back = decode_gltf_mesh(&bytes).unwrap();
    assert_eq!(back.primitives.len(), 1);
    assert_eq!(back.primitives[0].vertices, mesh.vertices);
    assert_eq!(back.primitives[0].indices, mesh.indices);
    assert_eq!(back.primitives[0].material_name, None);
    assert_eq!(point(back.bounds.min), Vec3::new(-0.5, -1.0, -1.5));
    assert_eq!(point(back.bounds.max), Vec3::new(0.5, 1.0, 1.5));
}

#[test]
fn written_files_come_back_whatever_their_label() {
    let corner = "[-340282346638528859811704183484516925440.000000,0.0,9999999999999999999999999999999999999999.9999999999999999999999999999999999999999]";
    for label in ["", "\u{e9}t\u{e9} \u{1f333}\u{7f}", "{[,:]}", "a b'/"] {
        let mesh = PrimitiveMesh {
            vertices: vec![PosNormalUv {
                position: bits3(Vec3::new(f32::MAX, -0.0, f32::MIN_POSITIVE)),
                normal: bits3(Vec3::new(f32::INFINITY, f32::NEG_INFINITY, 1.0e-45)),
                uv: [0.25f32.to_bits(), (-3.5f32).to_bits()],
            }],
            indices: vec![0, u32::MAX, 0x0102_0304],
        };
        let bytes = encode_glb_u32(label, &mesh, corner, "[0.0,-0.5,12.25]");
        let back = match try_decode_gltf_mesh(&bytes) {
            Some(Ok(back)) => back,
            other => panic!("{label:?}: {other:?}"),
        };
        assert_eq!(back.primitives.len(), 1);
        assert_eq!(back.primitives[0].vertices, mesh.vertices);
        assert_eq!(back.primitives[0].indices, mesh.indices);
        assert_eq!(back.primitives[0].material_name, None);
        assert_eq!(back.bounds.min, mesh.vertices[0].position);
        assert_eq!(back.bounds.max, mesh.vertices[0].position);
    }
}
