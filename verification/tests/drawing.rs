use currawong::data::path::VfsPath;
use currawong::render::instance::InstanceBuckets;
use currawong::render::material_id::MaterialId;
use currawong::render::material_registry::MaterialRegistry;
use currawong::render::mesh::Aabb;
use currawong::render::mesh_draw::{ActivePipeline, DrawStep, MeshDraw, PrimitiveInfo};
use currawong::render::mesh_template::{
    build_hierarchical_render_template, fallback_bounds, MeshBacking, MeshLoad, MeshNodeSpec,
    MeshSource, MeshTemplate, NodeFault, NodeSpec, RenderSpec, ResolvedMesh, SpecPathError,
    TransformSpec, DEFAULT_ROUGHNESS, IDENTITY,
};
use currawong::data::path::VfsPathError;
use currawong::render::handle::Handle;
use currawong::render::node_kind;
use currawong::render::pipeline::{
    highlight_pipeline, id_target_opt_out, id_target_writer, Attachments, Blend, DepthTest, Face,
    FatLineMaterial, GroupRole, LineMaterial, PbrAtlasMaterial, PbrMaterial, PipelinePlan, ShadowMeshPipeline,
    Topology, UnlitColoredMaterial, Visibility, BindingKind,
};
use currawong::render::render_object::NodeKind;
use currawong::render::scene_resources::{
    camera_layout, choose_format, id_base_layout, scene_layout, scene_uniform, AttachmentPlan,
    AddressMode, FilterMode, ShadowPlan, SunCascades, SurfaceConfig, ViewEnvironment,
};
use glam::{Mat4, Vec3};
use std::collections::HashMap;

fn bits3(v: Vec3) -> [u32; 3] {
    v.to_array().map(f32::to_bits)
}

const FORMATS: Attachments<&str> = Attachments {
    surface: "bgra8",
    id: "r32uint",
    depth: Some("depth32"),
};

/// Locations count up through the buffers, and attributes do not meet.
fn check_buffers<F>(plan: &PipelinePlan<F>) {
    let mut location = 0;
    for buffer in &plan.buffers {
        let mut offset = 0;
        for attribute in &buffer.attributes {
            assert_eq!(attribute.shader_location, location);
            assert!(attribute.offset >= offset);
            offset = attribute.offset + 4;
            location += 1;
        }
        assert!(offset <= buffer.array_stride);
    }
}

#[test]
fn lit_materials_share_their_pipeline() {
    let pbr = PbrMaterial::new(FORMATS);
    let atlas = PbrAtlasMaterial::new(FORMATS);
    for plan in [&pbr.pipeline, &atlas.pipeline] {
        check_buffers(plan);
        assert_eq!(
            plan.groups,
            vec![GroupRole::Camera, GroupRole::Scene, GroupRole::MaterialInstance]
        );
        assert_eq!(plan.targets[0].format, "bgra8");
        assert_eq!(plan.targets[0].blend, Some(Blend::Replace));
        assert_eq!(plan.targets[1].format, "r32uint");
        assert!(plan.targets[1].writes);
        assert_eq!(plan.depth.unwrap().format, "depth32");
        assert!(plan.depth.unwrap().writes);
        assert_eq!(plan.buffers[0].array_stride, 32);
        assert_eq!(plan.buffers[1].array_stride, 84);
    }
    assert_eq!(pbr.pipeline.label, "Pbr pipeline");
    assert_eq!(pbr.pipeline.layout_label, "Pbr pipeline layout");
    assert_eq!(atlas.pipeline.label, "PbrAtlas pipeline");
    assert_eq!(pbr.instance_layout[0].kind, BindingKind::UniformBuffer);
    assert_eq!(atlas.instance_layout[0].kind, BindingKind::FloatTexture);
    assert_eq!(atlas.instance_layout[2].kind, BindingKind::FilteringSampler);
}

#[test]
fn unlit_materials_draw_triangles_or_lines() {
    let unlit = UnlitColoredMaterial::new(FORMATS);
    let line = LineMaterial::new(FORMATS);
    check_buffers(&unlit.pipeline);
    check_buffers(&line.pipeline);
    assert_eq!(unlit.pipeline.topology, Topology::TriangleList);
    assert_eq!(line.pipeline.topology, Topology::LineList);
    assert_eq!(line.pipeline.groups.len(), 2);
    assert_eq!(line.pipeline.buffers[0].array_stride, 12);
    assert_eq!(line.instance_layout.len(), 1);
    let fat = FatLineMaterial::new(FORMATS);
    check_buffers(&fat.pipeline);
    assert_eq!(fat.instance_layout[0].visibility, Visibility::VertexFragment);
    assert_eq!(fat.pipeline.buffers[1].attributes[0].shader_location, 4);
}

#[test]
fn pipelines_leave_out_depth_where_there_is_none() {
    let flat = Attachments {
        depth: None,
        ..FORMATS
    };
    assert!(PbrMaterial::new(flat).pipeline.depth.is_none());
    assert!(highlight_pipeline(flat).depth.is_none());
}

#[test]
fn the_highlight_changes_neither_depths_nor_ids() {
    let plan = highlight_pipeline(FORMATS);
    check_buffers(&plan);
    assert_eq!(plan.targets[0].blend, Some(Blend::Alpha));
    assert!(!plan.targets[1].writes);
    assert!(!plan.depth.unwrap().writes);
    assert_eq!(plan.buffers[0].array_stride, 28);
    assert!(id_target_writer(1).writes);
    assert!(!id_target_opt_out(1).writes);
}

#[test]
fn shadows_are_depths_alone() {
    let shadow = ShadowMeshPipeline::new("depth32");
    check_buffers(&shadow.pipeline);
    assert!(shadow.pipeline.targets.is_empty());
    assert_eq!(shadow.pipeline.cull, Some(Face::Front));
    let bias = shadow.pipeline.depth.unwrap().bias;
    assert_eq!(bias.constant, 2);
    assert_eq!(f32::from_bits(bias.slope_scale), 2.0);
}

#[test]
fn shadow_maps_are_there_even_without_shadows() {
    let plan = ShadowPlan::new("depth32", None);
    assert_eq!((plan.map.width, plan.map.height, plan.map.layers), (1, 1, 4));
    assert_eq!(plan.layer_views, vec![0, 1, 2, 3]);
    assert_eq!(plan.clear_first, vec![0, 1, 2, 3]);
    assert_eq!(plan.sampler.passes, DepthTest::LessEqual);
    assert_eq!(plan.sampler.address, AddressMode::ClampToEdge);
    assert_eq!(
        (plan.sampler.magnify, plan.sampler.minify, plan.sampler.mipmap),
        (FilterMode::Linear, FilterMode::Linear, FilterMode::Nearest)
    );
    let plan = ShadowPlan::new("depth32", Some(2048));
    assert_eq!((plan.map.width, plan.resolution), (2048, Some(2048)));
}

#[test]
fn surfaces_have_at_least_one_pixel() {
    let mut config = SurfaceConfig::new("bgra8", 0, 600);
    assert_eq!(config.surface_size(), (1, 600));
    config.resize(800, 0);
    assert_eq!(config.surface_size(), (800, 1));
    let mut plan = AttachmentPlan::new(800, 0, Some("depth32"), "r32uint");
    assert_eq!((plan.id.width, plan.id.height), (800, 1));
    assert!(plan.id.copied);
    plan.resize(20, 30);
    assert_eq!(plan.depth_format(), Some("depth32"));
    assert_eq!(plan.depth.unwrap().width, 20);
    assert_eq!(plan.id.format, "r32uint");
}

#[test]
fn the_first_srgb_format_is_chosen() {
    let is_srgb = |f: &&str| f.ends_with("srgb");
    assert_eq!(choose_format(&vec!["a", "b-srgb", "c-srgb"], is_srgb), "b-srgb");
    assert_eq!(choose_format(&vec!["a", "b"], is_srgb), "a");
}

#[test]
fn shared_layouts_are_numbered() {
    for layout in [camera_layout(), id_base_layout(), scene_layout()] {
        for (i, entry) in layout.iter().enumerate() {
            assert_eq!(entry.binding, i as u32);
        }
    }
    assert_eq!(scene_layout()[1].kind, BindingKind::DepthTextureArray);
    assert_eq!(scene_layout()[2].kind, BindingKind::ComparisonSampler);
}

#[test]
fn the_scene_is_packed_for_shaders() {
    let mut env = ViewEnvironment::neutral();
    assert_eq!(env.sky_color.map(f32::from_bits), [0.05, 0.07, 0.10]);
    env.sun_cascades.splits = [1, 2, 3, 4];
    env.sun_cascades.matrices[2][5] = 77;
    let words = scene_uniform(&env);
    assert_eq!(words.len(), 84);
    assert_eq!(words[..4], [0, 0, 1.0f32.to_bits(), 0]);
    assert_eq!(words[8..12], [1.0f32.to_bits(), 1.0f32.to_bits(), 1.0f32.to_bits(), 0]);
    assert_eq!(words[16 + 2 * 16 + 5], 77);
    assert_eq!(words[80..], [1, 2, 3, 4]);
    assert_eq!(SunCascades::disabled().splits, [0; 4]);
    assert_eq!(SunCascades::default(), SunCascades::disabled());
    assert_eq!(
        SunCascades::disabled().matrices[0].map(f32::from_bits),
        Mat4::IDENTITY.to_cols_array()
    );
}

#[test]
fn buckets_take_up_to_their_capacity() {
    let mut buckets: InstanceBuckets<u8, u32, &str> = InstanceBuckets::new("trees", 2);
    buckets.register(1, "buffer one");
    buckets.register(2, "buffer two");
    buckets.begin_frame();
    assert!(buckets.iter_filled().is_empty());
    for i in 0..3 {
        buckets.push(2, i);
    }
    let filled = buckets.iter_filled();
    assert_eq!(filled.len(), 1);
    assert_eq!((filled[0].0, *filled[0].1, filled[0].2), (2, "buffer two", 2));
    let upload = buckets.upload();
    assert_eq!(upload.len(), 1);
    assert_eq!(*upload[0].1, vec![0, 1]);
    buckets.push(1, 9);
    assert_eq!(buckets.iter_filled().len(), 2);
    buckets.register(2, "buffer three");
    assert_eq!(buckets.iter_filled().len(), 1);
    buckets.begin_frame();
    assert!(buckets.upload().is_empty());
    assert_eq!(buckets.capacity(), 2);
    assert_eq!(buckets.label(), "trees");
    assert_eq!(buckets.buffer_size(84), 168);
}

fn info(name: Option<&str>, index_count: u32) -> PrimitiveInfo {
    PrimitiveInfo {
        material_name: name.map(|n| n.to_owned()),
        index_count,
    }
}

#[test]
fn pipelines_are_set_where_they_change() {
    let mut atlas = MaterialRegistry::new();
    atlas.register(MaterialId::new("gltf:bark").unwrap(), ());
    let mut buckets: InstanceBuckets<u8, u32, ()> = InstanceBuckets::new("trees", 8);
    for key in 0..3 {
        buckets.register(key, ());
        buckets.push(key, 0);
    }
    buckets.push(0, 1);
    // Bucket 1 has no template.
    let templates = HashMap::from([(0u8, 0u8), (2u8, 2u8)]);
    let primitives_of = |t: &u8| {
        if *t == 0 {
            vec![info(None, 3), info(Some("Bark"), 6), info(Some("gltf:bark"), 9)]
        } else {
            vec![info(Some("Leaves"), 12)]
        }
    };
    let steps = MeshDraw::pbr_with_atlas(&atlas, &templates, &buckets, primitives_of);
    let (pbr, own) = (ActivePipeline::Pbr, ActivePipeline::Atlas);
    assert_eq!(
        steps,
        vec![
            DrawStep::BindInstances { bucket: 0 },
            DrawStep::SetPipeline { pipeline: pbr },
            DrawStep::BindOwnMaterial { bucket: 0 },
            DrawStep::Draw { bucket: 0, primitive: 0, index_count: 3, instances: 2 },
            DrawStep::SetPipeline { pipeline: own },
            DrawStep::BindAtlasMaterial { bucket: 0, primitive: 1 },
            DrawStep::Draw { bucket: 0, primitive: 1, index_count: 6, instances: 2 },
            DrawStep::BindAtlasMaterial { bucket: 0, primitive: 2 },
            DrawStep::Draw { bucket: 0, primitive: 2, index_count: 9, instances: 2 },
            DrawStep::BindInstances { bucket: 2 },
            DrawStep::SetPipeline { pipeline: pbr },
            DrawStep::BindOwnMaterial { bucket: 2 },
            DrawStep::Draw { bucket: 2, primitive: 0, index_count: 12, instances: 1 },
        ]
    );
    let depths = MeshDraw::depth_only(&templates, &buckets, primitives_of);
    assert_eq!(
        depths,
        vec![
            DrawStep::BindInstances { bucket: 0 },
            DrawStep::Draw { bucket: 0, primitive: 0, index_count: 3, instances: 2 },
            DrawStep::Draw { bucket: 0, primitive: 1, index_count: 6, instances: 2 },
            DrawStep::Draw { bucket: 0, primitive: 2, index_count: 9, instances: 2 },
            DrawStep::BindInstances { bucket: 2 },
            DrawStep::Draw { bucket: 2, primitive: 0, index_count: 12, instances: 1 },
        ]
    );
}

fn spec(nodes: Vec<NodeSpec>) -> RenderSpec {
    RenderSpec {
        shape: "tree".to_owned(),
        mesh: "trees/oak.glb".to_owned(),
        albedo: "trees/oak_bark.png".to_owned(),
        metallic: 0.0f32.to_bits(),
        roughness: 0.9f32.to_bits(),
        bounds_min: bits3(Vec3::new(-0.6, -0.6, 0.0)),
        bounds_max: bits3(Vec3::new(0.6, 0.6, 3.4)),
        nodes,
    }
}

#[test]
fn render_spec_visual_bounds_round_trips() {
    let bounds = spec(Vec::new()).visual_bounds();
    assert_eq!(bounds.min, bits3(Vec3::new(-0.6, -0.6, 0.0)));
    assert_eq!(bounds.max, bits3(Vec3::new(0.6, 0.6, 3.4)));
}

fn node(id: u16, parent: Option<u16>, kind: &str, mesh: Option<(&str, Option<&str>)>) -> NodeSpec {
    NodeSpec {
        id,
        name: format!("node {id}"),
        parent,
        transform: TransformSpec::default(),
        kind: kind.to_owned(),
        mesh: mesh.map(|(mesh, albedo)| MeshNodeSpec {
            mesh: mesh.to_owned(),
            albedo: albedo.map(|a| a.to_owned()),
            metallic: 1,
            roughness: DEFAULT_ROUGHNESS,
        }),
    }
}

#[test]
fn render_blocks_with_nodes_become_templates() {
    let spec = spec(vec![
        node(0, None, node_kind::MESH, Some(("a.glb", Some("a.png")))),
        node(5, Some(0), node_kind::EMPTY, None),
        node(2, Some(5), node_kind::MESH, Some(("b.glb", None))),
        node(3, None, node_kind::MESH, Some(("a.glb", Some("other.png")))),
        node(4, None, node_kind::MESH, None),
        node(6, None, "emitter", None),
        node(7, None, node_kind::MESH, Some(("../x.glb", None))),
        node(8, None, node_kind::MESH, Some(("c.glb", Some("/bad.png")))),
    ]);
    assert!(spec.nodes_in_order());
    let fallback = VfsPath::new("white.png").unwrap();
    let mut known: HashMap<String, String> = HashMap::new();
    let template = build_hierarchical_render_template(
        "rig",
        &spec,
        |p: VfsPath| p.as_str().to_owned(),
        |_: &TransformSpec| IDENTITY,
        |load: &MeshLoad| format!("{} {}", load.mesh.as_str(), load.albedo.as_str()),
        &fallback,
        &mut known,
    );
    assert_eq!(template.label(), "rig");
    assert_eq!(template.node_count(), 8);
    assert_eq!(template.visual_bounds(), Some(spec.visual_bounds()));
    let meshes: Vec<Option<&str>> = template
        .nodes()
        .iter()
        .map(|n| match &n.kind {
            NodeKind::Mesh(part) => Some(part.mesh.as_str()),
            _ => None,
        })
        .collect();
    assert_eq!(
        meshes,
        vec![
            Some("a.glb"),
            None,
            Some("b.glb"),
            Some("a.glb"),
            None,
            None,
            None,
            Some("c.glb")
        ]
    );
    // The first node with a mesh decides how it is loaded.
    assert_eq!(known.len(), 3);
    assert_eq!(known["a.glb"], "a.glb a.png");
    assert_eq!(known["b.glb"], "b.glb white.png");
    assert_eq!(known["c.glb"], "c.glb white.png");
    assert_eq!(template.nodes()[2].name, "node 2");
    assert_eq!(spec.nodes[4].mesh_path(), Err(NodeFault::MissingMesh));
    assert_eq!(spec.nodes[5].mesh_path(), Err(NodeFault::UnknownKind));
    assert_eq!(
        spec.nodes[6].mesh_path(),
        Err(NodeFault::BadMeshPath(VfsPathError::ParentTraversal))
    );
    assert_eq!(spec.nodes[1].mesh_path(), Ok(None));
}

#[test]
fn nodes_out_of_order_are_told() {
    let late = spec(vec![node(1, Some(0), "empty", None), node(0, None, "empty", None)]);
    assert!(!late.nodes_in_order());
    let twice = spec(vec![node(1, None, "empty", None), node(1, None, "empty", None)]);
    assert!(!twice.nodes_in_order());
}

#[test]
fn bodies_need_both_paths() {
    let load = spec(Vec::new()).body().unwrap();
    assert_eq!(load.mesh.as_str(), "trees/oak.glb");
    assert_eq!(load.albedo.as_str(), "trees/oak_bark.png");
    let mut bad = spec(Vec::new());
    bad.albedo = "/x".to_owned();
    assert_eq!(
        bad.body().unwrap_err(),
        SpecPathError::Albedo(VfsPathError::Absolute)
    );
    bad.mesh = String::new();
    assert_eq!(
        bad.body().unwrap_err(),
        SpecPathError::Mesh(VfsPathError::Empty)
    );
}

#[test]
fn inline_meshes_are_drawn_as_they_are() {
    let inline: MeshTemplate<u8, u8, ()> = MeshTemplate {
        mesh: MeshBacking::Inline {
            primitives: vec![1, 2],
        },
        visual_bounds: fallback_bounds(),
        material: (),
    };
    let never = |_: &Handle<u8>, _: Aabb| -> ResolvedMesh<'_, u8> { panic!("not streamed") };
    let resolved = inline.resolve(never);
    assert_eq!(*resolved.primitives, vec![1, 2]);
    assert_eq!(resolved.source, MeshSource::Real);
    assert_eq!(
        resolved.fallback_adjustment.map(f32::from_bits),
        Mat4::IDENTITY.to_cols_array()
    );
}

#[test]
fn default_transforms_change_nothing() {
    let t = TransformSpec::default();
    assert_eq!(t.translation, [0; 3]);
    assert_eq!(t.rotation.map(f32::from_bits), [0.0, 0.0, 0.0, 1.0]);
    assert_eq!(t.scale.map(f32::from_bits), [1.0; 3]);
    assert_eq!(f32::from_bits(DEFAULT_ROUGHNESS), 0.85);
    assert_eq!(fallback_bounds().max.map(f32::from_bits), [0.5; 3]);
}

#[test]
fn every_pipeline_draws_what_is_nearer() {
    let depths = [
        UnlitColoredMaterial::new(FORMATS).pipeline.depth,
        LineMaterial::new(FORMATS).pipeline.depth,
        FatLineMaterial::new(FORMATS).pipeline.depth,
        PbrMaterial::new(FORMATS).pipeline.depth,
        PbrAtlasMaterial::new(FORMATS).pipeline.depth,
        highlight_pipeline(FORMATS).depth,
        ShadowMeshPipeline::new("depth32").pipeline.depth,
    ];
    for depth in depths {
        assert_eq!(depth.unwrap().passes, DepthTest::Less);
    }
}

#[test]
fn bad_albedo_paths_are_told() {
    let node = |albedo: Option<&str>| node(1, None, node_kind::MESH, Some(("a.glb", albedo)));
    assert_eq!(node(None).albedo_fault(), None);
    assert_eq!(node(Some("a.png")).albedo_fault(), None);
    assert_eq!(
        node(Some("")).albedo_fault(),
        VfsPath::new("").err()
    );
    assert!(node(Some("")).albedo_fault().is_some());
    let fallback = VfsPath::new("grey.png").unwrap();
    assert_eq!(node(Some("")).albedo_path(&fallback).as_str(), "grey.png");
}
