use currawong::render::mesh::Aabb;
use currawong::render::render_object::{
    MeshPart, NodeId, NodeKind, RenderRegistry, RenderTemplate, TemplateNode,
};
use glam::{Mat4, Vec3};

fn bits16(m: Mat4) -> [u32; 16] {
    m.to_cols_array().map(f32::to_bits)
}

fn bits3(v: Vec3) -> [u32; 3] {
    v.to_array().map(f32::to_bits)
}

#[derive(Clone, Copy, PartialEq, Eq, Hash, Debug)]
enum RenderId {
    TreeOak,
    Campfire,
}

#[test]
fn empty_registry_has_no_templates() {
    let reg: RenderRegistry<RenderId> = RenderRegistry::new();
    assert!(reg.is_empty());
    assert_eq!(reg.len(), 0);
    assert!(reg.get(&RenderId::TreeOak).is_none());
}

#[test]
fn register_then_lookup_returns_template() {
    let mut reg: RenderRegistry<RenderId> = RenderRegistry::new();
    reg.register(RenderId::TreeOak, RenderTemplate::new("tree_oak"));

    assert_eq!(reg.len(), 1);
    assert_eq!(
        reg.get(&RenderId::TreeOak).map(|t| t.label()),
        Some("tree_oak")
    );
    assert!(reg.get(&RenderId::Campfire).is_none());
}

#[test]
fn re_register_replaces_template() {
    let mut reg: RenderRegistry<RenderId> = RenderRegistry::new();
    reg.register(RenderId::TreeOak, RenderTemplate::new("first"));
    reg.register(RenderId::TreeOak, RenderTemplate::new("second"));

    assert_eq!(reg.len(), 1);
    assert_eq!(
        reg.get(&RenderId::TreeOak).map(|t| t.label()),
        Some("second")
    );
}

#[derive(Clone, Copy, PartialEq, Eq, Hash, Debug)]
enum TestMesh {
    Cube,
    Plane,
}

#[derive(Clone, Copy, PartialEq, Eq, Hash, Debug)]
enum TestMat {
    Wood,
    Stone,
}

#[test]
fn template_has_no_nodes_by_default() {
    let t: RenderTemplate<TestMesh, TestMat> = RenderTemplate::new("bare");
    assert!(t.nodes().is_empty());
    assert!(t.roots().is_empty());
    assert_eq!(t.node_count(), 0);
}

#[test]
fn with_mesh_part_creates_root_mesh_node() {
    let t: RenderTemplate<TestMesh, TestMat> = RenderTemplate::new("campfire")
        .with_mesh_part(TestMesh::Cube, TestMat::Wood, bits16(Mat4::IDENTITY))
        .with_mesh_part(
            TestMesh::Plane,
            TestMat::Stone,
            bits16(Mat4::from_translation(Vec3::new(0.0, -0.5, 0.0))),
        );

    let nodes = t.nodes();
    assert_eq!(nodes.len(), 2);
    match &nodes[0].kind {
        NodeKind::Mesh(p) => {
            assert_eq!(p.mesh, TestMesh::Cube);
            assert_eq!(p.material, TestMat::Wood);
        }
        _ => panic!("expected mesh node"),
    }
    assert_eq!(f32::from_bits(nodes[1].local_transform[13]), -0.5);
    assert_eq!(t.roots(), &[0, 1]);
}

#[test]
fn with_node_builds_hierarchy() {
    let root = NodeId(0);
    let mesh = NodeId(1);
    let attach = NodeId(2);
    let t: RenderTemplate<TestMesh, TestMat> = RenderTemplate::new("rig")
        .with_node(TemplateNode::empty(root, "root".to_owned(), None, bits16(Mat4::IDENTITY)))
        .with_node(TemplateNode::mesh(mesh, "body".to_owned(),
            Some(root),
            bits16(Mat4::IDENTITY),
            MeshPart::new(TestMesh::Cube, TestMat::Wood),
        ))
        .with_node(TemplateNode::empty(attach, "attach".to_owned(),
            Some(root),
            bits16(Mat4::from_translation(Vec3::Z)),
        ));

    assert_eq!(t.slot_of(root), Some(0));
    assert_eq!(t.slot_of(mesh), Some(1));
    assert_eq!(t.slot_of(attach), Some(2));
    assert_eq!(t.slot_of(NodeId(99)), None);
    assert_eq!(t.roots(), &[0]);
    assert_eq!(t.children(0), &[1, 2]);
    assert!(t.children(1).is_empty());
}

#[test]
fn next_free_node_id_skips_holes_lowest_first() {
    let t: RenderTemplate<TestMesh, TestMat> = RenderTemplate::new("t")
        .with_node(TemplateNode::empty(NodeId(0), "a".to_owned(), None, bits16(Mat4::IDENTITY)))
        .with_node(TemplateNode::empty(NodeId(2), "c".to_owned(), None, bits16(Mat4::IDENTITY)));
    assert_eq!(t.next_free_node_id(), NodeId(1));
}

#[derive(Clone, Copy, PartialEq, Eq, Hash, Debug)]
enum TestEmitter {
    Flame,
    Smoke,
}

#[derive(Clone, Copy, PartialEq, Eq, Hash, Debug)]
enum TestEmitterSlot {
    Main,
    Secondary,
}

#[test]
fn with_emitter_part_creates_root_emitter_node() {
    let t: RenderTemplate<(), (), TestEmitter, TestEmitterSlot> =
        RenderTemplate::new("campfire")
            .with_emitter_part(
                TestEmitter::Flame,
                TestEmitterSlot::Main,
                bits16(Mat4::from_translation(Vec3::new(0.0, 0.45, 0.0))),
            )
            .with_emitter_part(
                TestEmitter::Smoke,
                TestEmitterSlot::Secondary,
                bits16(Mat4::from_translation(Vec3::new(0.0, 0.85, 0.0))),
            );

    let nodes = t.nodes();
    assert_eq!(nodes.len(), 2);
    match &nodes[0].kind {
        NodeKind::Emitter(p) => {
            assert_eq!(p.template, TestEmitter::Flame);
            assert_eq!(p.attachment, TestEmitterSlot::Main);
        }
        _ => panic!("expected emitter node"),
    }
    assert_eq!(f32::from_bits(nodes[1].local_transform[13]), 0.85);
}

#[test]
fn template_can_carry_all_node_kinds() {
    let t: RenderTemplate<TestMesh, TestMat, TestEmitter, TestEmitterSlot> =
        RenderTemplate::new("rich")
            .with_mesh_part(TestMesh::Cube, TestMat::Wood, bits16(Mat4::IDENTITY))
            .with_emitter_part(TestEmitter::Flame, TestEmitterSlot::Main, bits16(Mat4::IDENTITY));

    assert_eq!(t.nodes().len(), 2);
    assert!(matches!(t.nodes()[0].kind, NodeKind::Mesh(_)));
    assert!(matches!(t.nodes()[1].kind, NodeKind::Emitter(_)));
}

#[test]
fn visual_bounds_default_to_none() {
    let t: RenderTemplate = RenderTemplate::new("bare");
    assert!(t.visual_bounds().is_none());
}

#[test]
fn with_visual_bounds_records_the_aabb() {
    let bounds = Aabb::new(bits3(Vec3::new(-1.0, 0.0, -1.0)), bits3(Vec3::new(1.0, 2.5, 1.0)));
    let t: RenderTemplate = RenderTemplate::new("campfire").with_visual_bounds(bounds);
    assert_eq!(t.visual_bounds(), Some(bounds));
}

#[test]
fn nodes_with_a_taken_id_or_a_missing_parent_are_not_accepted() {
    let t = RenderTemplate::<TestMesh, TestMat>::new("dup").with_node(TemplateNode::empty(
        NodeId(0),
        "a".to_owned(),
        None,
        bits16(Mat4::IDENTITY),
    ));
    assert!(!t.accepts(NodeId(0), None));
    assert!(!t.accepts(NodeId(1), Some(NodeId(7))));
    assert!(t.accepts(NodeId(1), Some(NodeId(0))));
    assert!(t.node(NodeId(0)).is_some());
    assert!(t.node(NodeId(1)).is_none());
}

#[test]
fn parts_take_the_lowest_free_id() {
    let t = RenderTemplate::<TestMesh, TestMat>::new("t")
        .with_node(TemplateNode::empty(
            NodeId(1),
            "one".to_owned(),
            None,
            bits16(Mat4::IDENTITY),
        ))
        .with_mesh_part(TestMesh::Cube, TestMat::Wood, bits16(Mat4::IDENTITY))
        .with_mesh_part(TestMesh::Plane, TestMat::Stone, bits16(Mat4::IDENTITY));
    let ids: Vec<u16> = t.nodes().iter().map(|n| n.id.0).collect();
    assert_eq!(ids, vec![1, 0, 2]);
    assert!(t.nodes()[1].name.ends_with('0'));
}
