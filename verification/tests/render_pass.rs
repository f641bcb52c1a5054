use currawong::render::live_render_objects::{
    LiveEntry, LiveRenderObject, LiveRenderObjects, PartState,
};
use currawong::data::KindId;
use currawong::render::mesh::Aabb;
use currawong::render::picking_buffer::{FrameIdTable, HitTarget};
use currawong::render::render_object::{NodeKind, RenderRegistry, RenderTemplate};
use currawong::render::render_object_pass::{PartDraw, PlacedObject, RenderObjectPass};
use currawong::sim::{WorldObjectId, WorldObjectRef, ZoneId};
use glam::{Mat4, Vec3};

#[derive(Clone, Copy, PartialEq, Eq, Hash, Debug)]
enum Rid {
    Tree,
    Rock,
}

fn bits16(m: Mat4) -> [u32; 16] {
    m.to_cols_array().map(f32::to_bits)
}

fn bits3(v: Vec3) -> [u32; 3] {
    v.to_array().map(f32::to_bits)
}

fn always_inside(_: &Aabb) -> bool {
    true
}

fn always_outside(_: &Aabb) -> bool {
    false
}

fn stay(aabb: &Aabb, _: &[u32; 16]) -> Aabb {
    *aabb
}

fn object(index: u32, render_id: Option<Rid>, position: Vec3) -> PlacedObject<Rid> {
    PlacedObject {
        parent: WorldObjectRef {
            zone: ZoneId::from_raw(0, 0),
            id: WorldObjectId::from_raw(index, 0),
        },
        render_id,
        world_xform: bits16(Mat4::from_translation(position)),
    }
}

fn tree_template() -> RenderTemplate {
    RenderTemplate::new("tree").with_visual_bounds(Aabb::new(
        bits3(Vec3::new(-0.5, -0.5, 0.0)),
        bits3(Vec3::new(0.5, 0.5, 2.0)),
    ))
}

fn shown(entry: &LiveEntry<Rid>) -> LiveRenderObject {
    LiveRenderObject {
        world_xform: entry.object.world_xform,
        world_aabb: entry.object.world_aabb,
        frames_since_visible: entry.object.frames_since_visible,
        declared_this_frame: entry.object.declared_this_frame,
        root_visible: entry.object.root_visible,
        mesh_parts: entry.object.mesh_parts.iter().map(|p| PartState { visible: p.visible }).collect(),
        emitter_parts: entry.object.emitter_parts.iter().map(|p| PartState { visible: p.visible }).collect(),
    }
}

fn hidden(entry: &LiveEntry<Rid>) -> LiveRenderObject {
    LiveRenderObject {
        root_visible: false,
        ..shown(entry)
    }
}

fn mesh_of(templates: &RenderRegistry<Rid, u32, u32, u32, u32>, draw: &PartDraw) -> u32 {
    match &templates.get(&Rid::Tree).unwrap().nodes()[draw.slot as usize].kind {
        NodeKind::Mesh(part) => part.mesh,
        NodeKind::Emitter(part) => part.template,
        NodeKind::Empty => panic!("drew an empty node"),
    }
}

#[test]
fn declare_and_cull_creates_proxy_per_render_id() {
    let objects = vec![
        object(0, Some(Rid::Tree), Vec3::ZERO),
        object(1, Some(Rid::Tree), Vec3::new(2.0, 0.0, 0.0)),
    ];
    let mut templates: RenderRegistry<Rid> = RenderRegistry::new();
    templates.register(Rid::Tree, tree_template());

    let mut live = LiveRenderObjects::<Rid>::new(30);
    RenderObjectPass::declare_and_cull(&objects, &templates, &mut live, stay, always_inside);

    assert_eq!(live.len(), 2);
}

#[test]
fn declare_and_cull_skips_objects_without_render_id() {
    let objects = vec![object(0, None, Vec3::ZERO)];
    let mut templates: RenderRegistry<Rid> = RenderRegistry::new();
    templates.register(Rid::Tree, tree_template());

    let mut live = LiveRenderObjects::<Rid>::new(30);
    RenderObjectPass::declare_and_cull(&objects, &templates, &mut live, stay, always_inside);

    assert!(live.is_empty());
}

#[test]
fn declare_and_cull_skips_objects_without_template() {
    let objects = vec![object(0, Some(Rid::Rock), Vec3::ZERO)];
    let mut templates: RenderRegistry<Rid> = RenderRegistry::new();
    templates.register(Rid::Tree, tree_template());

    let mut live = LiveRenderObjects::<Rid>::new(30);
    RenderObjectPass::declare_and_cull(&objects, &templates, &mut live, stay, always_inside);

    assert!(live.is_empty());
}

#[test]
fn declare_and_cull_drops_offscreen_first_time() {
    let objects = vec![object(0, Some(Rid::Tree), Vec3::ZERO)];
    let mut templates: RenderRegistry<Rid> = RenderRegistry::new();
    templates.register(Rid::Tree, tree_template());

    let mut live = LiveRenderObjects::<Rid>::new(30);
    RenderObjectPass::declare_and_cull(&objects, &templates, &mut live, stay, always_outside);

    assert!(live.is_empty());
}

fn two_meshes() -> RenderRegistry<Rid, u32, u32, u32, u32> {
    let mut templates: RenderRegistry<Rid, u32, u32, u32, u32> = RenderRegistry::new();
    templates.register(
        Rid::Tree,
        RenderTemplate::<u32, u32, u32, u32>::new("tree")
            .with_mesh_part(0, 0, bits16(Mat4::IDENTITY))
            .with_mesh_part(1, 1, bits16(Mat4::from_translation(Vec3::Z))),
    );
    templates
}

fn one_mesh() -> RenderRegistry<Rid, u32, u32, u32, u32> {
    let mut templates: RenderRegistry<Rid, u32, u32, u32, u32> = RenderRegistry::new();
    templates.register(
        Rid::Tree,
        RenderTemplate::<u32, u32, u32, u32>::new("tree").with_mesh_part(
            0,
            0,
            bits16(Mat4::IDENTITY),
        ),
    );
    templates
}

#[test]
fn for_each_alive_part_visits_each_template_part() {
    let objects = vec![object(0, Some(Rid::Tree), Vec3::ZERO)];
    let templates = two_meshes();
    let mut live = LiveRenderObjects::<Rid>::new(30);
    RenderObjectPass::declare_and_cull(&objects, &templates, &mut live, stay, always_inside);

    let visits = RenderObjectPass::for_each_alive_part(&templates, &live);
    assert_eq!(visits.len(), 2, "two mesh parts give two visits");
    assert_eq!(mesh_of(&templates, &visits[0]), 0);
    assert_eq!(mesh_of(&templates, &visits[1]), 1);
}

#[test]
fn update_reads_components_and_writes_view_state() {
    // Only the first tree has the component that the view asks for.
    let objects = vec![
        object(0, Some(Rid::Tree), Vec3::ZERO),
        object(1, Some(Rid::Tree), Vec3::new(2.0, 0.0, 0.0)),
    ];
    let appearances = [Some(2.0f32), None];
    let templates = one_mesh();
    let mut live = LiveRenderObjects::<Rid>::new(30);
    RenderObjectPass::declare_and_cull(&objects, &templates, &mut live, stay, always_inside);

    RenderObjectPass::update_instances(&templates, &mut live, |entry: &LiveEntry<Rid>| {
        if appearances[entry.parent.id.index as usize].is_none() {
            hidden(entry)
        } else {
            shown(entry)
        }
    });

    let visits = RenderObjectPass::for_each_alive_part(&templates, &live);
    assert_eq!(
        visits.len(),
        1,
        "only the tree with an appearance stays visible",
    );
}

#[test]
fn update_setting_root_invisible_skips_all_parts() {
    let objects = vec![object(0, Some(Rid::Tree), Vec3::ZERO)];
    let templates = two_meshes();
    let mut live = LiveRenderObjects::<Rid>::new(30);
    RenderObjectPass::declare_and_cull(&objects, &templates, &mut live, stay, always_inside);
    RenderObjectPass::update_instances(&templates, &mut live, hidden);

    let visits = RenderObjectPass::for_each_alive_part(&templates, &live);
    assert_eq!(visits.len(), 0, "an invisible root must skip every part");
}

#[test]
fn update_can_hide_individual_mesh_parts() {
    let objects = vec![object(0, Some(Rid::Tree), Vec3::ZERO)];
    let templates = two_meshes();
    let mut live = LiveRenderObjects::<Rid>::new(30);
    RenderObjectPass::declare_and_cull(&objects, &templates, &mut live, stay, always_inside);
    RenderObjectPass::update_instances(&templates, &mut live, |entry: &LiveEntry<Rid>| {
        let mut changed = shown(entry);
        changed.mesh_parts[1].visible = false;
        changed
    });

    let visited: Vec<u32> = RenderObjectPass::for_each_alive_part(&templates, &live)
        .iter()
        .map(|draw| mesh_of(&templates, draw))
        .collect();
    assert_eq!(visited, vec![0], "only the part left visible is visited");
}

#[test]
fn update_can_hide_individual_emitter_parts() {
    let objects = vec![object(0, Some(Rid::Tree), Vec3::ZERO)];
    let mut templates: RenderRegistry<Rid, u32, u32, u32, u32> = RenderRegistry::new();
    templates.register(
        Rid::Tree,
        RenderTemplate::<u32, u32, u32, u32>::new("tree")
            .with_emitter_part(0, 0, bits16(Mat4::IDENTITY))
            .with_emitter_part(1, 1, bits16(Mat4::IDENTITY)),
    );
    let mut live = LiveRenderObjects::<Rid>::new(30);
    RenderObjectPass::declare_and_cull(&objects, &templates, &mut live, stay, always_inside);
    RenderObjectPass::update_instances(&templates, &mut live, |entry: &LiveEntry<Rid>| {
        let mut changed = shown(entry);
        changed.emitter_parts[0].visible = false;
        changed
    });

    let visited: Vec<u32> = RenderObjectPass::for_each_alive(&templates, &live)
        .iter()
        .filter(|draw| draw.emitter)
        .map(|draw| mesh_of(&templates, draw))
        .collect();
    assert_eq!(visited, vec![1], "only the emitter left visible is visited");
}

#[test]
fn update_setting_root_invisible_skips_hit_id_reservation() {
    // Two trees: one stays visible, one is hidden by the view.
    let hidden_position = Vec3::new(2.0, 0.0, 0.0);
    let objects = vec![
        object(0, Some(Rid::Tree), Vec3::ZERO),
        object(1, Some(Rid::Tree), hidden_position),
    ];
    let templates = one_mesh();
    let mut live = LiveRenderObjects::<Rid>::new(30);
    RenderObjectPass::declare_and_cull(&objects, &templates, &mut live, stay, always_inside);
    RenderObjectPass::update_instances(&templates, &mut live, |entry: &LiveEntry<Rid>| {
        if f32::from_bits(entry.object.world_xform[12]) == hidden_position.x {
            hidden(entry)
        } else {
            shown(entry)
        }
    });

    let mut table = FrameIdTable::new();
    let draws = RenderObjectPass::for_each_alive_with_hit_id(&templates, &live, &mut table);
    assert_eq!(draws.len(), 1);
    assert_eq!(draws[0].hit_id, 1);
    assert_eq!(
        table.resolve(1),
        Some(HitTarget::Object {
            zone: ZoneId::from_raw(0, 0),
            id: WorldObjectId::from_raw(0, 0)
        })
    );
    assert_eq!(
        table.resolve(2),
        None,
        "only the visible parent should reserve a hit id",
    );
}

#[test]
fn parts_of_an_object_share_its_hit_id() {
    let objects = vec![
        object(0, Some(Rid::Tree), Vec3::ZERO),
        object(1, Some(Rid::Tree), Vec3::X),
    ];
    let templates = two_meshes();
    let mut live = LiveRenderObjects::<Rid>::new(30);
    RenderObjectPass::declare_and_cull(&objects, &templates, &mut live, stay, always_inside);
    let mut table = FrameIdTable::new();
    let draws = RenderObjectPass::for_each_alive_part_with_hit_id(&templates, &live, &mut table);
    let ids: Vec<u32> = draws.iter().map(|d| d.hit_id).collect();
    assert_eq!(ids, vec![1, 1, 2, 2]);
}

#[test]
fn root_invisible_skips_emitter_parts() {
    let objects = vec![object(0, Some(Rid::Tree), Vec3::ZERO)];
    let mut templates: RenderRegistry<Rid, u32, u32, u32, u32> = RenderRegistry::new();
    templates.register(
        Rid::Tree,
        RenderTemplate::<u32, u32, u32, u32>::new("tree")
            .with_mesh_part(0, 0, bits16(Mat4::IDENTITY))
            .with_emitter_part(0, 0, bits16(Mat4::IDENTITY)),
    );
    let mut live = LiveRenderObjects::<Rid>::new(30);
    RenderObjectPass::declare_and_cull(&objects, &templates, &mut live, stay, always_inside);
    RenderObjectPass::update_instances(&templates, &mut live, hidden);

    let draws = RenderObjectPass::for_each_alive(&templates, &live);
    assert_eq!(draws.iter().filter(|d| !d.emitter).count(), 0);
    assert_eq!(draws.iter().filter(|d| d.emitter).count(), 0);
}

#[test]
fn update_can_move_an_object() {
    let objects = vec![object(0, Some(Rid::Tree), Vec3::ZERO)];
    let templates = one_mesh();
    let mut live = LiveRenderObjects::<Rid>::new(30);
    RenderObjectPass::declare_and_cull(&objects, &templates, &mut live, stay, always_inside);
    let moved = bits16(Mat4::from_translation(Vec3::new(0.0, 0.0, 3.0)));
    RenderObjectPass::update_instances(&templates, &mut live, |entry: &LiveEntry<Rid>| {
        LiveRenderObject {
            world_xform: moved,
            frames_since_visible: 9,
            declared_this_frame: false,
            ..shown(entry)
        }
    });
    let after = &live.get(0).object;
    assert_eq!(after.world_xform, moved);
    assert!(after.is_visible(), "the view does not change when it was seen");
    assert!(after.declared_this_frame);
}

#[test]
fn kind_ids_can_be_render_ids() {
    let oak = KindId::new("forest:oak").unwrap();
    let mut templates: RenderRegistry<KindId> = RenderRegistry::new();
    templates.register(oak.clone(), tree_template());
    let objects = vec![
        PlacedObject {
            parent: WorldObjectRef {
                zone: ZoneId::from_raw(0, 0),
                id: WorldObjectId::from_raw(0, 0),
            },
            render_id: Some(oak.clone()),
            world_xform: bits16(Mat4::IDENTITY),
        },
        PlacedObject {
            parent: WorldObjectRef {
                zone: ZoneId::from_raw(0, 0),
                id: WorldObjectId::from_raw(1, 0),
            },
            render_id: Some(KindId::new("forest:ash").unwrap()),
            world_xform: bits16(Mat4::IDENTITY),
        },
    ];
    let mut live = LiveRenderObjects::<KindId>::new(30);
    RenderObjectPass::declare_and_cull(&objects, &templates, &mut live, stay, always_inside);
    assert_eq!(live.len(), 1);
    assert!(live.get(0).render_id == oak);
}
