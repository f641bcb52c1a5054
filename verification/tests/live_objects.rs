use currawong::render::live_render_objects::{LiveRenderObjects, RenderInstances};
use currawong::render::mesh::Aabb;
use currawong::sim::{WorldObjectId, WorldObjectRef, ZoneId};
use glam::{Mat4, Vec3};

#[derive(Clone, Copy, PartialEq, Eq, Hash, Debug)]
enum Rid {
    A,
    B,
}

fn make_parent() -> WorldObjectRef {
    WorldObjectRef {
        zone: ZoneId::from_raw(0, 0),
        id: WorldObjectId::from_raw(0, 0),
    }
}

fn always_inside(_: &Aabb) -> bool {
    true
}

fn always_outside(_: &Aabb) -> bool {
    false
}

fn bits16(m: Mat4) -> [u32; 16] {
    m.to_cols_array().map(f32::to_bits)
}

fn cube(half: f32) -> Aabb {
    Aabb::new([(-half).to_bits(); 3], [half.to_bits(); 3])
}

#[test]
fn declare_and_cull_inside_frustum_creates_object() {
    let parent = make_parent();

    let mut live: LiveRenderObjects<Rid> = LiveRenderObjects::new(30);
    live.begin_frame();
    live.declare(parent, Rid::A, bits16(Mat4::IDENTITY), Some(cube(0.5)));
    live.cull(always_inside);

    assert_eq!(live.len(), 1);
    let obj = &live.iter()[0].object;
    assert!(obj.is_visible());
}

#[test]
fn new_object_outside_frustum_is_dropped_immediately() {
    let parent = make_parent();

    let mut live: LiveRenderObjects<Rid> = LiveRenderObjects::new(30);
    live.begin_frame();
    live.declare(parent, Rid::A, bits16(Mat4::IDENTITY), Some(cube(0.5)));
    live.cull(always_outside);

    assert_eq!(live.len(), 0);
}

#[test]
fn live_render_objects_visible_then_invisible_lingers_for_hysteresis_window() {
    let parent = make_parent();

    let mut live: LiveRenderObjects<Rid> = LiveRenderObjects::new(5);
    live.begin_frame();
    live.declare(parent, Rid::A, bits16(Mat4::IDENTITY), Some(cube(0.5)));
    live.cull(always_inside);
    assert_eq!(live.len(), 1);

    for f in 1..=5 {
        live.begin_frame();
        live.declare(parent, Rid::A, bits16(Mat4::IDENTITY), Some(cube(0.5)));
        live.cull(always_outside);
        assert_eq!(live.len(), 1, "proxy dropped at frame {f} of hysteresis");
        let obj = &live.iter()[0].object;
        assert_eq!(obj.frames_since_visible(), f);
        assert!(!obj.is_visible());
    }
    live.begin_frame();
    live.declare(parent, Rid::A, bits16(Mat4::IDENTITY), Some(cube(0.5)));
    live.cull(always_outside);
    assert_eq!(live.len(), 0);
}

#[test]
fn live_render_objects_returning_to_frustum_resets_counter() {
    let parent = make_parent();

    let mut live: LiveRenderObjects<Rid> = LiveRenderObjects::new(5);
    live.begin_frame();
    live.declare(parent, Rid::A, bits16(Mat4::IDENTITY), Some(cube(0.5)));
    live.cull(always_inside);

    for _ in 0..3 {
        live.begin_frame();
        live.declare(parent, Rid::A, bits16(Mat4::IDENTITY), Some(cube(0.5)));
        live.cull(always_outside);
    }
    let obj = &live.iter()[0].object;
    assert_eq!(obj.frames_since_visible(), 3);

    live.begin_frame();
    live.declare(parent, Rid::A, bits16(Mat4::IDENTITY), Some(cube(0.5)));
    live.cull(always_inside);
    let obj = &live.iter()[0].object;
    assert!(obj.is_visible());
}

#[test]
fn undeclared_object_is_dropped() {
    let parent = make_parent();

    let mut live: LiveRenderObjects<Rid> = LiveRenderObjects::new(30);
    live.begin_frame();
    live.declare(parent, Rid::A, bits16(Mat4::IDENTITY), Some(cube(0.5)));
    live.cull(always_inside);
    assert_eq!(live.len(), 1);

    live.begin_frame();
    live.cull(always_inside);
    assert_eq!(live.len(), 0);
}

#[test]
fn live_render_objects_template_without_bounds_is_never_culled() {
    let parent = make_parent();

    let mut live: LiveRenderObjects<Rid> = LiveRenderObjects::new(2);
    live.begin_frame();
    live.declare(parent, Rid::A, bits16(Mat4::IDENTITY), None);
    live.cull(always_outside); // would normally drop on first cull

    assert_eq!(live.len(), 1);
    let obj = &live.iter()[0].object;
    assert!(obj.is_visible());
}

#[test]
fn live_render_objects_multiple_render_ids_on_same_parent_are_distinct() {
    let parent = make_parent();

    let mut live: LiveRenderObjects<Rid> = LiveRenderObjects::new(30);
    live.begin_frame();
    live.declare(parent, Rid::A, bits16(Mat4::IDENTITY), Some(cube(0.5)));
    live.declare(
        parent,
        Rid::B,
        bits16(Mat4::from_translation(Vec3::X)),
        Some(cube(0.5)),
    );
    live.cull(always_inside);

    assert_eq!(live.len(), 2);
}

#[test]
fn declare_and_cull_inside_frustum_creates_instance() {
    let parent = make_parent();

    let mut live: RenderInstances<Rid> = RenderInstances::new(30);
    live.begin_frame();
    live.declare(parent, Rid::A, bits16(Mat4::IDENTITY), Some(cube(0.5)));
    live.cull(always_inside);

    assert_eq!(live.len(), 1);
    let inst = &live.iter()[0].object;
    assert!(inst.is_visible());
}

#[test]
fn new_instance_outside_frustum_is_dropped_immediately() {
    let parent = make_parent();

    let mut live: RenderInstances<Rid> = RenderInstances::new(30);
    live.begin_frame();
    live.declare(parent, Rid::A, bits16(Mat4::IDENTITY), Some(cube(0.5)));
    live.cull(always_outside);

    assert_eq!(live.len(), 0);
}

#[test]
fn render_instances_visible_then_invisible_lingers_for_hysteresis_window() {
    let parent = make_parent();

    let mut live: RenderInstances<Rid> = RenderInstances::new(5);
    live.begin_frame();
    live.declare(parent, Rid::A, bits16(Mat4::IDENTITY), Some(cube(0.5)));
    live.cull(always_inside);
    assert_eq!(live.len(), 1);

    for f in 1..=5 {
        live.begin_frame();
        live.declare(parent, Rid::A, bits16(Mat4::IDENTITY), Some(cube(0.5)));
        live.cull(always_outside);
        assert_eq!(live.len(), 1, "instance dropped at frame {f} of hysteresis");
        let inst = &live.iter()[0].object;
        assert_eq!(inst.frames_since_visible(), f);
        assert!(!inst.is_visible());
    }
    live.begin_frame();
    live.declare(parent, Rid::A, bits16(Mat4::IDENTITY), Some(cube(0.5)));
    live.cull(always_outside);
    assert_eq!(live.len(), 0);
}

#[test]
fn render_instances_returning_to_frustum_resets_counter() {
    let parent = make_parent();

    let mut live: RenderInstances<Rid> = RenderInstances::new(5);
    live.begin_frame();
    live.declare(parent, Rid::A, bits16(Mat4::IDENTITY), Some(cube(0.5)));
    live.cull(always_inside);

    for _ in 0..3 {
        live.begin_frame();
        live.declare(parent, Rid::A, bits16(Mat4::IDENTITY), Some(cube(0.5)));
        live.cull(always_outside);
    }
    let inst = &live.iter()[0].object;
    assert_eq!(inst.frames_since_visible(), 3);

    live.begin_frame();
    live.declare(parent, Rid::A, bits16(Mat4::IDENTITY), Some(cube(0.5)));
    live.cull(always_inside);
    let inst = &live.iter()[0].object;
    assert!(inst.is_visible());
}

#[test]
fn undeclared_instance_is_dropped() {
    let parent = make_parent();

    let mut live: RenderInstances<Rid> = RenderInstances::new(30);
    live.begin_frame();
    live.declare(parent, Rid::A, bits16(Mat4::IDENTITY), Some(cube(0.5)));
    live.cull(always_inside);
    assert_eq!(live.len(), 1);

    live.begin_frame();
    live.cull(always_inside);
    assert_eq!(live.len(), 0);
}

#[test]
fn render_instances_template_without_bounds_is_never_culled() {
    let parent = make_parent();

    let mut live: RenderInstances<Rid> = RenderInstances::new(2);
    live.begin_frame();
    live.declare(parent, Rid::A, bits16(Mat4::IDENTITY), None);
    live.cull(always_outside); // would normally drop on first cull

    assert_eq!(live.len(), 1);
    let inst = &live.iter()[0].object;
    assert!(inst.is_visible());
}

#[test]
fn render_instances_multiple_render_ids_on_same_parent_are_distinct() {
    let parent = make_parent();

    let mut live: RenderInstances<Rid> = RenderInstances::new(30);
    live.begin_frame();
    live.declare(parent, Rid::A, bits16(Mat4::IDENTITY), Some(cube(0.5)));
    live.declare(
        parent,
        Rid::B,
        bits16(Mat4::from_translation(Vec3::X)),
        Some(cube(0.5)),
    );
    live.cull(always_inside);

    assert_eq!(live.len(), 2);
}
