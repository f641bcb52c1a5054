use currawong::render::camera_rig::{OrbitInput, PanKey, RigAction, RigEvent};
use currawong::render::frame_stats::{FrameStats, FrameStatsCollector, GpuSegments};
use currawong::render::picking::{CursorEvent, Hover, TerrainPicker};
use currawong::render::picking_buffer::{FrameIdTable, HitTarget};
use currawong::render::readback::{sampled_id, IdReadback};
use currawong::render::runner::{
    after_acquire, redraw_steps, ticks_to_run, Acquired, Action, FrameStep, RedrawStep, RunState,
    SurfaceStatus, WindowEvent,
};
use currawong::sim::{ChunkCoord, IVec2, WorldObjectId, ZoneId};
use glam::{Mat4, Vec2, Vec3, Vec4};
use std::time::Duration;

const SCREENSHOT: WindowEvent = WindowEvent::Key {
    is_screenshot_key: true,
    pressed: true,
    repeat: false,
};

#[test]
fn the_screenshot_key_is_kept() {
    let mut state = RunState::new();
    assert!(state.keeps(SCREENSHOT));
    let held = WindowEvent::Key {
        is_screenshot_key: true,
        pressed: true,
        repeat: true,
    };
    assert!(!state.keeps(held));
    state.window_event(held, (8, 8));
    assert!(!state.render_frame(false).contains(&FrameStep::RecordScreenshot));
    assert_eq!(state.window_event(SCREENSHOT, (8, 8)), Action::Nothing);
    let steps = state.render_frame(false);
    assert!(steps.contains(&FrameStep::RecordScreenshot));
    assert!(steps.contains(&FrameStep::SaveScreenshot));
    // It is taken once.
    assert!(!state.render_frame(false).contains(&FrameStep::RecordScreenshot));
}

#[test]
fn frames_are_drawn_in_order() {
    let mut state = RunState::new();
    state.window_event(WindowEvent::CursorMoved { x: 3, y: 4 }, (8, 8));
    state.window_event(SCREENSHOT, (8, 8));
    assert_eq!(
        state.render_frame(true),
        vec![
            FrameStep::ExtractScene,
            FrameStep::ShadowPass { cascade: 0 },
            FrameStep::ShadowPass { cascade: 1 },
            FrameStep::ShadowPass { cascade: 2 },
            FrameStep::ShadowPass { cascade: 3 },
            FrameStep::MainPass,
            FrameStep::CopyCursorPixel { x: 3, y: 4 },
            FrameStep::OverlayBegin,
            FrameStep::GameUi,
            FrameStep::DebugUi,
            FrameStep::OverlayEnd,
            FrameStep::ResolveTimestamps,
            FrameStep::RecordScreenshot,
            FrameStep::Submit,
            FrameStep::SaveScreenshot,
            FrameStep::ScheduleIdReadback,
            FrameStep::ScheduleTimestampReadback,
            FrameStep::TakeStats,
        ]
    );
}

#[test]
fn the_cursor_is_brought_into_the_surface() {
    let mut state = RunState::new();
    for (x, y, at) in [(-5, 700, (0, 599)), (799, 0, (799, 0)), (800, -1, (799, 0))] {
        state.window_event(WindowEvent::CursorMoved { x, y }, (800, 600));
        let steps = state.render_frame(false);
        assert!(steps.contains(&FrameStep::CopyCursorPixel { x: at.0, y: at.1 }));
    }
    assert_eq!(
        state.window_event(WindowEvent::CursorLeft, (800, 600)),
        Action::ForgetHover
    );
    assert!(!state
        .render_frame(false)
        .iter()
        .any(|s| matches!(s, FrameStep::CopyCursorPixel { .. })));
}

#[test]
fn events_lead_to_actions() {
    let mut state = RunState::new();
    let surface = (8, 8);
    assert_eq!(
        state.window_event(WindowEvent::CloseRequested, surface),
        Action::Exit
    );
    assert_eq!(
        state.window_event(WindowEvent::Resized { width: 3, height: 0 }, surface),
        Action::Resize { width: 3, height: 0 }
    );
    assert_eq!(
        state.window_event(WindowEvent::RedrawRequested, surface),
        Action::Redraw
    );
    assert_eq!(state.window_event(WindowEvent::Other, surface), Action::Nothing);
    assert!(RunState::reaches_view(false, false));
    assert!(!RunState::reaches_view(true, false));
    assert!(!RunState::reaches_view(false, true));
}

#[test]
fn lost_surfaces_are_set_up_anew() {
    assert_eq!(after_acquire(SurfaceStatus::Success), Acquired::Draw);
    assert_eq!(after_acquire(SurfaceStatus::Suboptimal), Acquired::Draw);
    assert_eq!(after_acquire(SurfaceStatus::Outdated), Acquired::ResizeAndSkip);
    assert_eq!(after_acquire(SurfaceStatus::Lost), Acquired::ResizeAndSkip);
    assert_eq!(after_acquire(SurfaceStatus::Timeout), Acquired::Skip);
    assert_eq!(after_acquire(SurfaceStatus::Occluded), Acquired::Skip);
    assert_eq!(after_acquire(SurfaceStatus::Validation), Acquired::Skip);
}

#[test]
fn no_tick_is_left_out() {
    assert_eq!(ticks_to_run(7, 3), vec![5, 6, 7]);
    assert_eq!(ticks_to_run(9, 2), vec![8, 9]);
    assert!(ticks_to_run(9, 0).is_empty());
}

#[test]
fn drags_start_where_they_are_pressed() {
    let mut rig = OrbitInput::new();
    let at = |x: u64| RigEvent::CursorMoved { position: [x, 0] };
    assert_eq!(rig.handle_event(at(1)), None);
    rig.handle_event(RigEvent::TurnButton { pressed: true });
    assert_eq!(rig.handle_event(at(2)), None);
    assert_eq!(
        rig.handle_event(at(5)),
        Some(RigAction::Turn {
            from: [2, 0],
            to: [5, 0]
        })
    );
    rig.handle_event(RigEvent::TurnButton { pressed: false });
    assert_eq!(rig.handle_event(at(9)), None);
}

#[test]
fn keys_pan_and_cancel_out() {
    let mut rig = OrbitInput::new();
    assert_eq!(rig.pan(), None);
    let key = |key: PanKey, pressed: bool| RigEvent::Key { key, pressed };
    rig.handle_event(key(PanKey::Forward, true));
    assert_eq!(rig.pan(), Some((0, 1)));
    rig.handle_event(key(PanKey::Right, true));
    assert_eq!(rig.pan(), Some((1, 1)));
    rig.handle_event(key(PanKey::Left, true));
    assert_eq!(rig.pan(), Some((0, 1)));
    rig.handle_event(key(PanKey::Back, true));
    assert_eq!(rig.pan(), None);
    rig.handle_event(key(PanKey::Forward, false));
    assert_eq!(rig.pan(), Some((0, -1)));
}

#[test]
fn still_wheels_do_not_zoom() {
    let mut rig = OrbitInput::new();
    let wheel = |lines: f32| RigEvent::Wheel {
        lines: lines.to_bits(),
    };
    assert_eq!(rig.handle_event(wheel(0.0)), None);
    assert_eq!(rig.handle_event(wheel(-0.0)), None);
    assert_eq!(
        rig.handle_event(wheel(1.5)),
        Some(RigAction::Zoom {
            lines: 1.5f32.to_bits()
        })
    );
}

/// A camera above the ground that looks down, or up.
fn view_proj(position: Vec3, target: Vec3) -> Mat4 {
    Mat4::perspective_rh(60_f32.to_radians(), 1.0, 0.1, 100.0)
        * Mat4::look_at_rh(position, target, Vec3::Y)
}

fn cast(camera: Mat4, cursor: [u32; 2], plane_z: u32) -> Option<[u32; 3]> {
    let viewport = Vec2::new(800.0, 800.0);
    let cursor = Vec2::new(f32::from_bits(cursor[0]), f32::from_bits(cursor[1]));
    let ndc = Vec2::new(
        cursor.x / viewport.x * 2.0 - 1.0,
        1.0 - cursor.y / viewport.y * 2.0,
    );
    let inverse = camera.inverse();
    let near = inverse * Vec4::new(ndc.x, ndc.y, 0.0, 1.0);
    let far = inverse * Vec4::new(ndc.x, ndc.y, 1.0, 1.0);
    let (near, far) = (near.truncate() / near.w, far.truncate() / far.w);
    let direction = (far - near).normalize();
    let t = (f32::from_bits(plane_z) - near.z) / direction.z;
    if t < 0.0 {
        return None;
    }
    Some((near + direction * t).to_array().map(f32::to_bits))
}

fn square_cell(at: [u32; 3], tile_size: u32) -> IVec2 {
    let size = f32::from_bits(tile_size);
    IVec2::new(
        (f32::from_bits(at[0]) / size).floor() as i32,
        (f32::from_bits(at[1]) / size).floor() as i32,
    )
}

fn centred() -> CursorEvent {
    CursorEvent::Moved {
        position: [400.0f32.to_bits(), 400.0f32.to_bits()],
    }
}

fn over(x: f32, y: f32, tile_size: f32) -> Option<Hover> {
    let camera = view_proj(Vec3::new(x, y, 10.0), Vec3::new(x, y, 0.0));
    let mut picker = TerrainPicker::new(tile_size.to_bits());
    picker.handle_event(centred());
    picker.update(|p: [u32; 2], z: u32| cast(camera, p, z), square_cell);
    picker.hover()
}

#[test]
fn picker_reports_cell_under_cursor_square() {
    let hover = over(0.0, 0.0, 1.0).expect("centred cursor must hit ground");
    assert_eq!(hover.cell, IVec2::new(0, 0));
    assert!(f32::from_bits(hover.world_pos[0]).abs() < 1e-4);
    assert!(f32::from_bits(hover.world_pos[1]).abs() < 1e-4);
}

#[test]
fn picker_honours_tile_size_for_square_grid() {
    assert_eq!(over(2.5, 2.5, 1.0).unwrap().cell, IVec2::new(2, 2));
    assert_eq!(over(2.5, 2.5, 2.0).unwrap().cell, IVec2::new(1, 1));
}

#[test]
fn picker_clears_hover_when_cursor_leaves() {
    let camera = view_proj(Vec3::new(0.0, 0.0, 10.0), Vec3::ZERO);
    let mut picker = TerrainPicker::new(1.0f32.to_bits());
    picker.handle_event(centred());
    picker.update(|p: [u32; 2], z: u32| cast(camera, p, z), square_cell);
    assert!(picker.hover().is_some());

    picker.handle_event(CursorEvent::Left);
    assert!(picker.last_cursor_px().is_none());
    assert!(picker.hover().is_none());
}

#[test]
fn picker_clears_hover_when_ray_misses_plane() {
    let camera = view_proj(Vec3::new(0.0, 0.0, 5.0), Vec3::new(0.0, 0.0, 20.0));
    let mut picker = TerrainPicker::new(1.0f32.to_bits());
    picker.handle_event(centred());
    picker.update(|p: [u32; 2], z: u32| cast(camera, p, z), square_cell);
    assert!(picker.hover().is_none());
}

#[test]
fn drawn_cells_come_before_the_ray() {
    let mut picker = TerrainPicker::new(2.0f32.to_bits()).with_plane_z(7);
    picker.handle_event(centred());
    picker.update(
        |_: [u32; 2], z: u32| Some([1, 2, z]),
        |_: [u32; 3], _: u32| IVec2::new(3, 3),
    );
    let centre = |cell: IVec2, _: u32| [cell.x as u32, cell.y as u32];
    assert_eq!(picker.hover().unwrap().cell, IVec2::new(3, 3));
    assert_eq!(picker.plane_hover().unwrap().world_pos, [1, 2, 7]);
    let zone = ZoneId::from_raw(0, 0);
    let cell = IVec2::new(5, 6);
    picker.set_id_hover(Some(HitTarget::TerrainCell { zone, cell }), centre);
    assert_eq!(
        picker.hover(),
        Some(Hover {
            cell,
            world_pos: [5, 6, 7]
        })
    );
    let id = WorldObjectId::from_raw(0, 0);
    picker.set_id_hover(Some(HitTarget::Object { zone, id }), centre);
    assert_eq!(picker.id_hover(), None);
    assert_eq!(picker.hover().unwrap().cell, IVec2::new(3, 3));
}

#[test]
fn busy_slots_are_not_used_again() {
    let mut readback = IdReadback::new();
    let mut table = FrameIdTable::new();
    let zone = ZoneId::from_raw(1, 0);
    let base = table.reserve_terrain_chunk(zone, ChunkCoord::new(0, 0));
    assert_eq!(readback.enqueue_copy(9, 9, 8, 8), None);
    for slot in 0..3 {
        assert_eq!(readback.enqueue_copy(1, 1, 8, 8), Some(slot));
        assert_eq!(readback.schedule_readback(), Some(slot));
        assert_eq!(readback.schedule_readback(), None);
    }
    assert_eq!(readback.enqueue_copy(1, 1, 8, 8), None);
    readback.finish(1, Some(base), &table);
    assert_eq!(
        readback.latest(),
        Some(HitTarget::TerrainCell {
            zone,
            cell: IVec2::new(0, 0)
        })
    );
    assert_eq!(readback.enqueue_copy(1, 1, 8, 8), Some(1));
    readback.finish(0, Some(0), &table);
    assert_eq!(readback.latest(), None);
    readback.clear_latest();
    assert_eq!(sampled_id(&[0x78, 0x56, 0x34, 0x12]), 0x1234_5678);
}

#[test]
fn counters_start_anew_each_frame() {
    let mut counters = FrameStatsCollector::new();
    counters.record_draw(5);
    counters.record_draw(7);
    counters.record_proxies(3, 2);
    assert_eq!(
        counters.take_and_reset(),
        FrameStats {
            draw_calls: 2,
            instances: 12,
            proxies_visible: 3,
            proxies_hysteresis: 2
        }
    );
    let next = counters.take_and_reset();
    assert_eq!((next.draw_calls, next.instances), (0, 0));
    assert_eq!((next.proxies_visible, next.proxies_hysteresis), (3, 2));
}

#[test]
fn segments_add_up() {
    let ms = |n: u64| Some(Duration::from_millis(n));
    let total = |world, overlay| GpuSegments { world, overlay }.total();
    assert_eq!(total(ms(3), ms(4)), ms(7));
    assert_eq!(total(None, ms(4)), ms(4));
    assert_eq!(total(ms(3), None), ms(3));
    assert_eq!(total(None, None), None);
    let long = GpuSegments {
        world: Some(Duration::MAX),
        overlay: ms(1),
    };
    assert_eq!(long.checked_total(), Err(()));
}

#[test]
fn a_redraw_ticks_then_updates_then_draws() {
    assert_eq!(
        redraw_steps(7, 2),
        vec![
            RedrawStep::SetTick { tick: 6 },
            RedrawStep::ApplyReady { tick: 6 },
            RedrawStep::Tick,
            RedrawStep::SetTick { tick: 7 },
            RedrawStep::ApplyReady { tick: 7 },
            RedrawStep::Tick,
            RedrawStep::SetTick { tick: 7 },
            RedrawStep::Update,
            RedrawStep::Draw,
        ]
    );
    assert_eq!(
        redraw_steps(7, 0),
        vec![
            RedrawStep::SetTick { tick: 7 },
            RedrawStep::Update,
            RedrawStep::Draw,
        ]
    );
}

/// The hexagon of a point, by column and row of a grid with pointed tops.
fn hex_cell(at: [u32; 3], tile_size: u32) -> IVec2 {
    let size = f32::from_bits(tile_size);
    let (x, y) = (f32::from_bits(at[0]) / size, f32::from_bits(at[1]) / size);
    let q = 3f32.sqrt() / 3.0 * x - y / 3.0;
    let r = 2.0 / 3.0 * y;
    let s = -q - r;
    let (mut rq, mut rr, rs) = (q.round(), r.round(), s.round());
    let (dq, dr, ds) = ((rq - q).abs(), (rr - r).abs(), (rs - s).abs());
    if dq > dr && dq > ds {
        rq = -rr - rs;
    } else if dr > ds {
        rr = -rq - rs;
    }
    IVec2::new(rq as i32, rr as i32)
}

#[test]
fn picker_works_with_hex_grid() {
    let camera = view_proj(Vec3::new(0.0, 0.0, 10.0), Vec3::ZERO);
    let mut picker = TerrainPicker::new(1.0f32.to_bits());
    picker.handle_event(centred());
    picker.update(|p: [u32; 2], z: u32| cast(camera, p, z), hex_cell);
    let hover = picker.hover().expect("centred cursor must hit ground");
    assert_eq!(hover.cell, IVec2::new(0, 0));

    let camera = view_proj(Vec3::new(3f32.sqrt(), 0.0, 10.0), Vec3::new(3f32.sqrt(), 0.0, 0.0));
    picker.update(|p: [u32; 2], z: u32| cast(camera, p, z), hex_cell);
    assert_eq!(picker.hover().unwrap().cell, IVec2::new(1, 0));
}
