use currawong::render::emitter::{
    EmitterReconciler, EmitterTemplate, Kinematics, ParticleLifecycle, Rng,
};
use currawong::sim::{WorldObjectId, WorldObjectRef, ZoneId};
use glam::{Mat4, Vec3};

fn bits16(m: Mat4) -> [u32; 16] {
    m.to_cols_array().map(f32::to_bits)
}

#[derive(Clone, Copy, PartialEq, Eq, Hash)]
enum E {
    Flame,
}
#[derive(Clone, Copy, PartialEq, Eq, Hash)]
enum S {
    Main,
}

fn linger_template(spawn_rate: f32, lifetime: f32) -> EmitterTemplate {
    EmitterTemplate {
        spawn_rate: spawn_rate.to_bits(),
        particle_lifetime: lifetime.to_bits(),
        initial_speed: 1.0f32.to_bits(),
        speed_jitter: 0.0f32.to_bits(),
        direction: Vec3::Z.to_array().map(f32::to_bits),
        cone_half_angle: 0.0f32.to_bits(),
        max_particles: 64,
        on_parent_lost: ParticleLifecycle::Linger,
    }
}

fn cut_template() -> EmitterTemplate {
    EmitterTemplate {
        on_parent_lost: ParticleLifecycle::Cut,
        ..linger_template(60.0, 1.0)
    }
}

/// The objects of the world: one, until it is taken out.
struct World {
    object: Option<WorldObjectRef>,
}

fn one_object_zone() -> (World, WorldObjectRef) {
    let object = WorldObjectRef {
        zone: ZoneId::from_raw(0, 0),
        id: WorldObjectId::from_raw(0, 0),
    };
    (
        World {
            object: Some(object),
        },
        object,
    )
}

#[derive(Clone, Copy)]
struct Particle {
    position: Vec3,
    velocity: Vec3,
    age: f32,
    lifetime: f32,
}

fn integrate(r: &mut EmitterReconciler<E, S, Particle>, world: &World, dt: f32) {
    let k = Kinematics {
        advance: |p: &Particle| {
            let next = Particle {
                age: p.age + dt,
                position: p.position + p.velocity * dt,
                ..*p
            };
            (next.age < next.lifetime).then_some(next)
        },
        gain: |t: &EmitterTemplate, a: u32| {
            (f32::from_bits(a) + f32::from_bits(t.spawn_rate) * dt).to_bits()
        },
        is_due: |a: u32| f32::from_bits(a) >= 1.0,
        spend: |a: u32| (f32::from_bits(a) - 1.0).to_bits(),
        forgo: |a: u32| f32::from_bits(a).fract().to_bits(),
        spawn: |t: &EmitterTemplate, m: &[u32; 16], rng: Rng| {
            let mut rng = rng;
            rng.next();
            let transform = Mat4::from_cols_array(&m.map(f32::from_bits));
            let speed = f32::from_bits(t.initial_speed);
            let particle = Particle {
                position: transform.transform_point3(Vec3::ZERO),
                velocity: Vec3::from_array(t.direction.map(f32::from_bits)) * speed,
                age: 0.0,
                lifetime: f32::from_bits(t.particle_lifetime),
            };
            (particle, rng)
        },
    };
    r.integrate(|o: &WorldObjectRef| world.object == Some(*o), &k);
}

#[test]
fn declare_creates_live_emitter() {
    let mut r = EmitterReconciler::<E, S, Particle>::new(1);
    r.register_template(E::Flame, linger_template(60.0, 1.0));
    let (_zones, parent) = one_object_zone();

    r.begin_frame();
    r.declare(parent, S::Main, E::Flame, bits16(Mat4::IDENTITY));

    assert_eq!(r.live_emitter_count(), 1);
}

#[test]
fn integrate_spawns_particles_at_rate() {
    let mut r = EmitterReconciler::<E, S, Particle>::new(1);
    r.register_template(E::Flame, linger_template(100.0, 10.0));
    let (zones, parent) = one_object_zone();

    r.begin_frame();
    r.declare(parent, S::Main, E::Flame, bits16(Mat4::IDENTITY));
    integrate(&mut r, &zones, 0.1); // 100 hz × 0.1 s = 10 particles

    assert_eq!(r.live_particle_count(), 10);
}

#[test]
fn particles_die_when_age_exceeds_lifetime() {
    let mut r = EmitterReconciler::<E, S, Particle>::new(1);
    r.register_template(E::Flame, linger_template(10.0, 0.5));
    let (zones, parent) = one_object_zone();

    r.begin_frame();
    r.declare(parent, S::Main, E::Flame, bits16(Mat4::IDENTITY));
    integrate(&mut r, &zones, 0.1);
    assert!(r.live_particle_count() > 0);

    r.begin_frame(); // no declare → extinguished
    integrate(&mut r, &zones, 1.0);
    assert_eq!(r.live_particle_count(), 0);
}

#[test]
fn linger_keeps_particles_after_undeclared() {
    let mut r = EmitterReconciler::<E, S, Particle>::new(1);
    r.register_template(E::Flame, linger_template(100.0, 1.0));
    let (zones, parent) = one_object_zone();

    r.begin_frame();
    r.declare(parent, S::Main, E::Flame, bits16(Mat4::IDENTITY));
    integrate(&mut r, &zones, 0.1);
    let n = r.live_particle_count();
    assert!(n > 0);

    r.begin_frame();
    integrate(&mut r, &zones, 0.05);
    assert_eq!(r.live_particle_count(), n);
    assert_eq!(
        r.live_emitter_count(),
        1,
        "emitter lingers while particles alive"
    );
}

#[test]
fn cut_drops_particles_when_undeclared() {
    let mut r = EmitterReconciler::<E, S, Particle>::new(1);
    r.register_template(E::Flame, cut_template());
    let (zones, parent) = one_object_zone();

    r.begin_frame();
    r.declare(parent, S::Main, E::Flame, bits16(Mat4::IDENTITY));
    integrate(&mut r, &zones, 0.1);
    assert!(r.live_particle_count() > 0);

    r.begin_frame(); // no declare
    integrate(&mut r, &zones, 0.0);
    assert_eq!(r.live_particle_count(), 0);
    assert_eq!(
        r.live_emitter_count(),
        0,
        "cut emitter is dropped immediately"
    );
}

#[test]
fn parent_removal_extinguishes_emitter() {
    let mut r = EmitterReconciler::<E, S, Particle>::new(1);
    r.register_template(E::Flame, linger_template(100.0, 0.2));
    let (mut zones, parent) = one_object_zone();

    r.begin_frame();
    r.declare(parent, S::Main, E::Flame, bits16(Mat4::IDENTITY));
    integrate(&mut r, &zones, 0.05);
    assert!(r.live_particle_count() > 0);

    zones.object = None;
    r.begin_frame();
    r.declare(parent, S::Main, E::Flame, bits16(Mat4::IDENTITY));
    integrate(&mut r, &zones, 1.0);
    assert_eq!(r.live_emitter_count(), 0);
}

#[test]
fn redeclare_updates_transform_without_resetting_particles() {
    let mut r = EmitterReconciler::<E, S, Particle>::new(1);
    r.register_template(E::Flame, linger_template(100.0, 5.0));
    let (zones, parent) = one_object_zone();

    r.begin_frame();
    r.declare(parent, S::Main, E::Flame, bits16(Mat4::IDENTITY));
    integrate(&mut r, &zones, 0.1);
    let n = r.live_particle_count();
    assert!(n > 0);

    r.begin_frame();
    r.declare(
        parent,
        S::Main,
        E::Flame,
        bits16(Mat4::from_translation(Vec3::new(10.0, 0.0, 0.0))),
    );
    integrate(&mut r, &zones, 0.0); // dt=0 so no new spawns
    assert_eq!(r.live_particle_count(), n);
}

#[test]
fn particles_are_capped() {
    let mut r = EmitterReconciler::<E, S, Particle>::new(1);
    r.register_template(E::Flame, linger_template(1000.0, 10.0));
    let (zones, parent) = one_object_zone();
    for _ in 0..3 {
        r.begin_frame();
        r.declare(parent, S::Main, E::Flame, bits16(Mat4::IDENTITY));
        integrate(&mut r, &zones, 0.1);
    }
    assert_eq!(r.live_particle_count(), 64);
    assert_eq!(r.iter_particles().len(), 64);
}

#[test]
fn emitters_relight_when_they_are_declared_again() {
    let mut r = EmitterReconciler::<E, S, Particle>::new(1);
    r.register_template(E::Flame, linger_template(100.0, 10.0));
    let (zones, parent) = one_object_zone();
    r.begin_frame();
    r.declare(parent, S::Main, E::Flame, bits16(Mat4::IDENTITY));
    integrate(&mut r, &zones, 0.1);
    r.begin_frame();
    integrate(&mut r, &zones, 0.1);
    assert_eq!(r.live_particle_count(), 10);
    r.begin_frame();
    r.declare(parent, S::Main, E::Flame, bits16(Mat4::IDENTITY));
    integrate(&mut r, &zones, 0.1);
    assert_eq!(r.live_particle_count(), 20);
    assert_eq!(r.live_emitter_count(), 1);
}

#[test]
fn the_generator_shifts_and_never_sticks() {
    let mut rng = Rng::new(1);
    assert_eq!(rng.next(), 1 ^ (1 << 13) ^ ((1 ^ (1 << 13)) >> 7) ^ ((1 ^ (1 << 13) ^ ((1 ^ (1u64 << 13)) >> 7)) << 17));
    let mut zero = Rng::new(0);
    assert_eq!(zero.0, 1);
    for _ in 0..1000 {
        assert_ne!(zero.next(), 0);
    }
}

#[test]
fn spawns_over_the_cap_are_dropped() {
    let mut r = EmitterReconciler::<E, S, Particle>::new(1);
    let capped = EmitterTemplate {
        max_particles: 1,
        ..linger_template(4.0, 1.0)
    };
    r.register_template(E::Flame, capped);
    let (zones, parent) = one_object_zone();

    r.begin_frame();
    r.declare(parent, S::Main, E::Flame, bits16(Mat4::IDENTITY));
    integrate(&mut r, &zones, 1.0);
    assert_eq!(r.live_particle_count(), 1);

    r.register_template(
        E::Flame,
        EmitterTemplate {
            spawn_rate: 0.0f32.to_bits(),
            ..capped
        },
    );
    r.begin_frame();
    r.declare(parent, S::Main, E::Flame, bits16(Mat4::IDENTITY));
    integrate(&mut r, &zones, 1.0);
    assert_eq!(r.live_particle_count(), 0);
    assert_eq!(r.live_emitter_count(), 1);
}
