//! Emitters attached to world objects, and the life of their particles.
//!
//! Each frame the view declares which emitters are attached to what. An
//! emitter whose attachment is not declared, or whose parent is gone, is
//! extinguished: it spawns no more, and by its template's choice its particles
//! are cut at once or live out their time.
//!
//! How particles move and when they are due is arithmetic on single-precision
//! numbers; the caller passes it in as `Kinematics`.

use super::float_bits::Bits3;
use super::live_render_objects::{reversed, same_id};
use super::render_object::Mat4Bits;
use crate::sim::WorldObjectRef;
use std::collections::HashMap;
use std::hash::Hash;
use vstd::laws_eq::obeys_concrete_eq;
use vstd::prelude::*;
use vstd::std_specs::hash::obeys_key_model;

verus! {

broadcast use vstd::std_specs::hash::group_hash_axioms;

/// What becomes of particles whose emitter is extinguished.
#[derive(Debug, Clone, Copy, PartialEq, Eq, Structural)]
pub enum ParticleLifecycle {
    /// They are gone at once.
    Cut,
    /// They live out their time.
    Linger,
}

/// What emitters of one kind do. Numbers are bit patterns.
#[derive(Debug, Clone, Copy)]
pub struct EmitterTemplate {
    /// Particles per second.
    pub spawn_rate: u32,
    /// Seconds that a particle lives.
    pub particle_lifetime: u32,
    pub initial_speed: u32,
    /// How much the initial speed varies either way.
    pub speed_jitter: u32,
    pub direction: Bits3,
    /// How far the direction varies, in radians.
    pub cone_half_angle: u32,
    /// The most particles that one emitter has at a time. What is due beyond
    /// that is dropped.
    pub max_particles: u32,
    pub on_parent_lost: ParticleLifecycle,
}

/// A generator of pseudo-random numbers.
#[derive(Debug, Clone, Copy, PartialEq, Eq, Structural)]
pub struct Rng(pub u64);

/// The state behind `x`.
pub open spec fn xorshift(x: u64) -> u64 {
    let a = x ^ (x << 13);
    let b = a ^ (a >> 7);
    b ^ (b << 17)
}

impl Rng {
    /// A generator that starts at `seed`, or at 1 if that is 0.
    pub fn new(seed: u64) -> (r: Self)
        ensures
            r.0 == (if seed == 0 {
                1
            } else {
                seed
            }),
    {
        if seed == 0 {
            Rng(1)
        } else {
            Rng(seed)
        }
    }

    /// The next number, which is also the next state.
    pub fn next(&mut self) -> (r: u64)
        ensures
            r == xorshift(old(self).0),
            final(self).0 == r,
    {
        let mut x: u64 = self.0;
        x = x ^ (x << 13);
        x = x ^ (x >> 7);
        x = x ^ (x << 17);
        self.0 = x;
        x
    }
}

/// The generator never gets stuck at zero.
pub proof fn law_rng_never_sticks(x: u64)
    requires
        x != 0,
    ensures
        xorshift(x) != 0,
{
    let a = x ^ (x << 13);
    let b = a ^ (a >> 7);
    assert(x != 0 ==> (x ^ (x << 13)) != 0) by (bit_vector);
    assert(a != 0 ==> (a ^ (a >> 7)) != 0) by (bit_vector);
    assert(b != 0 ==> (b ^ (b << 17)) != 0) by (bit_vector);
}

/// One live emitter.
pub struct LiveEmitter<E, S, P> {
    pub parent: WorldObjectRef,
    pub slot: S,
    pub template_id: E,
    pub transform: Mat4Bits,
    pub declared_this_frame: bool,
    /// Whether it has stopped spawning.
    pub extinguished: bool,
    /// The particles that are due, whole and fractional.
    pub spawn_accumulator: u32,
    pub particles: Vec<P>,
}

/// The arithmetic of particles over one time step.
pub struct Kinematics<A, G, D, C, F, W> {
    /// The particle after the step, or nothing if it has died.
    pub advance: A,
    /// The accumulator after the step.
    pub gain: G,
    /// Whether the accumulator holds a whole particle.
    pub is_due: D,
    /// The accumulator with one particle less.
    pub spend: C,
    /// The accumulator without its whole particles, so that nothing is due.
    pub forgo: F,
    /// A new particle, and the generator after it.
    pub spawn: W,
}

/// The emitter has the given key.
pub open spec fn has_key<E, S, P>(
    e: LiveEmitter<E, S, P>,
    parent: WorldObjectRef,
    slot: S,
) -> bool {
    e.parent == parent && e.slot == slot
}

/// Where the key stands from `from` on; `live.len()` if it does not.
pub open spec fn find_key<E, S, P>(
    live: Seq<LiveEmitter<E, S, P>>,
    parent: WorldObjectRef,
    slot: S,
    from: int,
) -> int
    decreases live.len() - from,
{
    if from >= live.len() {
        live.len() as int
    } else if has_key(live[from], parent, slot) {
        from
    } else {
        find_key(live, parent, slot, from + 1)
    }
}

/// No two emitters have the same key.
pub open spec fn keys_distinct<E, S, P>(live: Seq<LiveEmitter<E, S, P>>) -> bool {
    forall|i: int, j: int|
        0 <= i < j < live.len() ==> !has_key(
            #[trigger] live[i],
            (#[trigger] live[j]).parent,
            live[j].slot,
        )
}

/// An emitter that a new frame has not seen yet.
pub open spec fn unseen<E, S, P>(e: LiveEmitter<E, S, P>) -> LiveEmitter<E, S, P> {
    LiveEmitter { declared_this_frame: false, ..e }
}

/// The emitters after a declaration: an emitter with the key is relit with the
/// new template and transform and keeps its particles; without one, an emitter
/// without particles is added.
pub open spec fn is_declared<E, S, P>(
    before: Seq<LiveEmitter<E, S, P>>,
    after: Seq<LiveEmitter<E, S, P>>,
    parent: WorldObjectRef,
    slot: S,
    template_id: E,
    transform: Mat4Bits,
) -> bool {
    let at = find_key(before, parent, slot, 0);
    if at < before.len() {
        after == before.update(
            at,
            LiveEmitter {
                template_id,
                transform,
                declared_this_frame: true,
                extinguished: false,
                ..before[at]
            },
        )
    } else {
        &&& after.len() == before.len() + 1
        &&& after.drop_last() == before
        &&& has_key(after.last(), parent, slot)
        &&& after.last().template_id == template_id
        &&& after.last().transform == transform
        &&& after.last().declared_this_frame
        &&& !after.last().extinguished
        &&& after.last().spawn_accumulator == 0
        &&& after.last().particles@.len() == 0
    }
}

/// The particles that are still there.
pub open spec fn present<P>(outcomes: Seq<Option<P>>) -> Seq<P>
    decreases outcomes.len(),
{
    if outcomes.len() == 0 {
        Seq::empty()
    } else {
        match outcomes.last() {
            Some(p) => present(outcomes.drop_last()).push(p),
            None => present(outcomes.drop_last()),
        }
    }
}

/// `after` can be what is left of `before` when each particle has advanced.
pub open spec fn can_advance<P, A: Fn(&P) -> Option<P>>(
    advance: A,
    before: Seq<P>,
    after: Seq<P>,
) -> bool {
    exists|outcomes: Seq<Option<P>>|
        {
            &&& outcomes.len() == before.len()
            &&& forall|i: int|
                0 <= i < before.len() ==> call_ensures(
                    advance,
                    (&before[i],),
                    #[trigger] outcomes[i],
                )
            &&& after == #[trigger] present(outcomes)
        }
}

/// What spawning works on.
pub struct SpawnState<P> {
    pub particles: Seq<P>,
    pub accumulator: u32,
    pub rng: Rng,
}

/// One particle is spawned: it was due, there was room, and it is paid for.
pub open spec fn is_spawn<P, D, C, W>(
    is_due: D,
    spend: C,
    spawn: W,
    template: EmitterTemplate,
    transform: Mat4Bits,
    before: SpawnState<P>,
    after: SpawnState<P>,
) -> bool where
    D: Fn(u32) -> bool,
    C: Fn(u32) -> u32,
    W: Fn(&EmitterTemplate, &Mat4Bits, Rng) -> (P, Rng),
 {
    &&& call_ensures(is_due, (before.accumulator,), true)
    &&& before.particles.len() < template.max_particles
    &&& after.particles.len() == before.particles.len() + 1
    &&& after.particles.drop_last() == before.particles
    &&& call_ensures(
        spawn,
        (&template, &transform, before.rng),
        (after.particles.last(), after.rng),
    )
    &&& call_ensures(spend, (before.accumulator,), after.accumulator)
}

/// Spawning ends: there is no room, or nothing is due.
pub open spec fn is_sated<P, D: Fn(u32) -> bool>(
    is_due: D,
    template: EmitterTemplate,
    state: SpawnState<P>,
) -> bool {
    state.particles.len() >= template.max_particles || call_ensures(
        is_due,
        (state.accumulator,),
        false,
    )
}

/// Spawning goes through the states of `trace`, from first to last.
pub open spec fn is_spawning<P, D, C, W>(
    is_due: D,
    spend: C,
    spawn: W,
    template: EmitterTemplate,
    transform: Mat4Bits,
    trace: Seq<SpawnState<P>>,
) -> bool where
    D: Fn(u32) -> bool,
    C: Fn(u32) -> u32,
    W: Fn(&EmitterTemplate, &Mat4Bits, Rng) -> (P, Rng),
 {
    &&& trace.len() >= 1
    &&& forall|i: int|
        0 <= i < trace.len() - 1 ==> is_spawn(
            is_due,
            spend,
            spawn,
            template,
            transform,
            #[trigger] trace[i],
            trace[i + 1],
        )
    &&& is_sated(is_due, template, trace.last())
}

/// What is left of an accumulator when spawning has ended: all of it if nothing
/// is due, otherwise what is due is dropped. Either way nothing is due.
pub open spec fn is_left_over<D: Fn(u32) -> bool, F: Fn(u32) -> u32>(
    is_due: D,
    forgo: F,
    before: u32,
    after: u32,
) -> bool {
    &&& call_ensures(is_due, (after,), false)
    &&& after == before || (call_ensures(is_due, (before,), true) && call_ensures(
        forgo,
        (before,),
        after,
    ))
}

/// Nothing is due of what `forgo` leaves.
pub open spec fn forgoes_all<D: Fn(u32) -> bool, F: Fn(u32) -> u32>(is_due: D, forgo: F) -> bool {
    forall|a: u32, left: u32| #[trigger]
        call_ensures(forgo, (a,), left) ==> !call_ensures(is_due, (left,), true)
}

/// An emitter that no longer spawns: it was extinguished before, it was not
/// declared this frame, or its parent is gone.
pub open spec fn is_out<E, S, P>(e: LiveEmitter<E, S, P>, parent_alive: bool) -> bool {
    e.extinguished || !e.declared_this_frame || !parent_alive
}

/// What an emitter is after a step, if it is still there.
pub open spec fn can_step<E, S, P, A, G, D, C, F, W>(
    k: Kinematics<A, G, D, C, F, W>,
    template: EmitterTemplate,
    parent_alive: bool,
    before: LiveEmitter<E, S, P>,
    rng_before: Rng,
    after: Option<LiveEmitter<E, S, P>>,
    rng_after: Rng,
) -> bool where
    A: Fn(&P) -> Option<P>,
    G: Fn(&EmitterTemplate, u32) -> u32,
    D: Fn(u32) -> bool,
    C: Fn(u32) -> u32,
    F: Fn(u32) -> u32,
    W: Fn(&EmitterTemplate, &Mat4Bits, Rng) -> (P, Rng),
 {
    if is_out(before, parent_alive) {
        &&& rng_after == rng_before
        &&& if template.on_parent_lost == ParticleLifecycle::Cut {
            after is None
        } else {
            match after {
                None => can_advance(k.advance, before.particles@, Seq::empty()),
                Some(e) => {
                    &&& can_advance(k.advance, before.particles@, e.particles@)
                    &&& e.particles@.len() > 0
                    &&& e == (LiveEmitter {
                        extinguished: true,
                        spawn_accumulator: 0,
                        particles: e.particles,
                        ..before
                    })
                },
            }
        }
    } else {
        after matches Some(e) && {
            &&& e == (LiveEmitter {
                spawn_accumulator: e.spawn_accumulator,
                particles: e.particles,
                ..before
            })
            &&& exists|trace: Seq<SpawnState<P>>|
                {
                    &&& #[trigger] is_spawning(
                        k.is_due,
                        k.spend,
                        k.spawn,
                        template,
                        before.transform,
                        trace,
                    )
                    &&& can_advance(k.advance, before.particles@, trace[0].particles)
                    &&& call_ensures(
                        k.gain,
                        (&template, before.spawn_accumulator),
                        trace[0].accumulator,
                    )
                    &&& trace[0].rng == rng_before
                    &&& trace.last().particles == e.particles@
                    &&& is_left_over(
                        k.is_due,
                        k.forgo,
                        trace.last().accumulator,
                        e.spawn_accumulator,
                    )
                    &&& trace.last().rng == rng_after
                }
        }
    }
}

/// Advances each particle, and keeps those that are still there.
fn advance_all<P, A: Fn(&P) -> Option<P>>(particles: &Vec<P>, advance: &A) -> (r: Vec<P>)
    requires
        forall|p: &P| #[trigger] call_requires(*advance, (p,)),
    ensures
        can_advance(*advance, particles@, r@),
        r@.len() <= particles@.len(),
{
    let ghost mut outcomes: Seq<Option<P>> = Seq::empty();
    let mut out: Vec<P> = Vec::new();
    let mut i: usize = 0;
    while i < particles.len()
        invariant
            i <= particles@.len(),
            forall|p: &P| #[trigger] call_requires(*advance, (p,)),
            outcomes.len() == i,
            out@.len() <= i,
            forall|j: int|
                0 <= j < i ==> call_ensures(
                    *advance,
                    (&particles@[j],),
                    #[trigger] outcomes[j],
                ),
            out@ == present(outcomes),
        decreases particles@.len() - i,
    {
        let outcome = (*advance)(&particles[i]);
        proof {
            let more = outcomes.push(outcome);
            assert(more.drop_last() =~= outcomes);
            outcomes = more;
        }
        match outcome {
            Some(p) => {
                out.push(p);
            },
            None => {},
        }
        i += 1;
    }
    assert(out@ == present(outcomes));
    out
}

/// Spawns what is due, as far as there is room.
fn spawn_due<P, D, C, W>(
    is_due: &D,
    spend: &C,
    spawn: &W,
    template: &EmitterTemplate,
    transform: &Mat4Bits,
    particles: Vec<P>,
    accumulator: u32,
    rng: Rng,
) -> (r: (Vec<P>, u32, Rng)) where
    D: Fn(u32) -> bool,
    C: Fn(u32) -> u32,
    W: Fn(&EmitterTemplate, &Mat4Bits, Rng) -> (P, Rng),

    requires
        forall|a: u32| #[trigger] call_requires(*is_due, (a,)),
        forall|a: u32| #[trigger] call_requires(*spend, (a,)),
        forall|t: &EmitterTemplate, m: &Mat4Bits, g: Rng| #[trigger]
            call_requires(*spawn, (t, m, g)),
    ensures
        exists|trace: Seq<SpawnState<P>>|
            {
                &&& #[trigger] is_spawning(
                    *is_due,
                    *spend,
                    *spawn,
                    *template,
                    *transform,
                    trace,
                )
                &&& trace[0] == (SpawnState { particles: particles@, accumulator, rng })
                &&& trace.last() == (SpawnState {
                    particles: r.0@,
                    accumulator: r.1,
                    rng: r.2,
                })
            },
{
    let ghost first = SpawnState { particles: particles@, accumulator, rng };
    let ghost mut trace: Seq<SpawnState<P>> = seq![first];
    let mut particles = particles;
    let mut accumulator: u32 = accumulator;
    let mut rng = rng;
    while particles.len() < template.max_particles as usize
        invariant
            forall|a: u32| #[trigger] call_requires(*is_due, (a,)),
            forall|a: u32| #[trigger] call_requires(*spend, (a,)),
            forall|t: &EmitterTemplate, m: &Mat4Bits, g: Rng| #[trigger]
                call_requires(*spawn, (t, m, g)),
            trace.len() >= 1,
            trace[0] == first,
            trace.last() == (SpawnState { particles: particles@, accumulator, rng }),
            forall|i: int|
                0 <= i < trace.len() - 1 ==> is_spawn(
                    *is_due,
                    *spend,
                    *spawn,
                    *template,
                    *transform,
                    #[trigger] trace[i],
                    trace[i + 1],
                ),
        ensures
            is_sated(*is_due, *template, trace.last()),
        decreases template.max_particles - particles@.len(),
    {
        if !(*is_due)(accumulator) {
            break;
        }
        let ghost now = trace.last();
        accumulator = (*spend)(accumulator);
        let (p, g) = (*spawn)(template, transform, rng);
        rng = g;
        particles.push(p);
        proof {
            let next = SpawnState { particles: particles@, accumulator, rng };
            assert(next.particles.drop_last() =~= now.particles);
            assert(is_spawn(*is_due, *spend, *spawn, *template, *transform, now, next));
            let more = trace.push(next);
            assert forall|i: int| 0 <= i < more.len() - 1 implies is_spawn(
                *is_due,
                *spend,
                *spawn,
                *template,
                *transform,
                #[trigger] more[i],
                more[i + 1],
            ) by {
                if i < trace.len() - 1 {
                    assert(more[i] == trace[i] && more[i + 1] == trace[i + 1]);
                }
            }
            trace = more;
        }
    }
    assert(is_spawning(*is_due, *spend, *spawn, *template, *transform, trace));
    (particles, accumulator, rng)
}

/// Drops what is still due.
fn drop_due<D: Fn(u32) -> bool, F: Fn(u32) -> u32>(is_due: &D, forgo: &F, accumulator: u32) -> (r:
    u32)
    requires
        forall|a: u32| #[trigger] call_requires(*is_due, (a,)),
        forall|a: u32| #[trigger] call_requires(*forgo, (a,)),
        forgoes_all(*is_due, *forgo),
    ensures
        is_left_over(*is_due, *forgo, accumulator, r),
{
    if !(*is_due)(accumulator) {
        return accumulator;
    }
    let left: u32 = (*forgo)(accumulator);
    let due = (*is_due)(left);
    assert(!due);
    left
}

/// Steps one emitter.
fn step<E: Copy, S: Copy, P, A, G, D, C, F, W>(
    k: &Kinematics<A, G, D, C, F, W>,
    template: &EmitterTemplate,
    parent_alive: bool,
    emitter: LiveEmitter<E, S, P>,
    rng: Rng,
) -> (r: (Option<LiveEmitter<E, S, P>>, Rng)) where
    A: Fn(&P) -> Option<P>,
    G: Fn(&EmitterTemplate, u32) -> u32,
    D: Fn(u32) -> bool,
    C: Fn(u32) -> u32,
    F: Fn(u32) -> u32,
    W: Fn(&EmitterTemplate, &Mat4Bits, Rng) -> (P, Rng),

    requires
        forall|p: &P| #[trigger] call_requires(k.advance, (p,)),
        forall|t: &EmitterTemplate, a: u32| #[trigger] call_requires(k.gain, (t, a)),
        forall|a: u32| #[trigger] call_requires(k.is_due, (a,)),
        forall|a: u32| #[trigger] call_requires(k.spend, (a,)),
        forall|a: u32| #[trigger] call_requires(k.forgo, (a,)),
        forgoes_all(k.is_due, k.forgo),
        forall|t: &EmitterTemplate, m: &Mat4Bits, g: Rng| #[trigger]
            call_requires(k.spawn, (t, m, g)),
    ensures
        can_step(*k, *template, parent_alive, emitter, rng, r.0, r.1),
{
    let out = emitter.extinguished || !emitter.declared_this_frame || !parent_alive;
    if out && template.on_parent_lost == ParticleLifecycle::Cut {
        return (None, rng);
    }
    let particles = advance_all(&emitter.particles, &k.advance);
    if out {
        if particles.len() == 0 {
            assert(particles@ =~= Seq::<P>::empty());
            return (None, rng);
        }
        let after = LiveEmitter {
            parent: emitter.parent,
            slot: emitter.slot,
            template_id: emitter.template_id,
            transform: emitter.transform,
            declared_this_frame: emitter.declared_this_frame,
            extinguished: true,
            spawn_accumulator: 0,
            particles,
        };
        return (Some(after), rng);
    }
    let gained = (k.gain)(template, emitter.spawn_accumulator);
    let (particles, accumulator, rng) = spawn_due(
        &k.is_due,
        &k.spend,
        &k.spawn,
        template,
        &emitter.transform,
        particles,
        gained,
        rng,
    );
    let after = LiveEmitter {
        parent: emitter.parent,
        slot: emitter.slot,
        template_id: emitter.template_id,
        transform: emitter.transform,
        declared_this_frame: emitter.declared_this_frame,
        extinguished: emitter.extinguished,
        spawn_accumulator: drop_due(&k.is_due, &k.forgo, accumulator),
        particles,
    };
    (Some(after), rng)
}

/// Every emitter's template is registered.
pub open spec fn templates_known<E, S, P>(
    templates: Map<E, EmitterTemplate>,
    live: Seq<LiveEmitter<E, S, P>>,
) -> bool {
    forall|i: int| 0 <= i < live.len() ==> templates.contains_key((#[trigger] live[i]).template_id)
}

/// What each emitter became in one step, and the generator before and after
/// each.
pub struct StepTrace<E, S, P> {
    pub parents_alive: Seq<bool>,
    pub outcomes: Seq<Option<LiveEmitter<E, S, P>>>,
    pub rngs: Seq<Rng>,
}

/// The trace tells how the emitter at `i` is stepped.
pub open spec fn is_step<E, S, P, L, A, G, D, C, F, W>(
    templates: Map<E, EmitterTemplate>,
    before: Seq<LiveEmitter<E, S, P>>,
    alive: L,
    k: Kinematics<A, G, D, C, F, W>,
    trace: StepTrace<E, S, P>,
    i: int,
) -> bool where
    L: Fn(&WorldObjectRef) -> bool,
    A: Fn(&P) -> Option<P>,
    G: Fn(&EmitterTemplate, u32) -> u32,
    D: Fn(u32) -> bool,
    C: Fn(u32) -> u32,
    F: Fn(u32) -> u32,
    W: Fn(&EmitterTemplate, &Mat4Bits, Rng) -> (P, Rng),
 {
    &&& call_ensures(alive, (&before[i].parent,), trace.parents_alive[i])
    &&& can_step(
        k,
        templates[before[i].template_id],
        trace.parents_alive[i],
        before[i],
        trace.rngs[i],
        trace.outcomes[i],
        trace.rngs[i + 1],
    )
}

/// The trace tells how `before` is stepped.
pub open spec fn is_stepping<E, S, P, L, A, G, D, C, F, W>(
    templates: Map<E, EmitterTemplate>,
    before: Seq<LiveEmitter<E, S, P>>,
    alive: L,
    k: Kinematics<A, G, D, C, F, W>,
    trace: StepTrace<E, S, P>,
) -> bool where
    L: Fn(&WorldObjectRef) -> bool,
    A: Fn(&P) -> Option<P>,
    G: Fn(&EmitterTemplate, u32) -> u32,
    D: Fn(u32) -> bool,
    C: Fn(u32) -> u32,
    F: Fn(u32) -> u32,
    W: Fn(&EmitterTemplate, &Mat4Bits, Rng) -> (P, Rng),
 {
    &&& trace.parents_alive.len() == before.len()
    &&& trace.outcomes.len() == before.len()
    &&& trace.rngs.len() == before.len() + 1
    &&& forall|i: int|
        0 <= i < before.len() ==> #[trigger] is_step(templates, before, alive, k, trace, i)
}

/// All the particles, each with the template of its emitter.
pub open spec fn particles_of<E, S, P>(live: Seq<LiveEmitter<E, S, P>>) -> Seq<(E, P)>
    decreases live.len(),
{
    if live.len() == 0 {
        Seq::empty()
    } else {
        particles_of(live.drop_last()) + live.last().particles@.map_values(
            |p: P| (live.last().template_id, p),
        )
    }
}

proof fn lemma_find_key<E, S, P>(
    live: Seq<LiveEmitter<E, S, P>>,
    parent: WorldObjectRef,
    slot: S,
    from: int,
    at: int,
)
    requires
        0 <= from <= at <= live.len(),
        forall|i: int| from <= i < at ==> !has_key(#[trigger] live[i], parent, slot),
        at == live.len() || has_key(live[at], parent, slot),
    ensures
        find_key(live, parent, slot, from) == at,
    decreases at - from,
{
    if from < at {
        assert(!has_key(live[from], parent, slot));
        lemma_find_key(live, parent, slot, from + 1, at);
    }
}

/// What is still there comes from different places, in order.
proof fn lemma_present<T>(outcomes: Seq<Option<T>>) -> (from: Seq<int>)
    ensures
        from.len() == present(outcomes).len(),
        forall|i: int|
            0 <= i < from.len() ==> {
                &&& 0 <= #[trigger] from[i] < outcomes.len()
                &&& outcomes[from[i]] == Some(present(outcomes)[i])
            },
        forall|i: int, j: int| 0 <= i < j < from.len() ==> from[i] < from[j],
    decreases outcomes.len(),
{
    if outcomes.len() == 0 {
        Seq::empty()
    } else {
        let from = lemma_present(outcomes.drop_last());
        match outcomes.last() {
            Some(_) => from.push(outcomes.len() - 1),
            None => from,
        }
    }
}

/// The live emitters, and the templates they go by.
pub struct EmitterReconciler<E, S, P> {
    templates: HashMap<E, EmitterTemplate>,
    live: Vec<LiveEmitter<E, S, P>>,
    rng: Rng,
}

impl<E: Copy + Eq + Hash, S: Copy + Eq, P> EmitterReconciler<E, S, P> {
    pub closed spec fn templates(self) -> Map<E, EmitterTemplate> {
        self.templates@
    }

    /// The live emitters, oldest first.
    pub closed spec fn live(self) -> Seq<LiveEmitter<E, S, P>> {
        self.live@
    }

    pub closed spec fn rng(self) -> Rng {
        self.rng
    }

    /// No two emitters share a key, and every emitter's template is registered.
    pub open spec fn wf(self) -> bool {
        &&& keys_distinct(self.live())
        &&& templates_known(self.templates(), self.live())
    }

    /// A reconciler without templates or emitters. The seed decides the
    /// directions in which particles spawn.
    pub fn new(seed: u64) -> (r: Self)
        ensures
            r.wf(),
            r.live().len() == 0,
            r.templates() == Map::<E, EmitterTemplate>::empty(),
            r.rng().0 == (if seed == 0 {
                1
            } else {
                seed
            }),
    {
        EmitterReconciler { templates: HashMap::new(), live: Vec::new(), rng: Rng::new(seed) }
    }

    /// Registers a template, in place of one with the same id.
    pub fn register_template(&mut self, id: E, template: EmitterTemplate)
        requires
            old(self).wf(),
            obeys_key_model::<E>(),
        ensures
            final(self).wf(),
            final(self).templates() == old(self).templates().insert(id, template),
            final(self).live() == old(self).live(),
            final(self).rng() == old(self).rng(),
    {
        self.templates.insert(id, template);
    }

    /// How many particles there are.
    pub fn live_particle_count(&self) -> (r: usize)
        requires
            particles_of(self.live()).len() <= usize::MAX,
        ensures
            r == particles_of(self.live()).len(),
    {
        let mut count: usize = 0;
        let mut i: usize = 0;
        proof {
            lemma_particle_count(self.live@, 0);
            assert(self.live@.take(0) =~= Seq::empty());
        }
        while i < self.live.len()
            invariant
                particles_of(self.live()).len() <= usize::MAX,
                i <= self.live@.len(),
                count == particles_of(self.live@.take(i as int)).len(),
            decreases self.live@.len() - i,
        {
            proof {
                lemma_particle_count(self.live@, i + 1);
                assert(self.live@.take(i + 1).drop_last() =~= self.live@.take(i as int));
            }
            count = count + self.live[i].particles.len();
            i += 1;
        }
        assert(self.live@.take(i as int) =~= self.live@);
        count
    }

    /// How many emitters there are, lit or lingering.
    pub fn live_emitter_count(&self) -> (r: usize)
        ensures
            r == self.live().len(),
    {
        self.live.len()
    }

    /// Starts a frame: no emitter has been declared in it yet.
    pub fn begin_frame(&mut self)
        requires
            old(self).wf(),
        ensures
            final(self).wf(),
            final(self).templates() == old(self).templates(),
            final(self).live() == old(self).live().map_values(
                |e: LiveEmitter<E, S, P>| unseen(e),
            ),
            final(self).rng() == old(self).rng(),
    {
        let ghost before = self.live@;
        let mut i: usize = 0;
        while i < self.live.len()
            invariant
                self.templates@ == old(self).templates@,
                self.rng == old(self).rng,
                i <= self.live@.len(),
                self.live@.len() == before.len(),
                before == old(self).live@,
                forall|j: int| 0 <= j < i ==> #[trigger] self.live@[j] == unseen(before[j]),
                forall|j: int| i <= j < before.len() ==> #[trigger] self.live@[j] == before[j],
            decreases self.live@.len() - i,
        {
            self.live[i].declared_this_frame = false;
            i += 1;
        }
        proof {
            let after = before.map_values(|e: LiveEmitter<E, S, P>| unseen(e));
            assert(self.live@ =~= after);
            assert forall|i: int, j: int| 0 <= i < j < after.len() implies !has_key(
                #[trigger] after[i],
                (#[trigger] after[j]).parent,
                after[j].slot,
            ) by {
                assert(!has_key(before[i], before[j].parent, before[j].slot));
            }
            assert forall|i: int| 0 <= i < after.len() implies self.templates@.contains_key(
                (#[trigger] after[i]).template_id,
            ) by {
                assert(old(self).templates@.contains_key(before[i].template_id));
            }
        }
    }

    /// Declares an emitter on `parent` in `slot`: it is lit, at `transform` and
    /// by the template, which is registered.
    pub fn declare(&mut self, parent: WorldObjectRef, slot: S, template: E, transform: Mat4Bits)
        requires
            old(self).wf(),
            obeys_concrete_eq::<S>(),
            old(self).templates().contains_key(template),
        ensures
            final(self).wf(),
            final(self).templates() == old(self).templates(),
            is_declared(
                old(self).live(),
                final(self).live(),
                parent,
                slot,
                template,
                transform,
            ),
            final(self).rng() == old(self).rng(),
    {
        let ghost before = self.live@;
        let mut at: usize = 0;
        while at < self.live.len() && !(self.live[at].parent == parent && same_id(
            &self.live[at].slot,
            &slot,
        ))
            invariant
                obeys_concrete_eq::<S>(),
                *self == *old(self),
                at <= self.live@.len(),
                forall|i: int| 0 <= i < at ==> !has_key(#[trigger] self.live@[i], parent, slot),
            decreases self.live@.len() - at,
        {
            at += 1;
        }
        proof {
            lemma_find_key(before, parent, slot, 0, at as int);
        }
        if at < self.live.len() {
            self.live[at].template_id = template;
            self.live[at].transform = transform;
            self.live[at].declared_this_frame = true;
            self.live[at].extinguished = false;
            proof {
                let after = before.update(
                    at as int,
                    LiveEmitter {
                        template_id: template,
                        transform,
                        declared_this_frame: true,
                        extinguished: false,
                        ..before[at as int]
                    },
                );
                assert(self.live@ =~= after);
                assert forall|i: int, j: int| 0 <= i < j < after.len() implies !has_key(
                    #[trigger] after[i],
                    (#[trigger] after[j]).parent,
                    after[j].slot,
                ) by {
                    assert(!has_key(before[i], before[j].parent, before[j].slot));
                }
                assert forall|i: int| 0 <= i < after.len() implies self.templates@.contains_key(
                    (#[trigger] after[i]).template_id,
                ) by {
                    assert(old(self).templates@.contains_key(before[i].template_id));
                }
            }
        } else {
            self.live.push(
                LiveEmitter {
                    parent,
                    slot,
                    template_id: template,
                    transform,
                    declared_this_frame: true,
                    extinguished: false,
                    spawn_accumulator: 0,
                    particles: Vec::new(),
                },
            );
            proof {
                let after = self.live@;
                assert(after.drop_last() =~= before);
                assert forall|i: int, j: int| 0 <= i < j < after.len() implies !has_key(
                    #[trigger] after[i],
                    (#[trigger] after[j]).parent,
                    after[j].slot,
                ) by {
                    assert(after[i] == before[i]);
                    if j < before.len() {
                        assert(after[j] == before[j]);
                    } else {
                        assert(!has_key(before[i], parent, slot));
                    }
                }
            }
        }
    }

    /// Steps every emitter, oldest first, and drops those that are over.
    pub fn integrate<L, A, G, D, C, F, W>(&mut self, alive: L, k: &Kinematics<A, G, D, C, F, W>) where
        L: Fn(&WorldObjectRef) -> bool,
        A: Fn(&P) -> Option<P>,
        G: Fn(&EmitterTemplate, u32) -> u32,
        D: Fn(u32) -> bool,
        C: Fn(u32) -> u32,
        F: Fn(u32) -> u32,
        W: Fn(&EmitterTemplate, &Mat4Bits, Rng) -> (P, Rng),

        requires
            old(self).wf(),
            obeys_key_model::<E>(),
            forall|o: &WorldObjectRef| #[trigger] call_requires(alive, (o,)),
            forall|p: &P| #[trigger] call_requires(k.advance, (p,)),
            forall|t: &EmitterTemplate, a: u32| #[trigger] call_requires(k.gain, (t, a)),
            forall|a: u32| #[trigger] call_requires(k.is_due, (a,)),
            forall|a: u32| #[trigger] call_requires(k.spend, (a,)),
            forall|a: u32| #[trigger] call_requires(k.forgo, (a,)),
            forgoes_all(k.is_due, k.forgo),
            forall|t: &EmitterTemplate, m: &Mat4Bits, g: Rng| #[trigger]
                call_requires(k.spawn, (t, m, g)),
        ensures
            final(self).wf(),
            final(self).templates() == old(self).templates(),
            exists|trace: StepTrace<E, S, P>|
                {
                    &&& #[trigger] is_stepping(
                        old(self).templates(),
                        old(self).live(),
                        alive,
                        *k,
                        trace,
                    )
                    &&& trace.rngs[0] == old(self).rng()
                    &&& final(self).live() == present(trace.outcomes)
                    &&& final(self).rng() == trace.rngs.last()
                },
    {
        let ghost before = self.live@;
        let ghost templates = self.templates@;
        let ghost rng_before = self.rng;
        let mut taken: Vec<LiveEmitter<E, S, P>> = Vec::new();
        core::mem::swap(&mut self.live, &mut taken);
        let mut rest = reversed(taken);
        let mut rng = self.rng;
        let ghost mut trace: StepTrace<E, S, P> = StepTrace {
            parents_alive: Seq::empty(),
            outcomes: Seq::empty(),
            rngs: seq![rng],
        };
        proof {
            assert(before.take(0) =~= Seq::empty());
        }
        while rest.len() > 0
            invariant
                obeys_key_model::<E>(),
                self.templates@ == templates,
                templates_known(templates, before),
                forall|o: &WorldObjectRef| #[trigger] call_requires(alive, (o,)),
                forall|p: &P| #[trigger] call_requires(k.advance, (p,)),
                forall|t: &EmitterTemplate, a: u32| #[trigger] call_requires(k.gain, (t, a)),
                forall|a: u32| #[trigger] call_requires(k.is_due, (a,)),
                forall|a: u32| #[trigger] call_requires(k.spend, (a,)),
                forall|a: u32| #[trigger] call_requires(k.forgo, (a,)),
                forgoes_all(k.is_due, k.forgo),
                forall|t: &EmitterTemplate, m: &Mat4Bits, g: Rng| #[trigger]
                    call_requires(k.spawn, (t, m, g)),
                rest@.len() + trace.outcomes.len() == before.len(),
                rest@ == before.reverse().take(rest@.len() as int),
                is_stepping(
                    templates,
                    before.take(trace.outcomes.len() as int),
                    alive,
                    *k,
                    trace,
                ),
                trace.rngs[0] == rng_before,
                trace.rngs.last() == rng,
                self.live@ == present(trace.outcomes),
            decreases rest@.len(),
        {
            let ghost done = trace.outcomes.len() as int;
            match rest.pop() {
                Some(emitter) => {
                    assert(emitter == before[done]);
                    assert(templates.contains_key(before[done].template_id));
                    match self.templates.get(&emitter.template_id) {
                        Some(template) => {
                            let parent_alive = alive(&emitter.parent);
                            let (outcome, next) = step(k, template, parent_alive, emitter, rng);
                            proof {
                                let more = StepTrace {
                                    parents_alive: trace.parents_alive.push(parent_alive),
                                    outcomes: trace.outcomes.push(outcome),
                                    rngs: trace.rngs.push(next),
                                };
                                assert(more.parents_alive.drop_last() =~= trace.parents_alive);
                                assert(more.outcomes.drop_last() =~= trace.outcomes);
                                assert(more.rngs.drop_last() =~= trace.rngs);
                                lemma_stepped_once(templates, before, alive, *k, trace, more);
                                trace = more;
                            }
                            rng = next;
                            match outcome {
                                Some(e) => {
                                    self.live.push(e);
                                },
                                None => {},
                            }
                        },
                        None => {
                            assert(false);
                        },
                    }
                },
                None => {},
            }
        }
        self.rng = rng;
        proof {
            assert(before.take(before.len() as int) =~= before);
            lemma_stepping_keeps_wf(templates, before, alive, *k, trace);
        }
    }

    /// All the particles, each with the template of its emitter.
    pub fn iter_particles(&self) -> (r: Vec<(E, &P)>)
        ensures
            r@.len() == particles_of(self.live()).len(),
            forall|i: int|
                0 <= i < r@.len() ==> (#[trigger] r@[i]).0 == particles_of(self.live())[i].0
                    && *r@[i].1 == particles_of(self.live())[i].1,
    {
        let mut out: Vec<(E, &P)> = Vec::new();
        let mut i: usize = 0;
        assert(self.live@.take(0) =~= Seq::empty());
        while i < self.live.len()
            invariant
                i <= self.live@.len(),
                out@.len() == particles_of(self.live@.take(i as int)).len(),
                forall|n: int|
                    0 <= n < out@.len() ==> (#[trigger] out@[n]).0 == particles_of(
                        self.live@.take(i as int),
                    )[n].0 && *out@[n].1 == particles_of(self.live@.take(i as int))[n].1,
            decreases self.live@.len() - i,
        {
            let emitter = &self.live[i];
            let ghost earlier = out@;
            let mut j: usize = 0;
            while j < emitter.particles.len()
                invariant
                    *emitter == self.live@[i as int],
                    j <= emitter.particles@.len(),
                    out@.len() == earlier.len() + j,
                    forall|n: int| 0 <= n < earlier.len() ==> out@[n] == earlier[n],
                    forall|n: int|
                        earlier.len() <= n < out@.len() ==> (#[trigger] out@[n]).0
                            == emitter.template_id && *out@[n].1 == emitter.particles@[n
                            - earlier.len()],
                decreases emitter.particles@.len() - j,
            {
                out.push((emitter.template_id, &emitter.particles[j]));
                j += 1;
            }
            proof {
                let more = self.live@.take(i + 1);
                assert(more.drop_last() =~= self.live@.take(i as int));
                assert(more.last() == *emitter);
                let prior = particles_of(self.live@.take(i as int));
                assert(particles_of(more).len() == prior.len() + emitter.particles@.len());
                assert forall|n: int| 0 <= n < out@.len() implies (#[trigger] out@[n]).0
                    == particles_of(more)[n].0 && *out@[n].1 == particles_of(more)[n].1 by {
                    if n < earlier.len() {
                        assert(out@[n] == earlier[n]);
                        assert(particles_of(more)[n] == prior[n]);
                    } else {
                        assert(particles_of(more)[n] == (
                            emitter.template_id,
                            emitter.particles@[n - earlier.len()],
                        ));
                    }
                }
            }
            i += 1;
        }
        assert(self.live@.take(i as int) =~= self.live@);
        out
    }
}

proof fn lemma_particle_count<E, S, P>(live: Seq<LiveEmitter<E, S, P>>, n: int)
    requires
        0 <= n <= live.len(),
    ensures
        particles_of(live.take(n)).len() <= particles_of(live).len(),
    decreases live.len() - n,
{
    if n == live.len() {
        assert(live.take(n) =~= live);
    } else {
        assert(live.take(n + 1).drop_last() =~= live.take(n));
        lemma_particle_count(live, n + 1);
    }
}

proof fn lemma_stepped_once<E, S, P, L, A, G, D, C, F, W>(
    templates: Map<E, EmitterTemplate>,
    before: Seq<LiveEmitter<E, S, P>>,
    alive: L,
    k: Kinematics<A, G, D, C, F, W>,
    trace: StepTrace<E, S, P>,
    more: StepTrace<E, S, P>,
) where
    L: Fn(&WorldObjectRef) -> bool,
    A: Fn(&P) -> Option<P>,
    G: Fn(&EmitterTemplate, u32) -> u32,
    D: Fn(u32) -> bool,
    C: Fn(u32) -> u32,
    F: Fn(u32) -> u32,
    W: Fn(&EmitterTemplate, &Mat4Bits, Rng) -> (P, Rng),

    requires
        trace.outcomes.len() < before.len(),
        is_stepping(templates, before.take(trace.outcomes.len() as int), alive, k, trace),
        more.parents_alive.len() == trace.outcomes.len() + 1,
        more.parents_alive.drop_last() == trace.parents_alive,
        more.outcomes.len() == trace.outcomes.len() + 1,
        more.outcomes.drop_last() == trace.outcomes,
        more.rngs.len() == trace.rngs.len() + 1,
        more.rngs.drop_last() == trace.rngs,
        ({
            let e = before[trace.outcomes.len() as int];
            &&& call_ensures(alive, (&e.parent,), more.parents_alive.last())
            &&& can_step(
                k,
                templates[e.template_id],
                more.parents_alive.last(),
                e,
                trace.rngs.last(),
                more.outcomes.last(),
                more.rngs.last(),
            )
        }),
    ensures
        is_stepping(templates, before.take(more.outcomes.len() as int), alive, k, more),
{
    let n = trace.outcomes.len() as int;
    let now = before.take(n);
    let then = before.take(n + 1);
    assert forall|i: int| 0 <= i < then.len() implies #[trigger] is_step(
        templates,
        then,
        alive,
        k,
        more,
        i,
    ) by {
        assert(more.rngs[i] == more.rngs.drop_last()[i]);
        if i < n {
            assert(more.parents_alive[i] == more.parents_alive.drop_last()[i]);
            assert(more.outcomes[i] == more.outcomes.drop_last()[i]);
            assert(more.rngs[i + 1] == more.rngs.drop_last()[i + 1]);
            assert(now[i] == then[i]);
            assert(is_step(templates, now, alive, k, trace, i));
        }
    }
}

proof fn lemma_stepping_keeps_wf<E, S, P, L, A, G, D, C, F, W>(
    templates: Map<E, EmitterTemplate>,
    before: Seq<LiveEmitter<E, S, P>>,
    alive: L,
    k: Kinematics<A, G, D, C, F, W>,
    trace: StepTrace<E, S, P>,
) where
    L: Fn(&WorldObjectRef) -> bool,
    A: Fn(&P) -> Option<P>,
    G: Fn(&EmitterTemplate, u32) -> u32,
    D: Fn(u32) -> bool,
    C: Fn(u32) -> u32,
    F: Fn(u32) -> u32,
    W: Fn(&EmitterTemplate, &Mat4Bits, Rng) -> (P, Rng),

    requires
        keys_distinct(before),
        templates_known(templates, before),
        is_stepping(templates, before, alive, k, trace),
    ensures
        keys_distinct(present(trace.outcomes)),
        templates_known(templates, present(trace.outcomes)),
{
    let after = present(trace.outcomes);
    let from = lemma_present(trace.outcomes);
    assert forall|i: int| 0 <= i < after.len() implies {
        &&& 0 <= from[i] < before.len()
        &&& (#[trigger] after[i]).parent == before[from[i]].parent
        &&& after[i].slot == before[from[i]].slot
        &&& after[i].template_id == before[from[i]].template_id
    } by {
        let n = from[i];
        assert(is_step(templates, before, alive, k, trace, n));
    }
    assert forall|i: int, j: int| 0 <= i < j < after.len() implies !has_key(
        #[trigger] after[i],
        (#[trigger] after[j]).parent,
        after[j].slot,
    ) by {
        assert(from[i] < from[j]);
        assert(!has_key(before[from[i]], before[from[j]].parent, before[from[j]].slot));
    }
    assert forall|i: int| 0 <= i < after.len() implies templates.contains_key(
        (#[trigger] after[i]).template_id,
    ) by {
        assert(templates.contains_key(before[from[i]].template_id));
    }
}

proof fn lemma_present_at_most<T>(outcomes: Seq<Option<T>>)
    ensures
        present(outcomes).len() <= outcomes.len(),
    decreases outcomes.len(),
{
    if outcomes.len() > 0 {
        lemma_present_at_most(outcomes.drop_last());
    }
}

proof fn lemma_advance_loses<P, A: Fn(&P) -> Option<P>>(advance: A, before: Seq<P>, after: Seq<P>)
    requires
        can_advance(advance, before, after),
    ensures
        after.len() <= before.len(),
{
    let outcomes = choose|outcomes: Seq<Option<P>>|
        {
            &&& outcomes.len() == before.len()
            &&& forall|i: int|
                0 <= i < before.len() ==> call_ensures(
                    advance,
                    (&before[i],),
                    #[trigger] outcomes[i],
                )
            &&& after == #[trigger] present(outcomes)
        };
    lemma_present_at_most(outcomes);
}

proof fn lemma_spawning_is_capped<P, D, C, W>(
    is_due: D,
    spend: C,
    spawn: W,
    template: EmitterTemplate,
    transform: Mat4Bits,
    trace: Seq<SpawnState<P>>,
    n: int,
) where
    D: Fn(u32) -> bool,
    C: Fn(u32) -> u32,
    W: Fn(&EmitterTemplate, &Mat4Bits, Rng) -> (P, Rng),

    requires
        is_spawning(is_due, spend, spawn, template, transform, trace),
        trace[0].particles.len() <= template.max_particles,
        0 <= n < trace.len(),
    ensures
        trace[n].particles.len() <= template.max_particles,
    decreases n,
{
    if n > 0 {
        assert(is_spawn(
            is_due,
            spend,
            spawn,
            template,
            transform,
            trace[n - 1],
            trace[n - 1 + 1],
        ));
    }
}

/// An emitter whose particles are cut is gone in the step that finds it
/// undeclared or its parent gone.
pub proof fn law_cut_emitters_go_at_once<E, S, P, L, A, G, D, C, F, W>(
    templates: Map<E, EmitterTemplate>,
    before: Seq<LiveEmitter<E, S, P>>,
    alive: L,
    k: Kinematics<A, G, D, C, F, W>,
    trace: StepTrace<E, S, P>,
    i: int,
) where
    L: Fn(&WorldObjectRef) -> bool,
    A: Fn(&P) -> Option<P>,
    G: Fn(&EmitterTemplate, u32) -> u32,
    D: Fn(u32) -> bool,
    C: Fn(u32) -> u32,
    F: Fn(u32) -> u32,
    W: Fn(&EmitterTemplate, &Mat4Bits, Rng) -> (P, Rng),

    requires
        is_stepping(templates, before, alive, k, trace),
        0 <= i < before.len(),
        is_out(before[i], trace.parents_alive[i]),
        templates[before[i].template_id].on_parent_lost == ParticleLifecycle::Cut,
    ensures
        trace.outcomes[i] is None,
{
    assert(is_step(templates, before, alive, k, trace, i));
}

/// An emitter whose particles linger spawns no more, and stays for as long as
/// it has particles.
pub proof fn law_lingering_emitters_fade<E, S, P, L, A, G, D, C, F, W>(
    templates: Map<E, EmitterTemplate>,
    before: Seq<LiveEmitter<E, S, P>>,
    alive: L,
    k: Kinematics<A, G, D, C, F, W>,
    trace: StepTrace<E, S, P>,
    i: int,
) where
    L: Fn(&WorldObjectRef) -> bool,
    A: Fn(&P) -> Option<P>,
    G: Fn(&EmitterTemplate, u32) -> u32,
    D: Fn(u32) -> bool,
    C: Fn(u32) -> u32,
    F: Fn(u32) -> u32,
    W: Fn(&EmitterTemplate, &Mat4Bits, Rng) -> (P, Rng),

    requires
        is_stepping(templates, before, alive, k, trace),
        0 <= i < before.len(),
        is_out(before[i], trace.parents_alive[i]),
        templates[before[i].template_id].on_parent_lost == ParticleLifecycle::Linger,
    ensures
        trace.rngs[i + 1] == trace.rngs[i],
        trace.outcomes[i] is None ==> can_advance(
            k.advance,
            before[i].particles@,
            Seq::empty(),
        ),
        trace.outcomes[i] matches Some(e) ==> {
            &&& e.extinguished
            &&& e.particles@.len() > 0
            &&& can_advance(k.advance, before[i].particles@, e.particles@)
            &&& e.particles@.len() <= before[i].particles@.len()
        },
{
    assert(is_step(templates, before, alive, k, trace, i));
    match trace.outcomes[i] {
        Some(e) => lemma_advance_loses(k.advance, before[i].particles@, e.particles@),
        None => {},
    }
}

/// An emitter that is declared and whose parent is alive stays, even without
/// particles.
pub proof fn law_lit_emitters_stay<E, S, P, L, A, G, D, C, F, W>(
    templates: Map<E, EmitterTemplate>,
    before: Seq<LiveEmitter<E, S, P>>,
    alive: L,
    k: Kinematics<A, G, D, C, F, W>,
    trace: StepTrace<E, S, P>,
    i: int,
) where
    L: Fn(&WorldObjectRef) -> bool,
    A: Fn(&P) -> Option<P>,
    G: Fn(&EmitterTemplate, u32) -> u32,
    D: Fn(u32) -> bool,
    C: Fn(u32) -> u32,
    F: Fn(u32) -> u32,
    W: Fn(&EmitterTemplate, &Mat4Bits, Rng) -> (P, Rng),

    requires
        is_stepping(templates, before, alive, k, trace),
        0 <= i < before.len(),
        before[i].declared_this_frame,
        trace.parents_alive[i],
        !before[i].extinguished,
    ensures
        trace.outcomes[i] is Some,
{
    assert(is_step(templates, before, alive, k, trace, i));
}

/// What is due when an emitter has all the particles it may have is dropped: no
/// step leaves anything due, so nothing is spawned for it later.
pub proof fn law_spawns_over_the_cap_are_dropped<E, S, P, L, A, G, D, C, F, W>(
    templates: Map<E, EmitterTemplate>,
    before: Seq<LiveEmitter<E, S, P>>,
    alive: L,
    k: Kinematics<A, G, D, C, F, W>,
    trace: StepTrace<E, S, P>,
    i: int,
) where
    L: Fn(&WorldObjectRef) -> bool,
    A: Fn(&P) -> Option<P>,
    G: Fn(&EmitterTemplate, u32) -> u32,
    D: Fn(u32) -> bool,
    C: Fn(u32) -> u32,
    F: Fn(u32) -> u32,
    W: Fn(&EmitterTemplate, &Mat4Bits, Rng) -> (P, Rng),

    requires
        is_stepping(templates, before, alive, k, trace),
        0 <= i < before.len(),
        !is_out(before[i], trace.parents_alive[i]),
    ensures
        trace.outcomes[i] matches Some(e) && call_ensures(
            k.is_due,
            (e.spawn_accumulator,),
            false,
        ),
{
    assert(is_step(templates, before, alive, k, trace, i));
}

/// No step takes an emitter over its template's limit of particles.
pub proof fn law_particles_are_capped<E, S, P, L, A, G, D, C, F, W>(
    templates: Map<E, EmitterTemplate>,
    before: Seq<LiveEmitter<E, S, P>>,
    alive: L,
    k: Kinematics<A, G, D, C, F, W>,
    trace: StepTrace<E, S, P>,
    i: int,
) where
    L: Fn(&WorldObjectRef) -> bool,
    A: Fn(&P) -> Option<P>,
    G: Fn(&EmitterTemplate, u32) -> u32,
    D: Fn(u32) -> bool,
    C: Fn(u32) -> u32,
    F: Fn(u32) -> u32,
    W: Fn(&EmitterTemplate, &Mat4Bits, Rng) -> (P, Rng),

    requires
        is_stepping(templates, before, alive, k, trace),
        0 <= i < before.len(),
        before[i].particles@.len() <= templates[before[i].template_id].max_particles,
    ensures
        trace.outcomes[i] matches Some(e) ==> e.particles@.len()
            <= templates[e.template_id].max_particles,
{
    assert(is_step(templates, before, alive, k, trace, i));
    let template = templates[before[i].template_id];
    match trace.outcomes[i] {
        Some(e) => {
            if is_out(before[i], trace.parents_alive[i]) {
                lemma_advance_loses(k.advance, before[i].particles@, e.particles@);
            } else {
                let states = choose|states: Seq<SpawnState<P>>|
                    {
                        &&& #[trigger] is_spawning(
                            k.is_due,
                            k.spend,
                            k.spawn,
                            template,
                            before[i].transform,
                            states,
                        )
                        &&& can_advance(k.advance, before[i].particles@, states[0].particles)
                        &&& call_ensures(
                            k.gain,
                            (&template, before[i].spawn_accumulator),
                            states[0].accumulator,
                        )
                        &&& states[0].rng == trace.rngs[i]
                        &&& states.last().particles == e.particles@
                        &&& is_left_over(
                            k.is_due,
                            k.forgo,
                            states.last().accumulator,
                            e.spawn_accumulator,
                        )
                        &&& states.last().rng == trace.rngs[i + 1]
                    };
                lemma_advance_loses(k.advance, before[i].particles@, states[0].particles);
                lemma_spawning_is_capped(
                    k.is_due,
                    k.spend,
                    k.spawn,
                    template,
                    before[i].transform,
                    states,
                    states.len() - 1,
                );
            }
        },
        None => {},
    }
}

/// An emitter that is declared again is lit again, and keeps its particles.
pub proof fn law_declaring_relights<E, S, P>(
    before: Seq<LiveEmitter<E, S, P>>,
    after: Seq<LiveEmitter<E, S, P>>,
    parent: WorldObjectRef,
    slot: S,
    template_id: E,
    transform: Mat4Bits,
    i: int,
)
    requires
        keys_distinct(before),
        is_declared(before, after, parent, slot, template_id, transform),
        0 <= i < before.len(),
        has_key(before[i], parent, slot),
    ensures
        after.len() == before.len(),
        !after[i].extinguished,
        after[i].declared_this_frame,
        after[i].particles == before[i].particles,
{
    assert forall|j: int| 0 <= j < i implies !has_key(#[trigger] before[j], parent, slot) by {
        assert(!has_key(before[j], before[i].parent, before[i].slot));
    }
    lemma_find_key(before, parent, slot, 0, i);
}

/// After a declaration there is one emitter under its key, new or not, with the
/// template and at the place that the declaration says, lit and declared; all
/// other emitters are as they were. An emitter that was there keeps its particles
/// and what is due; a new one has none.
pub proof fn law_declared_emitters_stand_where_declared<E, S, P>(
    before: Seq<LiveEmitter<E, S, P>>,
    after: Seq<LiveEmitter<E, S, P>>,
    parent: WorldObjectRef,
    slot: S,
    template_id: E,
    transform: Mat4Bits,
) -> (at: int)
    requires
        keys_distinct(before),
        is_declared(before, after, parent, slot, template_id, transform),
    ensures
        0 <= at < after.len(),
        after[at].parent == parent,
        after[at].slot == slot,
        after[at].template_id == template_id,
        after[at].transform == transform,
        after[at].declared_this_frame,
        !after[at].extinguished,
        forall|i: int|
            0 <= i < after.len() && i != at ==> i < before.len() && (#[trigger] after[i])
                == before[i] && !(after[i].parent == parent && after[i].slot == slot),
        after.len() == before.len() || (after.len() == before.len() + 1 && at == before.len()),
        at < before.len() ==> {
            &&& before[at].parent == parent
            &&& before[at].slot == slot
            &&& after[at].particles == before[at].particles
            &&& after[at].spawn_accumulator == before[at].spawn_accumulator
        },
        at == before.len() ==> after[at].particles@.len() == 0 && after[at].spawn_accumulator == 0,
{
    let at = find_key(before, parent, slot, 0);
    lemma_found(before, parent, slot, 0);
    assert forall|i: int| 0 <= i < after.len() && i != at implies i < before.len() && (
    #[trigger] after[i]) == before[i] && !(after[i].parent == parent && after[i].slot == slot) by {
        if at < before.len() {
            if i < at {
                assert(!has_key(before[i], before[at].parent, before[at].slot));
            } else {
                assert(!has_key(before[at], before[i].parent, before[i].slot));
            }
        } else {
            assert(after.drop_last()[i] == after[i]);
            assert(!has_key(before[i], parent, slot));
        }
    }
    at
}

proof fn lemma_found<E, S, P>(
    live: Seq<LiveEmitter<E, S, P>>,
    parent: WorldObjectRef,
    slot: S,
    from: int,
)
    requires
        0 <= from <= live.len(),
    ensures
        from <= find_key(live, parent, slot, from) <= live.len(),
        find_key(live, parent, slot, from) < live.len() ==> has_key(
            live[find_key(live, parent, slot, from)],
            parent,
            slot,
        ),
        forall|i: int|
            from <= i < find_key(live, parent, slot, from) ==> !has_key(
                #[trigger] live[i],
                parent,
                slot,
            ),
    decreases live.len() - from,
{
    if from < live.len() && !has_key(live[from], parent, slot) {
        lemma_found(live, parent, slot, from + 1);
    }
}

/// Where each of the particles that are still there comes from: they are what
/// the particles became that have not died, in order, and no such is left out.
pub open spec fn are_survivors<P, A: Fn(&P) -> Option<P>>(
    advance: A,
    before: Seq<P>,
    after: Seq<P>,
    from: Seq<int>,
) -> bool {
    &&& from.len() == after.len()
    &&& forall|j: int|
        0 <= j < from.len() ==> 0 <= #[trigger] from[j] < before.len() && call_ensures(
            advance,
            (&before[from[j]],),
            Some(after[j]),
        )
    &&& forall|i: int, j: int|
        0 <= i < j < from.len() ==> #[trigger] from[i] < #[trigger] from[j]
    &&& forall|i: int|
        #![trigger before[i]]
        0 <= i < before.len() && !from.contains(i) ==> call_ensures(
            advance,
            (&before[i],),
            None::<P>,
        )
}

proof fn lemma_all_present<T>(outcomes: Seq<Option<T>>) -> (from: Seq<int>)
    ensures
        from.len() == present(outcomes).len(),
        forall|i: int|
            0 <= i < from.len() ==> {
                &&& 0 <= #[trigger] from[i] < outcomes.len()
                &&& outcomes[from[i]] == Some(present(outcomes)[i])
            },
        forall|i: int, j: int|
            0 <= i < j < from.len() ==> #[trigger] from[i] < #[trigger] from[j],
        forall|i: int|
            0 <= i < outcomes.len() && (#[trigger] outcomes[i]) is Some ==> from.contains(i),
    decreases outcomes.len(),
{
    if outcomes.len() == 0 {
        Seq::empty()
    } else {
        let front = outcomes.drop_last();
        let n = outcomes.len() - 1;
        let less = lemma_all_present(front);
        let from = match outcomes.last() {
            Some(_) => less.push(n),
            None => less,
        };
        assert forall|i: int| 0 <= i < from.len() implies {
            &&& 0 <= #[trigger] from[i] < outcomes.len()
            &&& outcomes[from[i]] == Some(present(outcomes)[i])
        } by {
            if i < less.len() {
                assert(from[i] == less[i]);
                assert(front[less[i]] == outcomes[less[i]]);
            }
        }
        assert forall|i: int, j: int| 0 <= i < j < from.len() implies #[trigger] from[i]
            < #[trigger] from[j] by {
            assert(from[i] == less[i]);
            if j < less.len() {
                assert(from[j] == less[j]);
            }
        }
        assert forall|i: int|
            0 <= i < outcomes.len() && (#[trigger] outcomes[i]) is Some implies from.contains(i) by {
            if i < n {
                assert(front[i] == outcomes[i]);
                assert(less.contains(i));
                let j = choose|j: int| 0 <= j < less.len() && less[j] == i;
                assert(from[j] == i);
            } else {
                assert(from[from.len() - 1] == i);
            }
        }
        from
    }
}

proof fn lemma_advance_keeps<P, A: Fn(&P) -> Option<P>>(
    advance: A,
    before: Seq<P>,
    after: Seq<P>,
) -> (from: Seq<int>)
    requires
        can_advance(advance, before, after),
    ensures
        are_survivors(advance, before, after, from),
{
    let outcomes = choose|outcomes: Seq<Option<P>>|
        {
            &&& outcomes.len() == before.len()
            &&& forall|i: int|
                0 <= i < before.len() ==> call_ensures(
                    advance,
                    (&before[i],),
                    #[trigger] outcomes[i],
                )
            &&& after == #[trigger] present(outcomes)
        };
    let from = lemma_all_present(outcomes);
    assert forall|j: int| 0 <= j < from.len() implies 0 <= #[trigger] from[j] < before.len()
        && call_ensures(advance, (&before[from[j]],), Some(after[j])) by {
        assert(outcomes[from[j]] == Some(after[j]));
    }
    assert forall|i: int|
        #![trigger before[i]]
        0 <= i < before.len() && !from.contains(i) implies call_ensures(
        advance,
        (&before[i],),
        None::<P>,
    ) by {
        assert(outcomes[i] is None);
    }
    from
}

/// The particle can be one that is spawned from the template at the place.
pub open spec fn can_be_spawned<P, W: Fn(&EmitterTemplate, &Mat4Bits, Rng) -> (P, Rng)>(
    spawn: W,
    template: EmitterTemplate,
    transform: Mat4Bits,
    particle: P,
) -> bool {
    exists|g: Rng, h: Rng| #[trigger]
        call_ensures(spawn, (&template, &transform, g), (particle, h))
}

proof fn lemma_spawned<P, D, C, W>(
    is_due: D,
    spend: C,
    spawn: W,
    template: EmitterTemplate,
    transform: Mat4Bits,
    trace: Seq<SpawnState<P>>,
    n: int,
) where
    D: Fn(u32) -> bool,
    C: Fn(u32) -> u32,
    W: Fn(&EmitterTemplate, &Mat4Bits, Rng) -> (P, Rng),

    requires
        is_spawning(is_due, spend, spawn, template, transform, trace),
        0 <= n < trace.len(),
    ensures
        trace[n].particles.len() == trace[0].particles.len() + n,
        trace[n].particles.take(trace[0].particles.len() as int) == trace[0].particles,
        forall|j: int|
            trace[0].particles.len() <= j < trace[n].particles.len() ==> can_be_spawned(
                spawn,
                template,
                transform,
                #[trigger] trace[n].particles[j],
            ),
    decreases n,
{
    let first = trace[0].particles;
    if n == 0 {
        assert(first.take(first.len() as int) =~= first);
    } else {
        lemma_spawned(is_due, spend, spawn, template, transform, trace, n - 1);
        let before = trace[n - 1];
        let after = trace[n - 1 + 1];
        assert(is_spawn(is_due, spend, spawn, template, transform, trace[n - 1], after));
        assert(after.particles.take(first.len() as int) =~= before.particles.take(
            first.len() as int,
        )) by {
            assert(after.particles.drop_last() == before.particles);
        }
        assert forall|j: int| first.len() <= j < after.particles.len() implies can_be_spawned(
            spawn,
            template,
            transform,
            #[trigger] after.particles[j],
        ) by {
            if j < before.particles.len() {
                assert(after.particles.drop_last()[j] == before.particles[j]);
            } else {
                assert(after.particles[j] == after.particles.last());
            }
        }
    }
}

/// In a step of a lit emitter the particles that have not died are kept, in
/// order, each as it has become, and behind them come new ones, every one of them
/// spawned from the emitter's template at the place where the emitter is. As long
/// as something is due and there is room, one more is spawned.
pub proof fn law_particles_spawn_where_the_emitter_is<E, S, P, L, A, G, D, C, F, W>(
    templates: Map<E, EmitterTemplate>,
    before: Seq<LiveEmitter<E, S, P>>,
    alive: L,
    k: Kinematics<A, G, D, C, F, W>,
    trace: StepTrace<E, S, P>,
    i: int,
) -> (from: Seq<int>) where
    L: Fn(&WorldObjectRef) -> bool,
    A: Fn(&P) -> Option<P>,
    G: Fn(&EmitterTemplate, u32) -> u32,
    D: Fn(u32) -> bool,
    C: Fn(u32) -> u32,
    F: Fn(u32) -> u32,
    W: Fn(&EmitterTemplate, &Mat4Bits, Rng) -> (P, Rng),

    requires
        is_stepping(templates, before, alive, k, trace),
        0 <= i < before.len(),
        before[i].declared_this_frame,
        !before[i].extinguished,
        trace.parents_alive[i],
    ensures
        call_ensures(alive, (&before[i].parent,), true),
        trace.outcomes[i] matches Some(e) && {
            let template = templates[before[i].template_id];
            &&& e.parent == before[i].parent
            &&& e.slot == before[i].slot
            &&& e.template_id == before[i].template_id
            &&& e.transform == before[i].transform
            &&& e.declared_this_frame
            &&& !e.extinguished
            &&& from.len() <= e.particles@.len()
            &&& are_survivors(
                k.advance,
                before[i].particles@,
                e.particles@.take(from.len() as int),
                from,
            )
            &&& forall|j: int|
                from.len() <= j < e.particles@.len() ==> can_be_spawned(
                    k.spawn,
                    template,
                    before[i].transform,
                    #[trigger] e.particles@[j],
                )
            &&& from.len() == e.particles@.len() && from.len() < template.max_particles
                ==> exists|gained: u32| #[trigger]
                call_ensures(k.gain, (&template, before[i].spawn_accumulator), gained)
                    && call_ensures(k.is_due, (gained,), false)
        },
{
    assert(is_step(templates, before, alive, k, trace, i));
    let template = templates[before[i].template_id];
    let e = trace.outcomes[i]->0;
    let states = choose|states: Seq<SpawnState<P>>|
        {
            &&& #[trigger] is_spawning(
                k.is_due,
                k.spend,
                k.spawn,
                template,
                before[i].transform,
                states,
            )
            &&& can_advance(k.advance, before[i].particles@, states[0].particles)
            &&& call_ensures(
                k.gain,
                (&template, before[i].spawn_accumulator),
                states[0].accumulator,
            )
            &&& states[0].rng == trace.rngs[i]
            &&& states.last().particles == e.particles@
            &&& is_left_over(
                k.is_due,
                k.forgo,
                states.last().accumulator,
                e.spawn_accumulator,
            )
            &&& states.last().rng == trace.rngs[i + 1]
        };
    let from = lemma_advance_keeps(k.advance, before[i].particles@, states[0].particles);
    lemma_spawned(
        k.is_due,
        k.spend,
        k.spawn,
        template,
        before[i].transform,
        states,
        states.len() - 1,
    );
    from
}

/// The part of a step that spawns: one state after the other, each with one more
/// particle, from the accumulator that was gained to nothing being due or no
/// room being left. Each particle is made with what the one before it left of
/// the generator, and each takes its share of what is due.
pub proof fn law_particles_spawn_one_by_one<E, S, P, L, A, G, D, C, F, W>(
    templates: Map<E, EmitterTemplate>,
    before: Seq<LiveEmitter<E, S, P>>,
    alive: L,
    k: Kinematics<A, G, D, C, F, W>,
    trace: StepTrace<E, S, P>,
    i: int,
) -> (states: Seq<SpawnState<P>>) where
    L: Fn(&WorldObjectRef) -> bool,
    A: Fn(&P) -> Option<P>,
    G: Fn(&EmitterTemplate, u32) -> u32,
    D: Fn(u32) -> bool,
    C: Fn(u32) -> u32,
    F: Fn(u32) -> u32,
    W: Fn(&EmitterTemplate, &Mat4Bits, Rng) -> (P, Rng),

    requires
        is_stepping(templates, before, alive, k, trace),
        0 <= i < before.len(),
        before[i].declared_this_frame,
        !before[i].extinguished,
        trace.parents_alive[i],
    ensures
        ({
            let template = templates[before[i].template_id];
            let n = states.len() - 1;
            &&& n >= 0
            &&& states[0].rng == trace.rngs[i]
            &&& states[n].rng == trace.rngs[i + 1]
            &&& call_ensures(
                k.gain,
                (&template, before[i].spawn_accumulator),
                states[0].accumulator,
            )
            &&& trace.outcomes[i] matches Some(e) && e.particles@ == states[n].particles
            &&& states[n].particles.len() >= template.max_particles || call_ensures(
                k.is_due,
                (states[n].accumulator,),
                false,
            )
            &&& forall|j: int|
                #![trigger states[j]]
                0 <= j < n ==> {
                    &&& states[j].particles.len() < template.max_particles
                    &&& states[j + 1].particles.len() == states[j].particles.len() + 1
                    &&& call_ensures(k.is_due, (states[j].accumulator,), true)
                    &&& call_ensures(k.spend, (states[j].accumulator,), states[j + 1].accumulator)
                    &&& call_ensures(
                        k.spawn,
                        (&template, &before[i].transform, states[j].rng),
                        (states[j + 1].particles.last(), states[j + 1].rng),
                    )
                }
        }),
{
    assert(is_step(templates, before, alive, k, trace, i));
    let template = templates[before[i].template_id];
    let e = trace.outcomes[i]->0;
    let states = choose|states: Seq<SpawnState<P>>|
        {
            &&& #[trigger] is_spawning(
                k.is_due,
                k.spend,
                k.spawn,
                template,
                before[i].transform,
                states,
            )
            &&& can_advance(k.advance, before[i].particles@, states[0].particles)
            &&& call_ensures(
                k.gain,
                (&template, before[i].spawn_accumulator),
                states[0].accumulator,
            )
            &&& states[0].rng == trace.rngs[i]
            &&& states.last().particles == e.particles@
            &&& is_left_over(
                k.is_due,
                k.forgo,
                states.last().accumulator,
                e.spawn_accumulator,
            )
            &&& states.last().rng == trace.rngs[i + 1]
        };
    assert forall|j: int|
        #![trigger states[j]]
        0 <= j < states.len() - 1 implies {
        &&& states[j].particles.len() < template.max_particles
        &&& states[j + 1].particles.len() == states[j].particles.len() + 1
        &&& call_ensures(k.is_due, (states[j].accumulator,), true)
        &&& call_ensures(k.spend, (states[j].accumulator,), states[j + 1].accumulator)
        &&& call_ensures(
            k.spawn,
            (&template, &before[i].transform, states[j].rng),
            (states[j + 1].particles.last(), states[j + 1].rng),
        )
    } by {
        assert(is_spawn(
            k.is_due,
            k.spend,
            k.spawn,
            template,
            before[i].transform,
            states[j],
            states[j + 1],
        ));
    }
    states
}

/// An emitter that was not declared, or whose parent is gone, or that was
/// extinguished before, spawns nothing and leaves the generator as it is. If its
/// particles are cut it is gone; if they linger, those that have not died are
/// kept, in order, and it stays where it is for as long as there are any.
pub proof fn law_lost_emitters_spawn_nothing<E, S, P, L, A, G, D, C, F, W>(
    templates: Map<E, EmitterTemplate>,
    before: Seq<LiveEmitter<E, S, P>>,
    alive: L,
    k: Kinematics<A, G, D, C, F, W>,
    trace: StepTrace<E, S, P>,
    i: int,
) -> (from: Seq<int>) where
    L: Fn(&WorldObjectRef) -> bool,
    A: Fn(&P) -> Option<P>,
    G: Fn(&EmitterTemplate, u32) -> u32,
    D: Fn(u32) -> bool,
    C: Fn(u32) -> u32,
    F: Fn(u32) -> u32,
    W: Fn(&EmitterTemplate, &Mat4Bits, Rng) -> (P, Rng),

    requires
        is_stepping(templates, before, alive, k, trace),
        0 <= i < before.len(),
        !before[i].declared_this_frame || !trace.parents_alive[i] || before[i].extinguished,
    ensures
        call_ensures(alive, (&before[i].parent,), trace.parents_alive[i]),
        trace.rngs[i + 1] == trace.rngs[i],
        templates[before[i].template_id].on_parent_lost is Cut ==> trace.outcomes[i] is None,
        templates[before[i].template_id].on_parent_lost is Linger ==> match trace.outcomes[i] {
            None => forall|j: int|
                0 <= j < before[i].particles@.len() ==> call_ensures(
                    k.advance,
                    (&#[trigger] before[i].particles@[j],),
                    None::<P>,
                ),
            Some(e) => {
                &&& e.particles@.len() > 0
                &&& are_survivors(k.advance, before[i].particles@, e.particles@, from)
                &&& e.parent == before[i].parent
                &&& e.slot == before[i].slot
                &&& e.template_id == before[i].template_id
                &&& e.transform == before[i].transform
                &&& e.extinguished
                &&& e.spawn_accumulator == 0
            },
        },
{
    assert(is_step(templates, before, alive, k, trace, i));
    if templates[before[i].template_id].on_parent_lost is Linger {
        match trace.outcomes[i] {
            None => {
                let from = lemma_advance_keeps(k.advance, before[i].particles@, Seq::empty());
                assert forall|j: int| 0 <= j < before[i].particles@.len() implies call_ensures(
                    k.advance,
                    (&#[trigger] before[i].particles@[j],),
                    None::<P>,
                ) by {
                    assert(!from.contains(j));
                }
                from
            },
            Some(e) => lemma_advance_keeps(k.advance, before[i].particles@, e.particles@),
        }
    } else {
        Seq::empty()
    }
}

/// After a step the emitters that are still there stand in the order in which
/// they stood, each as it has become, and none that is there is left out.
pub proof fn law_remaining_emitters_keep_their_order<E, S, P>(
    outcomes: Seq<Option<LiveEmitter<E, S, P>>>,
) -> (from: Seq<int>)
    ensures
        from.len() == present(outcomes).len(),
        forall|i: int|
            0 <= i < from.len() ==> {
                &&& 0 <= #[trigger] from[i] < outcomes.len()
                &&& outcomes[from[i]] == Some(present(outcomes)[i])
            },
        forall|i: int, j: int|
            0 <= i < j < from.len() ==> #[trigger] from[i] < #[trigger] from[j],
        forall|i: int|
            0 <= i < outcomes.len() && (#[trigger] outcomes[i]) is Some ==> from.contains(i),
{
    lemma_all_present(outcomes)
}

/// A new frame has seen no emitter yet; nothing else of them changes.
pub proof fn law_frames_start_unseen<E, S, P>(e: LiveEmitter<E, S, P>)
    ensures
        !unseen(e).declared_this_frame,
        unseen(e).parent == e.parent,
        unseen(e).slot == e.slot,
        unseen(e).template_id == e.template_id,
        unseen(e).transform == e.transform,
        unseen(e).extinguished == e.extinguished,
        unseen(e).spawn_accumulator == e.spawn_accumulator,
        unseen(e).particles == e.particles,
{
}

/// The particle at `j` of the emitter at `i` is listed.
pub open spec fn is_listed<E, S, P>(
    live: Seq<LiveEmitter<E, S, P>>,
    i: int,
    j: int,
    at: int,
    listed: Seq<(E, P)>,
) -> bool {
    &&& 0 <= at < listed.len()
    &&& listed[at] == (live[i].template_id, live[i].particles@[j])
}

proof fn lemma_particle_place<E, S, P>(live: Seq<LiveEmitter<E, S, P>>, i: int, j: int) -> (at: int)
    requires
        0 <= i < live.len(),
        0 <= j < live[i].particles@.len(),
    ensures
        is_listed(live, i, j, at, particles_of(live)),
        at == particles_of(live.take(i)).len() + j,
    decreases live.len(),
{
    let front = live.drop_last();
    let last = live.last();
    let n = particles_of(front).len() as int;
    let added = last.particles@.map_values(|p: P| (last.template_id, p));
    if i == front.len() {
        assert(live.take(i) =~= front);
        assert(particles_of(live)[n + j] == added[j]);
        n + j
    } else {
        let at = lemma_particle_place(front, i, j);
        assert(front.take(i) =~= live.take(i));
        assert(front[i] == live[i]);
        assert(particles_of(live)[at] == particles_of(front)[at]);
        at
    }
}

/// Every particle of every emitter is listed, with the template of its emitter:
/// behind all those of the emitters before it, and in the order of its emitter.
/// There are as many as are counted.
pub proof fn law_every_particle_is_listed<E: Copy + Eq + Hash, S: Copy + Eq, P>(
    reconciler: EmitterReconciler<E, S, P>,
    listed: Vec<(E, &P)>,
    count: usize,
    i: int,
    j: int,
) -> (at: int)
    requires
        call_ensures(EmitterReconciler::<E, S, P>::iter_particles, (&reconciler,), listed),
        call_ensures(EmitterReconciler::<E, S, P>::live_particle_count, (&reconciler,), count),
        0 <= i < reconciler.live().len(),
        0 <= j < reconciler.live()[i].particles@.len(),
    ensures
        count == listed@.len(),
        0 <= at < listed@.len(),
        listed@[at].0 == reconciler.live()[i].template_id,
        *listed@[at].1 == reconciler.live()[i].particles@[j],
        at == particles_before(reconciler.live(), i) + j,
        count == particles_before(reconciler.live(), reconciler.live().len() as int),
{
    let live = reconciler.live();
    lemma_particles_before(live, i);
    lemma_particles_before(live, live.len() as int);
    assert(live.take(live.len() as int) =~= live);
    let at = lemma_particle_place(live, i, j);
    let entry = listed@[at];
    at
}

/// How many particles the first `n` emitters have.
pub open spec fn particles_before<E, S, P>(live: Seq<LiveEmitter<E, S, P>>, n: int) -> int
    decreases n,
{
    if n <= 0 {
        0
    } else {
        particles_before(live, n - 1) + live[n - 1].particles@.len()
    }
}

proof fn lemma_particles_before<E, S, P>(live: Seq<LiveEmitter<E, S, P>>, n: int)
    requires
        0 <= n <= live.len(),
    ensures
        particles_of(live.take(n)).len() == particles_before(live, n),
    decreases n,
{
    if n > 0 {
        lemma_particles_before(live, n - 1);
        assert(live.take(n).drop_last() =~= live.take(n - 1));
        assert(live.take(n).last() == live[n - 1]);
    }
}

} // verus!
