//! The per-frame walk over render objects.
//!
//! First every placed object that has a template is declared, and what is out
//! of view is culled. Then the view brings each live object up to date.
//! Last, each visible part is listed for drawing, with one hit id per parent.

use super::live_render_objects::{
    changed, clones_are_same, copy_id, has_key, is_culled, is_declared, keys_distinct,
    law_declared_objects_stand_where_declared, unseen, Declaration, LiveEntry, LiveRenderObject,
    LiveRenderObjects, PartState,
};
use super::mesh::Aabb;
use super::picking_buffer::{advanced, FrameIdTable, ObjectEntry};
use super::render_object::{
    Mat4Bits, NodeKind, RenderRegistry, RenderTemplate, TemplateNode,
};
use crate::sim::WorldObjectRef;
use std::hash::Hash;
use vstd::laws_eq::obeys_concrete_eq;
use vstd::prelude::*;
use vstd::std_specs::hash::obeys_key_model;

verus! {

/// An object of the world as the view places it.
pub struct PlacedObject<R> {
    pub parent: WorldObjectRef,
    /// What it looks like; objects without a render id are not drawn.
    pub render_id: Option<R>,
    pub world_xform: Mat4Bits,
}

/// One visible part of a live object.
#[derive(Debug, Clone, Copy)]
pub struct PartDraw {
    /// The position of the live object.
    pub entry: usize,
    /// The slot of the part's node in the template.
    pub slot: u32,
    /// Whether the part is an emitter rather than a mesh.
    pub emitter: bool,
    /// The hit id of the object; all its parts share it.
    pub hit_id: u32,
}

/// The node holds a part of the given kind.
pub open spec fn is_part<M, MK, E, S>(node: TemplateNode<M, MK, E, S>, emitter: bool) -> bool {
    match node.kind {
        NodeKind::Empty => false,
        NodeKind::Mesh(_) => !emitter,
        NodeKind::Emitter(_) => emitter,
    }
}

/// The slots of the parts of the given kind, in order.
pub open spec fn part_slots<M, MK, E, S>(
    nodes: Seq<TemplateNode<M, MK, E, S>>,
    emitter: bool,
) -> Seq<u32>
    decreases nodes.len(),
{
    if nodes.len() == 0 {
        Seq::empty()
    } else if is_part(nodes.last(), emitter) {
        part_slots(nodes.drop_last(), emitter).push((nodes.len() - 1) as u32)
    } else {
        part_slots(nodes.drop_last(), emitter)
    }
}

/// Whether part number `k` shows. A part without a state does.
pub open spec fn shows(states: Seq<PartState>, k: int) -> bool {
    k < states.len() ==> states[k].visible
}

/// The draws of the first `n` parts of one kind.
pub open spec fn draws_of_kind(
    slots: Seq<u32>,
    states: Seq<PartState>,
    entry: usize,
    emitter: bool,
    hit_id: u32,
    n: nat,
) -> Seq<PartDraw>
    decreases n,
{
    if n == 0 {
        Seq::empty()
    } else {
        let front = draws_of_kind(slots, states, entry, emitter, hit_id, (n - 1) as nat);
        if shows(states, n - 1) {
            front.push(PartDraw { entry, slot: slots[n - 1], emitter, hit_id })
        } else {
            front
        }
    }
}

/// The draws of one live object: its visible mesh parts, then its visible
/// emitter parts.
pub open spec fn draws_of<R, M, MK, E, S>(
    live: LiveEntry<R>,
    nodes: Seq<TemplateNode<M, MK, E, S>>,
    entry: usize,
    hit_id: u32,
) -> Seq<PartDraw> {
    draws_of_kind(
        part_slots(nodes, false),
        live.object.mesh_parts@,
        entry,
        false,
        hit_id,
        part_slots(nodes, false).len(),
    ) + draws_of_kind(
        part_slots(nodes, true),
        live.object.emitter_parts@,
        entry,
        true,
        hit_id,
        part_slots(nodes, true).len(),
    )
}

/// A live object that is drawn at all.
pub open spec fn is_drawn<R, M, MK, E, S>(
    live: LiveEntry<R>,
    templates: Map<R, RenderTemplate<M, MK, E, S>>,
) -> bool {
    live.object.root_visible && templates.contains_key(live.render_id)
}

/// What a walk over live objects yields.
#[verifier::ext_equal]
pub struct Walk {
    pub draws: Seq<PartDraw>,
    /// The reservations that it made.
    pub reserved: Seq<ObjectEntry>,
    /// The next free hit id.
    pub next_id: u32,
}

/// The walk over `entries` that starts at hit id `start`: each object that is
/// drawn reserves one id, and its visible parts are listed with it.
pub open spec fn walked<R, M, MK, E, S>(
    entries: Seq<LiveEntry<R>>,
    templates: Map<R, RenderTemplate<M, MK, E, S>>,
    start: u32,
) -> Walk
    decreases entries.len(),
{
    if entries.len() == 0 {
        Walk { draws: Seq::empty(), reserved: Seq::empty(), next_id: start }
    } else {
        let before = walked(entries.drop_last(), templates, start);
        let live = entries.last();
        if is_drawn(live, templates) {
            Walk {
                draws: before.draws + draws_of(
                    live,
                    templates[live.render_id].spec_nodes(),
                    (entries.len() - 1) as usize,
                    before.next_id,
                ),
                reserved: before.reserved.push(
                    ObjectEntry {
                        hit_id: before.next_id,
                        zone: live.parent.zone,
                        object_id: live.parent.id,
                    },
                ),
                next_id: advanced(before.next_id, 1),
            }
        } else {
            before
        }
    }
}

/// The same walk without hit ids.
pub open spec fn listed<R, M, MK, E, S>(
    entries: Seq<LiveEntry<R>>,
    templates: Map<R, RenderTemplate<M, MK, E, S>>,
) -> Seq<PartDraw>
    decreases entries.len(),
{
    if entries.len() == 0 {
        Seq::empty()
    } else {
        let before = listed(entries.drop_last(), templates);
        let live = entries.last();
        if is_drawn(live, templates) {
            before + draws_of(
                live,
                templates[live.render_id].spec_nodes(),
                (entries.len() - 1) as usize,
                0,
            )
        } else {
            before
        }
    }
}

/// `bounds` can be what the bounds of a template are in the world.
pub open spec fn can_place<P: Fn(&Aabb, &Mat4Bits) -> Aabb>(
    place: P,
    local: Option<Aabb>,
    xform: Mat4Bits,
    bounds: Option<Aabb>,
) -> bool {
    match (local, bounds) {
        (Some(aabb), Some(placed)) => call_ensures(place, (&aabb, &xform), placed),
        (None, None) => true,
        _ => false,
    }
}

/// One placed object takes the live objects from `before` to `after`: it is
/// declared, unless it has no render id or its render id has no template.
pub open spec fn is_step<R, M, MK, E, S, P: Fn(&Aabb, &Mat4Bits) -> Aabb>(
    object: PlacedObject<R>,
    templates: Map<R, RenderTemplate<M, MK, E, S>>,
    place: P,
    before: Seq<LiveEntry<R>>,
    after: Seq<LiveEntry<R>>,
    hysteresis: u32,
) -> bool {
    match object.render_id {
        None => after == before,
        Some(id) => if !templates.contains_key(id) {
            after == before
        } else {
            exists|bounds: Option<Aabb>|
                {
                    &&& #[trigger] can_place(
                        place,
                        templates[id].spec_bounds(),
                        object.world_xform,
                        bounds,
                    )
                    &&& is_declared(
                        before,
                        after,
                        (Declaration {
                            parent: object.parent,
                            render_id: id,
                            world_xform: object.world_xform,
                            world_aabb: bounds,
                        }),
                        hysteresis,
                        part_slots(templates[id].spec_nodes(), false).len(),
                        part_slots(templates[id].spec_nodes(), true).len(),
                    )
                }
        },
    }
}

/// The placed objects, in order, take the live objects through `trace`.
pub open spec fn is_trace<R, M, MK, E, S, P: Fn(&Aabb, &Mat4Bits) -> Aabb>(
    objects: Seq<PlacedObject<R>>,
    templates: Map<R, RenderTemplate<M, MK, E, S>>,
    place: P,
    trace: Seq<Seq<LiveEntry<R>>>,
    hysteresis: u32,
) -> bool {
    &&& trace.len() == objects.len() + 1
    &&& forall|i: int|
        0 <= i < objects.len() ==> is_step(
            #[trigger] objects[i],
            templates,
            place,
            trace[i],
            trace[i + 1],
            hysteresis,
        )
}

/// One live object after the view has changed it. Objects without a template
/// are left alone.
pub open spec fn is_updated<R, M, MK, E, S, F: Fn(&LiveEntry<R>) -> LiveRenderObject>(
    templates: Map<R, RenderTemplate<M, MK, E, S>>,
    on_instance: F,
    before: LiveEntry<R>,
    after: LiveEntry<R>,
) -> bool {
    if templates.contains_key(before.render_id) {
        exists|object: LiveRenderObject|
            #[trigger] call_ensures(on_instance, (&before,), object) && after == changed(
                before,
                object,
            )
    } else {
        after == before
    }
}

/// The slots of the parts of the given kind.
fn slots_of_kind<M, MK, E, S>(nodes: &[TemplateNode<M, MK, E, S>], emitter: bool) -> (r: Vec<u32>)
    requires
        nodes@.len() <= 0x1_0000,
    ensures
        r@ == part_slots(nodes@, emitter),
{
    let mut out: Vec<u32> = Vec::new();
    let mut i: usize = 0;
    while i < nodes.len()
        invariant
            i <= nodes@.len() <= 0x1_0000,
            out@ == part_slots(nodes@.take(i as int), emitter),
        decreases nodes@.len() - i,
    {
        let here = match &nodes[i].kind {
            NodeKind::Empty => false,
            NodeKind::Mesh(_) => !emitter,
            NodeKind::Emitter(_) => emitter,
        };
        assert(nodes@.take(i + 1).drop_last() =~= nodes@.take(i as int));
        if here {
            out.push(i as u32);
        }
        i += 1;
    }
    assert(nodes@.take(i as int) =~= nodes@);
    out
}

/// Appends the draws of the parts of one kind.
fn push_draws(
    out: &mut Vec<PartDraw>,
    slots: &Vec<u32>,
    states: &Vec<PartState>,
    entry: usize,
    emitter: bool,
    hit_id: u32,
)
    ensures
        final(out)@ == old(out)@ + draws_of_kind(
            slots@,
            states@,
            entry,
            emitter,
            hit_id,
            slots@.len(),
        ),
{
    let ghost before = out@;
    let mut k: usize = 0;
    assert(before + draws_of_kind(slots@, states@, entry, emitter, hit_id, 0) =~= before);
    while k < slots.len()
        invariant
            k <= slots@.len(),
            out@ == before + draws_of_kind(slots@, states@, entry, emitter, hit_id, k as nat),
        decreases slots@.len() - k,
    {
        let ghost now = draws_of_kind(slots@, states@, entry, emitter, hit_id, k as nat);
        let visible = k >= states.len() || states[k].visible;
        if visible {
            let draw = PartDraw { entry, slot: slots[k], emitter, hit_id };
            out.push(draw);
            assert(out@ =~= before + now.push(draw));
        }
        k += 1;
    }
}

/// Appends the draws of one live object.
fn push_object<R, M, MK, E, S>(
    out: &mut Vec<PartDraw>,
    live: &LiveEntry<R>,
    template: &RenderTemplate<M, MK, E, S>,
    entry: usize,
    hit_id: u32,
)
    ensures
        final(out)@ == old(out)@ + draws_of(*live, template.spec_nodes(), entry, hit_id),
{
    let ghost before = out@;
    let meshes = slots_of_kind(template.nodes(), false);
    let emitters = slots_of_kind(template.nodes(), true);
    push_draws(out, &meshes, &live.object.mesh_parts, entry, false, hit_id);
    push_draws(out, &emitters, &live.object.emitter_parts, entry, true, hit_id);
    assert(out@ =~= before + draws_of(*live, template.spec_nodes(), entry, hit_id));
}

/// The meshes among some draws, in order.
pub open spec fn meshes_among(draws: Seq<PartDraw>) -> Seq<PartDraw>
    decreases draws.len(),
{
    if draws.len() == 0 {
        Seq::empty()
    } else if draws.last().emitter {
        meshes_among(draws.drop_last())
    } else {
        meshes_among(draws.drop_last()).push(draws.last())
    }
}

/// Keeps the meshes among some draws.
fn only_meshes(draws: &Vec<PartDraw>) -> (r: Vec<PartDraw>)
    ensures
        r@ == meshes_among(draws@),
{
    let mut out: Vec<PartDraw> = Vec::new();
    let mut i: usize = 0;
    while i < draws.len()
        invariant
            i <= draws@.len(),
            out@ == meshes_among(draws@.take(i as int)),
        decreases draws@.len() - i,
    {
        assert(draws@.take(i + 1).drop_last() =~= draws@.take(i as int));
        if !draws[i].emitter {
            out.push(draws[i]);
        }
        i += 1;
    }
    assert(draws@.take(i as int) =~= draws@);
    out
}

/// The walk over render objects.
pub struct RenderObjectPass;

impl RenderObjectPass {
    /// Declares every placed object that has a template, and culls what is out
    /// of view. `place` says where a template's bounds are in the world,
    /// `inside` whether bounds are in view.
    pub fn declare_and_cull<
        R: Clone + Eq + Hash,
        M,
        MK,
        E,
        S,
        P: Fn(&Aabb, &Mat4Bits) -> Aabb,
        F: Fn(&Aabb) -> bool,
    >(
        objects: &Vec<PlacedObject<R>>,
        templates: &RenderRegistry<R, M, MK, E, S>,
        live_objects: &mut LiveRenderObjects<R>,
        place: P,
        inside: F,
    )
        requires
            obeys_concrete_eq::<R>(),
            obeys_key_model::<R>(),
            clones_are_same::<R>(),
            forall|a: &Aabb, x: &Mat4Bits| #[trigger] call_requires(place, (a, x)),
            forall|a: &Aabb| #[trigger] call_requires(inside, (a,)),
        ensures
            exists|trace: Seq<Seq<LiveEntry<R>>>|
                {
                    &&& #[trigger] is_trace(
                        objects@,
                        templates@,
                        place,
                        trace,
                        old(live_objects).spec_hysteresis(),
                    )
                    &&& trace[0] == old(live_objects).entries().map_values(
                        |e: LiveEntry<R>| unseen(e),
                    )
                    &&& is_culled(
                        trace.last(),
                        final(live_objects).entries(),
                        inside,
                        old(live_objects).spec_hysteresis(),
                    )
                },
            final(live_objects).spec_hysteresis() == old(live_objects).spec_hysteresis(),
    {
        let ghost hysteresis = live_objects.spec_hysteresis();
        live_objects.begin_frame();
        let ghost first = live_objects.entries();
        let ghost mut trace: Seq<Seq<LiveEntry<R>>> = seq![live_objects.entries()];
        let mut i: usize = 0;
        while i < objects.len()
            invariant
                i <= objects@.len(),
                obeys_concrete_eq::<R>(),
                obeys_key_model::<R>(),
                clones_are_same::<R>(),
                forall|a: &Aabb, x: &Mat4Bits| #[trigger] call_requires(place, (a, x)),
                live_objects.spec_hysteresis() == hysteresis,
                trace.len() == i + 1,
                trace[0] == first,
                trace.last() == live_objects.entries(),
                forall|k: int|
                    0 <= k < i ==> is_step(
                        #[trigger] objects@[k],
                        templates@,
                        place,
                        trace[k],
                        trace[k + 1],
                        hysteresis,
                    ),
            decreases objects@.len() - i,
        {
            let object = &objects[i];
            let ghost before = live_objects.entries();
            match &object.render_id {
                Some(id) => match templates.get(id) {
                    Some(template) => {
                        let xform = object.world_xform;
                        let bounds = match template.visual_bounds() {
                            Some(local) => Some(place(&local, &xform)),
                            None => None,
                        };
                        assert(can_place(place, template.spec_bounds(), xform, bounds));
                        let meshes = slots_of_kind(template.nodes(), false);
                        let emitters = slots_of_kind(template.nodes(), true);
                        live_objects.declare_with_parts(
                            object.parent,
                            copy_id(id),
                            xform,
                            bounds,
                            meshes.len(),
                            emitters.len(),
                        );
                    },
                    None => {},
                },
                None => {},
            }
            proof {
                let ghost now = live_objects.entries();
                assert(is_step(*object, templates@, place, before, now, hysteresis));
                let longer = trace.push(now);
                assert forall|k: int| 0 <= k < i + 1 implies is_step(
                    #[trigger] objects@[k],
                    templates@,
                    place,
                    longer[k],
                    longer[k + 1],
                    hysteresis,
                ) by {
                    if k < i {
                        assert(longer[k] == trace[k] && longer[k + 1] == trace[k + 1]);
                    }
                }
                trace = longer;
            }
            i += 1;
        }
        assert(is_trace(objects@, templates@, place, trace, hysteresis));
        live_objects.cull(inside);
    }

    /// Asks the view what each live object with a template is to be: where it
    /// stands, what room it takes up and what of it shows.
    pub fn update_instances<
        R: Clone + Eq + Hash,
        M,
        MK,
        E,
        S,
        F: Fn(&LiveEntry<R>) -> LiveRenderObject,
    >(
        templates: &RenderRegistry<R, M, MK, E, S>,
        live_objects: &mut LiveRenderObjects<R>,
        on_instance: F,
    )
        requires
            obeys_key_model::<R>(),
            forall|e: &LiveEntry<R>| #[trigger] call_requires(on_instance, (e,)),
        ensures
            final(live_objects).entries().len() == old(live_objects).entries().len(),
            forall|i: int|
                0 <= i < old(live_objects).entries().len() ==> is_updated(
                    templates@,
                    on_instance,
                    #[trigger] old(live_objects).entries()[i],
                    final(live_objects).entries()[i],
                ),
            final(live_objects).spec_hysteresis() == old(live_objects).spec_hysteresis(),
    {
        let ghost before = live_objects.entries();
        let ghost hysteresis = live_objects.spec_hysteresis();
        let n = live_objects.len();
        let mut i: usize = 0;
        while i < n
            invariant
                i <= n == before.len(),
                obeys_key_model::<R>(),
                forall|e: &LiveEntry<R>| #[trigger] call_requires(on_instance, (e,)),
                live_objects.entries().len() == n,
                live_objects.spec_hysteresis() == hysteresis,
                forall|k: int| i <= k < n ==> live_objects.entries()[k] == before[k],
                forall|k: int|
                    0 <= k < i ==> is_updated(
                        templates@,
                        on_instance,
                        #[trigger] before[k],
                        live_objects.entries()[k],
                    ),
            decreases n - i,
        {
            let entry = live_objects.get(i);
            if templates.get(&entry.render_id).is_some() {
                let object = on_instance(entry);
                assert(call_ensures(on_instance, (&before[i as int],), object));
                live_objects.set_object(i, object);
            }
            i += 1;
        }
    }

    /// Lists every visible part of every live object that is drawn.
    pub fn for_each_alive<R: Clone + Eq + Hash, M, MK, E, S>(
        templates: &RenderRegistry<R, M, MK, E, S>,
        live_objects: &LiveRenderObjects<R>,
    ) -> (r: Vec<PartDraw>)
        requires
            obeys_key_model::<R>(),
        ensures
            r@ == listed(live_objects.entries(), templates@),
    {
        let ghost entries = live_objects.entries();
        let mut out: Vec<PartDraw> = Vec::new();
        let n = live_objects.len();
        let mut i: usize = 0;
        while i < n
            invariant
                i <= n == entries.len(),
                entries == live_objects.entries(),
                obeys_key_model::<R>(),
                out@ == listed(entries.take(i as int), templates@),
            decreases n - i,
        {
            let live = live_objects.get(i);
            assert(entries.take(i + 1).drop_last() =~= entries.take(i as int));
            if live.object.root_visible {
                match templates.get(&live.render_id) {
                    Some(template) => push_object(&mut out, live, template, i, 0),
                    None => {},
                }
            }
            i += 1;
        }
        assert(entries.take(i as int) =~= entries);
        out
    }

    /// Lists every visible mesh part of every live object that is drawn.
    pub fn for_each_alive_part<R: Clone + Eq + Hash, M, MK, E, S>(
        templates: &RenderRegistry<R, M, MK, E, S>,
        live_objects: &LiveRenderObjects<R>,
    ) -> (r: Vec<PartDraw>)
        requires
            obeys_key_model::<R>(),
        ensures
            r@ == meshes_among(listed(live_objects.entries(), templates@)),
    {
        only_meshes(&RenderObjectPass::for_each_alive(templates, live_objects))
    }

    /// Lists every visible mesh part of every live object that is drawn, and
    /// reserves one hit id for each such object.
    pub fn for_each_alive_part_with_hit_id<R: Clone + Eq + Hash, M, MK, E, S>(
        templates: &RenderRegistry<R, M, MK, E, S>,
        live_objects: &LiveRenderObjects<R>,
        table: &mut FrameIdTable,
    ) -> (r: Vec<PartDraw>)
        requires
            obeys_key_model::<R>(),
        ensures
            ({
                let walk = walked(live_objects.entries(), templates@, old(table).next_id());
                &&& r@ == meshes_among(walk.draws)
                &&& final(table).objects() == old(table).objects() + walk.reserved
                &&& final(table).chunks() == old(table).chunks()
                &&& final(table).next_id() == walk.next_id
            }),
    {
        only_meshes(
            &RenderObjectPass::for_each_alive_with_hit_id(templates, live_objects, table),
        )
    }

    /// Lists every visible part of every live object that is drawn, and
    /// reserves one hit id for each such object.
    pub fn for_each_alive_with_hit_id<R: Clone + Eq + Hash, M, MK, E, S>(
        templates: &RenderRegistry<R, M, MK, E, S>,
        live_objects: &LiveRenderObjects<R>,
        table: &mut FrameIdTable,
    ) -> (r: Vec<PartDraw>)
        requires
            obeys_key_model::<R>(),
        ensures
            ({
                let walk = walked(live_objects.entries(), templates@, old(table).next_id());
                &&& r@ == walk.draws
                &&& final(table).objects() == old(table).objects() + walk.reserved
                &&& final(table).chunks() == old(table).chunks()
                &&& final(table).next_id() == walk.next_id
            }),
    {
        let ghost entries = live_objects.entries();
        let ghost start = table.next_id();
        let ghost objects = table.objects();
        let ghost chunks = table.chunks();
        let mut out: Vec<PartDraw> = Vec::new();
        let n = live_objects.len();
        let mut i: usize = 0;
        assert(objects + Seq::<ObjectEntry>::empty() =~= objects);
        while i < n
            invariant
                i <= n == entries.len(),
                entries == live_objects.entries(),
                obeys_key_model::<R>(),
                out@ == walked(entries.take(i as int), templates@, start).draws,
                table.objects() == objects + walked(
                    entries.take(i as int),
                    templates@,
                    start,
                ).reserved,
                table.chunks() == chunks,
                table.next_id() == walked(entries.take(i as int), templates@, start).next_id,
            decreases n - i,
        {
            let live = live_objects.get(i);
            let ghost now = walked(entries.take(i as int), templates@, start);
            assert(entries.take(i + 1).drop_last() =~= entries.take(i as int));
            if live.object.root_visible {
                match templates.get(&live.render_id) {
                    Some(template) => {
                        let hit_id = table.reserve_object(live.parent.zone, live.parent.id);
                        push_object(&mut out, live, template, i, hit_id);
                        assert(table.objects() =~= objects + walked(
                            entries.take(i + 1),
                            templates@,
                            start,
                        ).reserved);
                    },
                    None => {},
                }
            }
            i += 1;
        }
        assert(entries.take(i as int) =~= entries);
        out
    }
}

/// All parts of an object carry the object's hit id, and an object whose root
/// is hidden is neither listed nor given an id.
pub proof fn law_one_hit_id_per_visible_object<R, M, MK, E, S>(
    entries: Seq<LiveEntry<R>>,
    templates: Map<R, RenderTemplate<M, MK, E, S>>,
    start: u32,
)
    requires
        entries.len() > 0,
        entries.len() <= usize::MAX,
    ensures
        ({
            let before = walked(entries.drop_last(), templates, start);
            let after = walked(entries, templates, start);
            if is_drawn(entries.last(), templates) {
                &&& after.reserved.len() == before.reserved.len() + 1
                &&& before.draws.len() <= after.draws.len()
                &&& forall|k: int|
                    before.draws.len() <= k < after.draws.len() ==> {
                        &&& (#[trigger] after.draws[k]).hit_id == after.reserved.last().hit_id
                        &&& after.draws[k].entry == entries.len() - 1
                    }
            } else {
                after == before
            }
        }),
{
    let before = walked(entries.drop_last(), templates, start);
    let live = entries.last();
    if is_drawn(live, templates) {
        let nodes = templates[live.render_id].spec_nodes();
        let at = (entries.len() - 1) as usize;
        let meshes = part_slots(nodes, false);
        let emitters = part_slots(nodes, true);
        lemma_draws_of_kind(
            meshes,
            live.object.mesh_parts@,
            at,
            false,
            before.next_id,
            meshes.len(),
        );
        lemma_draws_of_kind(
            emitters,
            live.object.emitter_parts@,
            at,
            true,
            before.next_id,
            emitters.len(),
        );
        let added = draws_of(live, nodes, at, before.next_id);
        let after = walked(entries, templates, start);
        assert forall|k: int| before.draws.len() <= k < after.draws.len() implies {
            &&& (#[trigger] after.draws[k]).hit_id == after.reserved.last().hit_id
            &&& after.draws[k].entry == entries.len() - 1
        } by {
            assert(after.draws[k] == added[k - before.draws.len()]);
        }
    }
}

proof fn lemma_draws_of_kind(
    slots: Seq<u32>,
    states: Seq<PartState>,
    entry: usize,
    emitter: bool,
    hit_id: u32,
    n: nat,
)
    ensures
        forall|k: int|
            0 <= k < draws_of_kind(slots, states, entry, emitter, hit_id, n).len() ==> {
                &&& (#[trigger] draws_of_kind(
                    slots,
                    states,
                    entry,
                    emitter,
                    hit_id,
                    n,
                )[k]).hit_id == hit_id
                &&& draws_of_kind(slots, states, entry, emitter, hit_id, n)[k].entry == entry
            },
    decreases n,
{
    if n > 0 {
        lemma_draws_of_kind(slots, states, entry, emitter, hit_id, (n - 1) as nat);
        let front = draws_of_kind(slots, states, entry, emitter, hit_id, (n - 1) as nat);
        let all = draws_of_kind(slots, states, entry, emitter, hit_id, n);
        assert forall|k: int| 0 <= k < all.len() implies {
            &&& (#[trigger] all[k]).hit_id == hit_id
            &&& all[k].entry == entry
        } by {
            if k < front.len() {
                assert(all[k] == front[k]);
            }
        }
    }
}

/// How many of the first `n` nodes hold a part: a mesh, or an emitter if
/// `emitter` asks for those.
pub open spec fn parts_before<M, MK, E, S>(
    nodes: Seq<TemplateNode<M, MK, E, S>>,
    emitter: bool,
    n: int,
) -> int
    decreases n,
{
    if n <= 0 {
        0
    } else if if emitter {
        nodes[n - 1].kind is Emitter
    } else {
        nodes[n - 1].kind is Mesh
    } {
        parts_before(nodes, emitter, n - 1) + 1
    } else {
        parts_before(nodes, emitter, n - 1)
    }
}

/// The state of part number `k` does not hide it.
pub open spec fn is_not_hidden(states: Seq<PartState>, k: int) -> bool {
    k < states.len() ==> states[k].visible
}

/// The node at the draw's slot is a mesh or an emitter, as the draw says, and
/// the part that it holds is not hidden.
pub open spec fn is_part_of<M, MK, E, S>(
    draw: PartDraw,
    nodes: Seq<TemplateNode<M, MK, E, S>>,
    mesh_parts: Seq<PartState>,
    emitter_parts: Seq<PartState>,
) -> bool {
    &&& draw.slot < nodes.len()
    &&& if draw.emitter {
        &&& nodes[draw.slot as int].kind is Emitter
        &&& is_not_hidden(emitter_parts, parts_before(nodes, true, draw.slot as int))
    } else {
        &&& nodes[draw.slot as int].kind is Mesh
        &&& is_not_hidden(mesh_parts, parts_before(nodes, false, draw.slot as int))
    }
}

/// The draw is of a visible part of a live object that is not hidden and has a
/// template.
pub open spec fn is_visible_part<R, M, MK, E, S>(
    draw: PartDraw,
    entries: Seq<LiveEntry<R>>,
    templates: Map<R, RenderTemplate<M, MK, E, S>>,
) -> bool {
    &&& draw.entry < entries.len()
    &&& entries[draw.entry as int].object.root_visible
    &&& templates.contains_key(entries[draw.entry as int].render_id)
    &&& is_part_of(
        draw,
        templates[entries[draw.entry as int].render_id].spec_nodes(),
        entries[draw.entry as int].object.mesh_parts@,
        entries[draw.entry as int].object.emitter_parts@,
    )
}

/// The draws are of the same part.
pub open spec fn is_same_part(a: PartDraw, b: PartDraw) -> bool {
    a.entry == b.entry && a.slot == b.slot && a.emitter == b.emitter
}

/// One of the draws is of the part.
pub open spec fn lists_part(draws: Seq<PartDraw>, part: PartDraw) -> bool {
    exists|p: int| 0 <= p < draws.len() && is_same_part(#[trigger] draws[p], part)
}

/// One draw stands before another: older objects first, of an object the meshes
/// first, and of a kind the lower slots first.
pub open spec fn is_drawn_before(a: PartDraw, b: PartDraw) -> bool {
    ||| a.entry < b.entry
    ||| a.entry == b.entry && !a.emitter && b.emitter
    ||| a.entry == b.entry && a.emitter == b.emitter && a.slot < b.slot
}

/// The draws are all visible parts, each once, in order.
pub open spec fn are_visible_parts<R, M, MK, E, S>(
    draws: Seq<PartDraw>,
    entries: Seq<LiveEntry<R>>,
    templates: Map<R, RenderTemplate<M, MK, E, S>>,
) -> bool {
    &&& forall|p: int|
        0 <= p < draws.len() ==> is_visible_part(#[trigger] draws[p], entries, templates)
    &&& forall|p: int, q: int|
        0 <= p < q < draws.len() ==> is_drawn_before(#[trigger] draws[p], #[trigger] draws[q])
    &&& forall|part: PartDraw|
        is_visible_part(part, entries, templates) ==> #[trigger] lists_part(draws, part)
}

/// Every template's slots can be numbered.
pub open spec fn is_numbered<R, M, MK, E, S>(
    templates: Map<R, RenderTemplate<M, MK, E, S>>,
) -> bool {
    forall|id: R| #[trigger]
        templates.contains_key(id) ==> templates[id].spec_nodes().len() <= 0x1_0000
}

proof fn lemma_part_slots<M, MK, E, S>(nodes: Seq<TemplateNode<M, MK, E, S>>, emitter: bool)
    requires
        nodes.len() <= 0x1_0000,
    ensures
        part_slots(nodes, emitter).len() == parts_before(nodes, emitter, nodes.len() as int),
        forall|j: int|
            0 <= j < part_slots(nodes, emitter).len() ==> {
                let slot = #[trigger] part_slots(nodes, emitter)[j] as int;
                &&& slot < nodes.len()
                &&& if emitter {
                    nodes[slot].kind is Emitter
                } else {
                    nodes[slot].kind is Mesh
                }
                &&& parts_before(nodes, emitter, slot) == j
            },
        forall|i: int, j: int|
            0 <= i < j < part_slots(nodes, emitter).len() ==> #[trigger] part_slots(
                nodes,
                emitter,
            )[i] < #[trigger] part_slots(nodes, emitter)[j],
        forall|slot: int|
            0 <= slot < nodes.len() && (if emitter {
                (#[trigger] nodes[slot]).kind is Emitter
            } else {
                nodes[slot].kind is Mesh
            }) ==> {
                &&& 0 <= parts_before(nodes, emitter, slot) < part_slots(nodes, emitter).len()
                &&& part_slots(nodes, emitter)[parts_before(nodes, emitter, slot)] == slot
            },
    decreases nodes.len(),
{
    if nodes.len() > 0 {
        let front = nodes.drop_last();
        lemma_part_slots(front, emitter);
        let n = nodes.len() as int;
        assert forall|k: int| 0 <= k < n implies #[trigger] parts_before(front, emitter, k)
            == parts_before(nodes, emitter, k) by {
            lemma_parts_before_prefix(nodes, emitter, k);
        }
        let less = part_slots(front, emitter);
        let all = part_slots(nodes, emitter);
        assert forall|j: int| 0 <= j < all.len() implies {
            let slot = #[trigger] all[j] as int;
            &&& slot < nodes.len()
            &&& if emitter {
                nodes[slot].kind is Emitter
            } else {
                nodes[slot].kind is Mesh
            }
            &&& parts_before(nodes, emitter, slot) == j
        } by {
            if j < less.len() {
                assert(all[j] == less[j]);
                let slot = less[j] as int;
                assert(front[slot] == nodes[slot]);
                assert(parts_before(front, emitter, slot) == j);
            } else {
                assert(all[j] == n - 1);
                assert(nodes[n - 1] == nodes.last());
                assert(parts_before(front, emitter, n - 1) == less.len());
            }
        }
        assert forall|slot: int|
            0 <= slot < nodes.len() && (if emitter {
                (#[trigger] nodes[slot]).kind is Emitter
            } else {
                nodes[slot].kind is Mesh
            }) implies {
            &&& 0 <= parts_before(nodes, emitter, slot) < all.len()
            &&& all[parts_before(nodes, emitter, slot)] == slot
        } by {
            if slot < n - 1 {
                assert(front[slot] == nodes[slot]);
                assert(parts_before(front, emitter, slot) == parts_before(nodes, emitter, slot));
            } else {
                assert(parts_before(front, emitter, n - 1) == less.len());
            }
        }
        assert forall|i: int, j: int| 0 <= i < j < all.len() implies #[trigger] all[i]
            < #[trigger] all[j] by {
            if j < less.len() {
                assert(less[i] < less[j]);
            } else {
                assert(less[i] < n - 1);
            }
        }
    }
}

proof fn lemma_parts_before_prefix<M, MK, E, S>(
    nodes: Seq<TemplateNode<M, MK, E, S>>,
    emitter: bool,
    k: int,
)
    requires
        0 <= k < nodes.len(),
    ensures
        parts_before(nodes.drop_last(), emitter, k) == parts_before(nodes, emitter, k),
    decreases k,
{
    if k > 0 {
        lemma_parts_before_prefix(nodes, emitter, k - 1);
        assert(nodes.drop_last()[k - 1] == nodes[k - 1]);
    }
}

/// One of the draws is at the slot.
pub open spec fn has_slot(draws: Seq<PartDraw>, slot: u32) -> bool {
    exists|p: int| 0 <= p < draws.len() && (#[trigger] draws[p]).slot == slot
}

/// The draws of the first `n` parts of one kind: those that are not hidden, in
/// order.
proof fn lemma_kind_draws(
    slots: Seq<u32>,
    states: Seq<PartState>,
    entry: usize,
    emitter: bool,
    hit_id: u32,
    n: nat,
)
    requires
        n <= slots.len(),
        forall|i: int, j: int|
            0 <= i < j < slots.len() ==> #[trigger] slots[i] < #[trigger] slots[j],
    ensures
        ({
            let draws = draws_of_kind(slots, states, entry, emitter, hit_id, n);
            &&& forall|p: int|
                0 <= p < draws.len() ==> {
                    &&& (#[trigger] draws[p]).entry == entry
                    &&& draws[p].emitter == emitter
                    &&& draws[p].hit_id == hit_id
                    &&& exists|k: int|
                        0 <= k < n && #[trigger] slots[k] == draws[p].slot && is_not_hidden(
                            states,
                            k,
                        )
                }
            &&& forall|p: int, q: int|
                0 <= p < q < draws.len() ==> (#[trigger] draws[p]).slot < (
                #[trigger] draws[q]).slot
            &&& forall|k: int|
                0 <= k < n && is_not_hidden(states, k) ==> has_slot(draws, #[trigger] slots[k])
        }),
    decreases n,
{
    if n > 0 {
        let m = (n - 1) as nat;
        lemma_kind_draws(slots, states, entry, emitter, hit_id, m);
        let front = draws_of_kind(slots, states, entry, emitter, hit_id, m);
        let draws = draws_of_kind(slots, states, entry, emitter, hit_id, n);
        assert forall|p: int| 0 <= p < draws.len() implies {
            &&& (#[trigger] draws[p]).entry == entry
            &&& draws[p].emitter == emitter
            &&& draws[p].hit_id == hit_id
            &&& exists|k: int|
                0 <= k < n && #[trigger] slots[k] == draws[p].slot && is_not_hidden(states, k)
        } by {
            if p < front.len() {
                assert(front[p] == draws[p]);
            } else {
                assert(slots[n - 1] == draws[p].slot);
            }
        }
        assert forall|p: int, q: int| 0 <= p < q < draws.len() implies (#[trigger] draws[p]).slot
            < (#[trigger] draws[q]).slot by {
            assert(front[p] == draws[p]);
            if q < front.len() {
                assert(front[q] == draws[q]);
            } else {
                let k = choose|k: int|
                    0 <= k < m && #[trigger] slots[k] == front[p].slot && is_not_hidden(states, k);
                assert(slots[k] < slots[n - 1]);
            }
        }
        assert forall|k: int| 0 <= k < n && is_not_hidden(states, k) implies has_slot(
            draws,
            #[trigger] slots[k],
        ) by {
            if k < m {
                assert(has_slot(front, slots[k]));
                let p = choose|p: int|
                    0 <= p < front.len() && (#[trigger] front[p]).slot == slots[k];
                assert(front[p] == draws[p]);
            } else {
                assert(draws[draws.len() - 1].slot == slots[k]);
            }
        }
    }
}

/// The draws of one object are its visible parts, each once, meshes first.
proof fn lemma_object_draws<R, M, MK, E, S>(
    live: LiveEntry<R>,
    nodes: Seq<TemplateNode<M, MK, E, S>>,
    entry: usize,
    hit_id: u32,
)
    requires
        nodes.len() <= 0x1_0000,
    ensures
        ({
            let draws = draws_of(live, nodes, entry, hit_id);
            &&& forall|p: int|
                0 <= p < draws.len() ==> {
                    &&& (#[trigger] draws[p]).entry == entry
                    &&& draws[p].hit_id == hit_id
                    &&& is_part_of(
                        draws[p],
                        nodes,
                        live.object.mesh_parts@,
                        live.object.emitter_parts@,
                    )
                }
            &&& forall|p: int, q: int|
                0 <= p < q < draws.len() ==> is_drawn_before(
                    #[trigger] draws[p],
                    #[trigger] draws[q],
                )
            &&& forall|part: PartDraw|
                part.entry == entry && is_part_of(
                    part,
                    nodes,
                    live.object.mesh_parts@,
                    live.object.emitter_parts@,
                ) ==> #[trigger] lists_part(draws, part)
        }),
{
    let meshes = part_slots(nodes, false);
    let emitters = part_slots(nodes, true);
    lemma_part_slots(nodes, false);
    lemma_part_slots(nodes, true);
    lemma_kind_draws(
        meshes,
        live.object.mesh_parts@,
        entry,
        false,
        hit_id,
        meshes.len(),
    );
    lemma_kind_draws(
        emitters,
        live.object.emitter_parts@,
        entry,
        true,
        hit_id,
        emitters.len(),
    );
    let a = draws_of_kind(meshes, live.object.mesh_parts@, entry, false, hit_id, meshes.len());
    let b = draws_of_kind(
        emitters,
        live.object.emitter_parts@,
        entry,
        true,
        hit_id,
        emitters.len(),
    );
    let draws = draws_of(live, nodes, entry, hit_id);
    assert(draws == a + b);
    assert forall|p: int| 0 <= p < draws.len() implies {
        &&& (#[trigger] draws[p]).entry == entry
        &&& draws[p].hit_id == hit_id
        &&& is_part_of(draws[p], nodes, live.object.mesh_parts@, live.object.emitter_parts@)
    } by {
        if p < a.len() {
            assert(draws[p] == a[p]);
            let k = choose|k: int|
                0 <= k < meshes.len() && #[trigger] meshes[k] == a[p].slot && is_not_hidden(
                    live.object.mesh_parts@,
                    k,
                );
            assert(parts_before(nodes, false, meshes[k] as int) == k);
        } else {
            assert(draws[p] == b[p - a.len()]);
            let d = b[p - a.len()];
            let k = choose|k: int|
                0 <= k < emitters.len() && #[trigger] emitters[k] == d.slot && is_not_hidden(
                    live.object.emitter_parts@,
                    k,
                );
            assert(parts_before(nodes, true, emitters[k] as int) == k);
        }
    }
    assert forall|p: int, q: int| 0 <= p < q < draws.len() implies is_drawn_before(
        #[trigger] draws[p],
        #[trigger] draws[q],
    ) by {
        if q < a.len() {
            assert(draws[p] == a[p] && draws[q] == a[q]);
        } else if p < a.len() {
            assert(draws[p] == a[p] && draws[q] == b[q - a.len()]);
        } else {
            assert(draws[p] == b[p - a.len()] && draws[q] == b[q - a.len()]);
        }
    }
    assert forall|part: PartDraw|
        part.entry == entry && is_part_of(
            part,
            nodes,
            live.object.mesh_parts@,
            live.object.emitter_parts@,
        ) implies #[trigger] lists_part(draws, part) by {
        let slot = part.slot as int;
        assert(nodes[slot].kind is Mesh || nodes[slot].kind is Emitter);
        let k = parts_before(nodes, part.emitter, slot);
        if part.emitter {
            assert(emitters[k] == slot);
            assert(has_slot(b, emitters[k]));
            let p = choose|p: int| 0 <= p < b.len() && (#[trigger] b[p]).slot == emitters[k];
            assert(is_same_part(draws[a.len() + p], part));
        } else {
            assert(meshes[k] == slot);
            assert(has_slot(a, meshes[k]));
            let p = choose|p: int| 0 <= p < a.len() && (#[trigger] a[p]).slot == meshes[k];
            assert(is_same_part(draws[p], part));
        }
    }
}

/// Adding the draws of the last object keeps the draws all visible parts.
proof fn lemma_more_visible_parts<R, M, MK, E, S>(
    before: Seq<PartDraw>,
    entries: Seq<LiveEntry<R>>,
    templates: Map<R, RenderTemplate<M, MK, E, S>>,
    hit_id: u32,
)
    requires
        0 < entries.len() <= usize::MAX,
        is_numbered(templates),
        are_visible_parts(before, entries.drop_last(), templates),
    ensures
        is_drawn(entries.last(), templates) ==> are_visible_parts(
            before + draws_of(
                entries.last(),
                templates[entries.last().render_id].spec_nodes(),
                (entries.len() - 1) as usize,
                hit_id,
            ),
            entries,
            templates,
        ),
        !is_drawn(entries.last(), templates) ==> are_visible_parts(before, entries, templates),
{
    let front = entries.drop_last();
    let live = entries.last();
    let at = (entries.len() - 1) as usize;
    let nodes = templates[live.render_id].spec_nodes();
    let more = if is_drawn(live, templates) {
        draws_of(live, nodes, at, hit_id)
    } else {
        Seq::empty()
    };
    let draws = before + more;
    assert(!is_drawn(live, templates) ==> draws =~= before);
    if is_drawn(live, templates) {
        assert(templates.contains_key(live.render_id));
        lemma_object_draws(live, nodes, at, hit_id);
    }
    assert(entries[at as int] == live);
    assert forall|p: int| 0 <= p < draws.len() implies is_visible_part(
        #[trigger] draws[p],
        entries,
        templates,
    ) by {
        if p < before.len() {
            assert(draws[p] == before[p]);
            assert(front[before[p].entry as int] == entries[before[p].entry as int]);
        } else {
            assert(draws[p] == more[p - before.len()]);
        }
    }
    assert forall|p: int, q: int| 0 <= p < q < draws.len() implies is_drawn_before(
        #[trigger] draws[p],
        #[trigger] draws[q],
    ) by {
        if q < before.len() {
            assert(draws[p] == before[p] && draws[q] == before[q]);
        } else if p < before.len() {
            assert(draws[p] == before[p] && draws[q] == more[q - before.len()]);
            assert(is_visible_part(before[p], front, templates));
        } else {
            assert(draws[p] == more[p - before.len()] && draws[q] == more[q - before.len()]);
        }
    }
    assert forall|part: PartDraw| is_visible_part(part, entries, templates) implies
        #[trigger] lists_part(draws, part) by {
        if part.entry < front.len() {
            assert(front[part.entry as int] == entries[part.entry as int]);
            assert(is_visible_part(part, front, templates));
            assert(lists_part(before, part));
            let p = choose|p: int|
                0 <= p < before.len() && is_same_part(#[trigger] before[p], part);
            assert(is_same_part(draws[p], part));
        } else {
            assert(part.entry == at);
            assert(is_drawn(live, templates));
            assert(is_part_of(part, nodes, live.object.mesh_parts@, live.object.emitter_parts@));
            assert(lists_part(more, part));
            let p = choose|p: int| 0 <= p < more.len() && is_same_part(#[trigger] more[p], part);
            assert(is_same_part(draws[before.len() + p], part));
        }
    }
}

proof fn lemma_listed<R, M, MK, E, S>(
    entries: Seq<LiveEntry<R>>,
    templates: Map<R, RenderTemplate<M, MK, E, S>>,
)
    requires
        entries.len() <= usize::MAX,
        is_numbered(templates),
    ensures
        are_visible_parts(listed(entries, templates), entries, templates),
    decreases entries.len(),
{
    if entries.len() > 0 {
        lemma_listed(entries.drop_last(), templates);
        lemma_more_visible_parts(
            listed(entries.drop_last(), templates),
            entries,
            templates,
            0,
        );
    }
}

/// A walk over live objects lists the parts that are to be drawn and nothing
/// else: each draw points at a node of its object's template that is a mesh, or
/// an emitter if the draw says so, and that is not hidden; every such node of
/// every object that is not hidden is listed; and they come once each, older
/// objects first, of an object the meshes before the emitters, and of those the
/// lower slots first.
pub proof fn law_walks_list_the_visible_parts<R: Clone + Eq + Hash, M, MK, E, S>(
    templates: RenderRegistry<R, M, MK, E, S>,
    live: LiveRenderObjects<R>,
    draws: Vec<PartDraw>,
)
    requires
        is_numbered(templates@),
        live.entries().len() <= usize::MAX,
        call_ensures(
            RenderObjectPass::for_each_alive::<R, M, MK, E, S>,
            (&templates, &live),
            draws,
        ),
    ensures
        are_visible_parts(draws@, live.entries(), templates@),
{
    lemma_listed(live.entries(), templates@);
}

/// The draws are all visible meshes, each once, in order.
pub open spec fn are_visible_meshes<R, M, MK, E, S>(
    draws: Seq<PartDraw>,
    entries: Seq<LiveEntry<R>>,
    templates: Map<R, RenderTemplate<M, MK, E, S>>,
) -> bool {
    &&& forall|p: int|
        0 <= p < draws.len() ==> is_visible_part(#[trigger] draws[p], entries, templates)
            && !draws[p].emitter
    &&& forall|p: int, q: int|
        0 <= p < q < draws.len() ==> is_drawn_before(#[trigger] draws[p], #[trigger] draws[q])
    &&& forall|part: PartDraw|
        is_visible_part(part, entries, templates) && !part.emitter ==> #[trigger] lists_part(
            draws,
            part,
        )
}

proof fn lemma_meshes_among(draws: Seq<PartDraw>) -> (from: Seq<int>)
    ensures
        from.len() == meshes_among(draws).len(),
        forall|j: int|
            0 <= j < from.len() ==> 0 <= #[trigger] from[j] < draws.len() && meshes_among(draws)[j]
                == draws[from[j]] && !draws[from[j]].emitter,
        forall|i: int, j: int|
            0 <= i < j < from.len() ==> #[trigger] from[i] < #[trigger] from[j],
        forall|p: int|
            0 <= p < draws.len() && !(#[trigger] draws[p]).emitter ==> meshes_among(draws).contains(
                draws[p],
            ),
    decreases draws.len(),
{
    if draws.len() == 0 {
        Seq::empty()
    } else {
        let front = draws.drop_last();
        let before = lemma_meshes_among(front);
        let n = draws.len() - 1;
        let from = if draws.last().emitter {
            before
        } else {
            before.push(n)
        };
        assert forall|j: int| 0 <= j < from.len() implies 0 <= #[trigger] from[j] < draws.len()
            && meshes_among(draws)[j] == draws[from[j]] && !draws[from[j]].emitter by {
            if j < before.len() {
                assert(from[j] == before[j]);
                assert(front[before[j]] == draws[before[j]]);
            }
        }
        assert forall|i: int, j: int| 0 <= i < j < from.len() implies #[trigger] from[i]
            < #[trigger] from[j] by {
            assert(from[i] == before[i]);
            if j < before.len() {
                assert(from[j] == before[j]);
            }
        }
        assert forall|p: int| 0 <= p < draws.len() && !(#[trigger] draws[p]).emitter implies meshes_among(
            draws,
        ).contains(draws[p]) by {
            let meshes = meshes_among(draws);
            if p < n {
                assert(front[p] == draws[p]);
                assert(meshes_among(front).contains(front[p]));
                let j = choose|j: int|
                    0 <= j < meshes_among(front).len() && meshes_among(front)[j] == front[p];
                assert(meshes[j] == draws[p]);
            } else {
                assert(meshes[meshes.len() - 1] == draws[p]);
            }
        }
        from
    }
}

proof fn lemma_visible_meshes<R, M, MK, E, S>(
    draws: Seq<PartDraw>,
    entries: Seq<LiveEntry<R>>,
    templates: Map<R, RenderTemplate<M, MK, E, S>>,
)
    requires
        are_visible_parts(draws, entries, templates),
    ensures
        are_visible_meshes(meshes_among(draws), entries, templates),
{
    let meshes = meshes_among(draws);
    lemma_meshes_keep_order(draws);
    assert forall|part: PartDraw|
        is_visible_part(part, entries, templates) && !part.emitter implies #[trigger] lists_part(
        meshes,
        part,
    ) by {
        assert(lists_part(draws, part));
        let q = choose|q: int| 0 <= q < draws.len() && is_same_part(#[trigger] draws[q], part);
        assert(meshes.contains(draws[q]));
        let j = choose|j: int| 0 <= j < meshes.len() && meshes[j] == draws[q];
        assert(is_same_part(meshes[j], part));
    }
    assert forall|p: int| 0 <= p < meshes.len() implies is_visible_part(
        #[trigger] meshes[p],
        entries,
        templates,
    ) && !meshes[p].emitter by {
        assert(draws.contains(meshes[p]));
    }
}

proof fn lemma_meshes_keep_order(draws: Seq<PartDraw>)
    requires
        forall|p: int, q: int|
            0 <= p < q < draws.len() ==> is_drawn_before(#[trigger] draws[p], #[trigger] draws[q]),
    ensures
        forall|p: int, q: int|
            0 <= p < q < meshes_among(draws).len() ==> is_drawn_before(
                #[trigger] meshes_among(draws)[p],
                #[trigger] meshes_among(draws)[q],
            ),
        forall|p: int|
            0 <= p < meshes_among(draws).len() ==> draws.contains(
                #[trigger] meshes_among(draws)[p],
            ) && !meshes_among(draws)[p].emitter,
        forall|p: int|
            0 <= p < draws.len() && !(#[trigger] draws[p]).emitter ==> meshes_among(
                draws,
            ).contains(draws[p]),
{
    let from = lemma_meshes_among(draws);
    let meshes = meshes_among(draws);
    assert forall|p: int, q: int| 0 <= p < q < meshes.len() implies is_drawn_before(
        #[trigger] meshes[p],
        #[trigger] meshes[q],
    ) by {
        assert(from[p] < from[q]);
        assert(meshes[p] == draws[from[p]] && meshes[q] == draws[from[q]]);
    }
    assert forall|p: int| 0 <= p < meshes.len() implies draws.contains(#[trigger] meshes[p])
        && !meshes[p].emitter by {
        assert(meshes[p] == draws[from[p]]);
    }
}

/// A walk over the meshes of live objects lists the meshes that are to be drawn
/// and nothing else, each once and in order.
pub proof fn law_mesh_walks_list_the_visible_meshes<R: Clone + Eq + Hash, M, MK, E, S>(
    templates: RenderRegistry<R, M, MK, E, S>,
    live: LiveRenderObjects<R>,
    draws: Vec<PartDraw>,
)
    requires
        is_numbered(templates@),
        live.entries().len() <= usize::MAX,
        call_ensures(
            RenderObjectPass::for_each_alive_part::<R, M, MK, E, S>,
            (&templates, &live),
            draws,
        ),
    ensures
        are_visible_meshes(draws@, live.entries(), templates@),
{
    lemma_listed(live.entries(), templates@);
    lemma_visible_meshes(listed(live.entries(), templates@), live.entries(), templates@);
}

/// How many of the first `n` objects are drawn: they are not hidden and have a
/// template.
pub open spec fn drawn_before<R, M, MK, E, S>(
    entries: Seq<LiveEntry<R>>,
    templates: Map<R, RenderTemplate<M, MK, E, S>>,
    n: int,
) -> int
    decreases n,
{
    if n <= 0 {
        0
    } else if entries[n - 1].object.root_visible && templates.contains_key(
        entries[n - 1].render_id,
    ) {
        drawn_before(entries, templates, n - 1) + 1
    } else {
        drawn_before(entries, templates, n - 1)
    }
}

proof fn lemma_drawn_before_prefix<R, M, MK, E, S>(
    entries: Seq<LiveEntry<R>>,
    templates: Map<R, RenderTemplate<M, MK, E, S>>,
    n: int,
)
    requires
        0 <= n < entries.len(),
    ensures
        drawn_before(entries.drop_last(), templates, n) == drawn_before(entries, templates, n),
        0 <= drawn_before(entries, templates, n) <= n,
    decreases n,
{
    if n > 0 {
        lemma_drawn_before_prefix(entries, templates, n - 1);
        assert(entries.drop_last()[n - 1] == entries[n - 1]);
    }
}

/// The id of the object at `e` is the next behind those of the objects that are
/// drawn before it, and was reserved for it.
pub open spec fn has_own_id<R, M, MK, E, S>(
    entries: Seq<LiveEntry<R>>,
    templates: Map<R, RenderTemplate<M, MK, E, S>>,
    start: u32,
    reserved: Seq<ObjectEntry>,
    e: int,
    hit_id: u32,
) -> bool {
    let k = drawn_before(entries, templates, e);
    &&& 0 <= k < reserved.len()
    &&& hit_id == start + k
    &&& reserved[k].hit_id == hit_id
    &&& reserved[k].zone == entries[e].parent.zone
    &&& reserved[k].object_id == entries[e].parent.id
}

proof fn lemma_hit_ids<R, M, MK, E, S>(
    entries: Seq<LiveEntry<R>>,
    templates: Map<R, RenderTemplate<M, MK, E, S>>,
    start: u32,
)
    requires
        entries.len() <= usize::MAX,
        is_numbered(templates),
        start + entries.len() <= u32::MAX,
    ensures
        ({
            let walk = walked(entries, templates, start);
            &&& are_visible_parts(walk.draws, entries, templates)
            &&& walk.reserved.len() == drawn_before(entries, templates, entries.len() as int)
            &&& walk.next_id == start + walk.reserved.len()
            &&& forall|p: int|
                0 <= p < walk.draws.len() ==> has_own_id(
                    entries,
                    templates,
                    start,
                    walk.reserved,
                    (#[trigger] walk.draws[p]).entry as int,
                    walk.draws[p].hit_id,
                )
        }),
    decreases entries.len(),
{
    let walk = walked(entries, templates, start);
    if entries.len() > 0 {
        let front = entries.drop_last();
        let n = entries.len() - 1;
        lemma_hit_ids(front, templates, start);
        let before = walked(front, templates, start);
        lemma_more_visible_parts(before.draws, entries, templates, before.next_id);
        lemma_drawn_before_prefix(entries, templates, n);
        let live = entries.last();
        let drawn = is_drawn(live, templates);
        if drawn {
            assert(templates.contains_key(live.render_id));
            lemma_object_draws(
                live,
                templates[live.render_id].spec_nodes(),
                n as usize,
                before.next_id,
            );
        }
        assert forall|p: int| 0 <= p < walk.draws.len() implies has_own_id(
            entries,
            templates,
            start,
            walk.reserved,
            (#[trigger] walk.draws[p]).entry as int,
            walk.draws[p].hit_id,
        ) by {
            if p < before.draws.len() {
                assert(walk.draws[p] == before.draws[p]);
                let e = before.draws[p].entry as int;
                assert(is_visible_part(before.draws[p], front, templates));
                lemma_drawn_before_prefix(entries, templates, e);
                assert(front[e] == entries[e]);
            } else {
                let more = draws_of(
                    live,
                    templates[live.render_id].spec_nodes(),
                    n as usize,
                    before.next_id,
                );
                assert(walk.draws[p] == more[p - before.draws.len()]);
            }
        }
    }
}

/// A walk that gives hit ids lists the parts that are to be drawn, and all parts
/// of an object carry the id that was reserved for the object: ids go up by one
/// from object to object, hidden ones get none, and none is left over.
pub proof fn law_hit_ids_belong_to_their_objects<R, M, MK, E, S>(
    entries: Seq<LiveEntry<R>>,
    templates: Map<R, RenderTemplate<M, MK, E, S>>,
    start: u32,
)
    requires
        entries.len() <= usize::MAX,
        is_numbered(templates),
        start + entries.len() <= u32::MAX,
    ensures
        ({
            let walk = walked(entries, templates, start);
            &&& are_visible_parts(walk.draws, entries, templates)
            &&& are_visible_meshes(meshes_among(walk.draws), entries, templates)
            &&& walk.reserved.len() == drawn_before(entries, templates, entries.len() as int)
            &&& walk.next_id == start + walk.reserved.len()
            &&& forall|p: int|
                0 <= p < walk.draws.len() ==> has_own_id(
                    entries,
                    templates,
                    start,
                    walk.reserved,
                    (#[trigger] walk.draws[p]).entry as int,
                    walk.draws[p].hit_id,
                )
        }),
{
    lemma_hit_ids(entries, templates, start);
    lemma_visible_meshes(walked(entries, templates, start).draws, entries, templates);
}

/// An object that the view places is declared if and only if it has a render id
/// with a template. Then there is one live object for it, where the view places
/// it, that takes up the room of its template there, and none if the template
/// says none; a new one has a state for each mesh and each emitter of the
/// template. All other live objects are as they were.
pub proof fn law_placed_objects_are_declared<R, M, MK, E, S, P: Fn(&Aabb, &Mat4Bits) -> Aabb>(
    object: PlacedObject<R>,
    templates: Map<R, RenderTemplate<M, MK, E, S>>,
    place: P,
    before: Seq<LiveEntry<R>>,
    after: Seq<LiveEntry<R>>,
    hysteresis: u32,
) -> (at: int)
    requires
        keys_distinct(before),
        is_numbered(templates),
        is_step(object, templates, place, before, after, hysteresis),
    ensures
        match object.render_id {
            Some(id) => if templates.contains_key(id) {
                &&& 0 <= at < after.len()
                &&& after[at].parent == object.parent
                &&& after[at].render_id == id
                &&& after[at].object.declared_this_frame
                &&& after[at].object.world_xform == object.world_xform
                &&& match templates[id].spec_bounds() {
                    Some(local) => after[at].object.world_aabb matches Some(placed)
                        && call_ensures(place, (&local, &object.world_xform), placed),
                    None => after[at].object.world_aabb is None,
                }
                &&& forall|i: int|
                    0 <= i < after.len() && i != at ==> i < before.len() && (#[trigger] after[i])
                        == before[i]
                &&& at == before.len() ==> {
                    let nodes = templates[id].spec_nodes();
                    &&& after[at].object.mesh_parts@.len() == parts_before(
                        nodes,
                        false,
                        nodes.len() as int,
                    )
                    &&& after[at].object.emitter_parts@.len() == parts_before(
                        nodes,
                        true,
                        nodes.len() as int,
                    )
                }
            } else {
                after == before
            },
            None => after == before,
        },
{
    match object.render_id {
        Some(id) => if templates.contains_key(id) {
            let nodes = templates[id].spec_nodes();
            let bounds = choose|bounds: Option<Aabb>|
                {
                    &&& #[trigger] can_place(
                        place,
                        templates[id].spec_bounds(),
                        object.world_xform,
                        bounds,
                    )
                    &&& is_declared(
                        before,
                        after,
                        (Declaration {
                            parent: object.parent,
                            render_id: id,
                            world_xform: object.world_xform,
                            world_aabb: bounds,
                        }),
                        hysteresis,
                        part_slots(nodes, false).len(),
                        part_slots(nodes, true).len(),
                    )
                };
            lemma_part_slots(nodes, false);
            lemma_part_slots(nodes, true);
            law_declared_objects_stand_where_declared(
                before,
                after,
                Declaration {
                    parent: object.parent,
                    render_id: id,
                    world_xform: object.world_xform,
                    world_aabb: bounds,
                },
                hysteresis,
                part_slots(nodes, false).len(),
                part_slots(nodes, true).len(),
            )
        } else {
            0
        },
        None => 0,
    }
}

/// The step declares the object: it has a render id with a template.
pub open spec fn declares<R, M, MK, E, S>(
    object: PlacedObject<R>,
    templates: Map<R, RenderTemplate<M, MK, E, S>>,
    parent: WorldObjectRef,
    render_id: R,
) -> bool {
    &&& object.parent == parent
    &&& object.render_id == Some(render_id)
    &&& templates.contains_key(render_id)
}

proof fn lemma_one_step<R, M, MK, E, S, P: Fn(&Aabb, &Mat4Bits) -> Aabb>(
    object: PlacedObject<R>,
    templates: Map<R, RenderTemplate<M, MK, E, S>>,
    place: P,
    before: Seq<LiveEntry<R>>,
    after: Seq<LiveEntry<R>>,
    hysteresis: u32,
)
    requires
        keys_distinct(before),
        is_step(object, templates, place, before, after, hysteresis),
    ensures
        keys_distinct(after),
        after.len() >= before.len(),
        forall|i: int|
            0 <= i < before.len() && !declares(
                object,
                templates,
                (#[trigger] before[i]).parent,
                before[i].render_id,
            ) ==> after[i] == before[i],
        forall|i: int|
            0 <= i < after.len() && !declares(
                object,
                templates,
                (#[trigger] after[i]).parent,
                after[i].render_id,
            ) ==> i < before.len() && after[i] == before[i],
{
    if let Some(id) = object.render_id {
        if templates.contains_key(id) {
            let nodes = templates[id].spec_nodes();
            let bounds = choose|bounds: Option<Aabb>|
                {
                    &&& #[trigger] can_place(
                        place,
                        templates[id].spec_bounds(),
                        object.world_xform,
                        bounds,
                    )
                    &&& is_declared(
                        before,
                        after,
                        (Declaration {
                            parent: object.parent,
                            render_id: id,
                            world_xform: object.world_xform,
                            world_aabb: bounds,
                        }),
                        hysteresis,
                        part_slots(nodes, false).len(),
                        part_slots(nodes, true).len(),
                    )
                };
            let at = law_declared_objects_stand_where_declared(
                before,
                after,
                Declaration {
                    parent: object.parent,
                    render_id: id,
                    world_xform: object.world_xform,
                    world_aabb: bounds,
                },
                hysteresis,
                part_slots(nodes, false).len(),
                part_slots(nodes, true).len(),
            );
            assert forall|i: int, j: int| 0 <= i < j < after.len() implies !has_key(
                #[trigger] after[i],
                (#[trigger] after[j]).parent,
                after[j].render_id,
            ) by {
                if i != at && j != at {
                    assert(after[i] == before[i] && after[j] == before[j]);
                    assert(!has_key(before[i], before[j].parent, before[j].render_id));
                }
            }
            assert forall|i: int|
                0 <= i < before.len() && !declares(
                    object,
                    templates,
                    (#[trigger] before[i]).parent,
                    before[i].render_id,
                ) implies after[i] == before[i] by {
                assert(i != at);
                assert(after[i] == before[i]);
            }
        }
    }
}

proof fn lemma_steps<R, M, MK, E, S, P: Fn(&Aabb, &Mat4Bits) -> Aabb>(
    objects: Seq<PlacedObject<R>>,
    templates: Map<R, RenderTemplate<M, MK, E, S>>,
    place: P,
    trace: Seq<Seq<LiveEntry<R>>>,
    hysteresis: u32,
    n: int,
)
    requires
        keys_distinct(trace[0]),
        is_trace(objects, templates, place, trace, hysteresis),
        0 <= n < trace.len(),
    ensures
        keys_distinct(trace[n]),
    decreases n,
{
    if n > 0 {
        lemma_steps(objects, templates, place, trace, hysteresis, n - 1);
        assert(is_step(objects[n - 1], templates, place, trace[n - 1], trace[n], hysteresis));
        lemma_one_step(objects[n - 1], templates, place, trace[n - 1], trace[n], hysteresis);
    }
}

proof fn lemma_entry_stays<R, M, MK, E, S, P: Fn(&Aabb, &Mat4Bits) -> Aabb>(
    objects: Seq<PlacedObject<R>>,
    templates: Map<R, RenderTemplate<M, MK, E, S>>,
    place: P,
    trace: Seq<Seq<LiveEntry<R>>>,
    hysteresis: u32,
    from: int,
    n: int,
    at: int,
)
    requires
        keys_distinct(trace[0]),
        is_trace(objects, templates, place, trace, hysteresis),
        0 <= from <= n < trace.len(),
        0 <= at < trace[from].len(),
        forall|m: int|
            from <= m < n ==> !declares(
                #[trigger] objects[m],
                templates,
                trace[from][at].parent,
                trace[from][at].render_id,
            ),
    ensures
        at < trace[n].len(),
        trace[n][at] == trace[from][at],
    decreases n - from,
{
    if from < n {
        lemma_entry_stays(objects, templates, place, trace, hysteresis, from, n - 1, at);
        lemma_steps(objects, templates, place, trace, hysteresis, n - 1);
        assert(is_step(objects[n - 1], templates, place, trace[n - 1], trace[n], hysteresis));
        lemma_one_step(objects[n - 1], templates, place, trace[n - 1], trace[n], hysteresis);
        assert(!declares(
            objects[n - 1],
            templates,
            trace[n - 1][at].parent,
            trace[n - 1][at].render_id,
        ));
    }
}

/// When all objects of a frame have been placed, there is a live object for each
/// one that has a template, declared, and where the view placed it last.
pub proof fn law_every_placed_object_is_declared<
    R,
    M,
    MK,
    E,
    S,
    P: Fn(&Aabb, &Mat4Bits) -> Aabb,
>(
    objects: Seq<PlacedObject<R>>,
    templates: Map<R, RenderTemplate<M, MK, E, S>>,
    place: P,
    trace: Seq<Seq<LiveEntry<R>>>,
    hysteresis: u32,
    k: int,
    id: R,
) -> (at: int)
    requires
        keys_distinct(trace[0]),
        is_numbered(templates),
        is_trace(objects, templates, place, trace, hysteresis),
        0 <= k < objects.len(),
        objects[k].render_id == Some(id),
        templates.contains_key(id),
        forall|m: int|
            k < m < objects.len() ==> !((#[trigger] objects[m]).parent == objects[k].parent
                && objects[m].render_id == Some(id)),
    ensures
        0 <= at < trace.last().len(),
        trace.last()[at].parent == objects[k].parent,
        trace.last()[at].render_id == id,
        trace.last()[at].object.declared_this_frame,
        trace.last()[at].object.world_xform == objects[k].world_xform,
        match templates[id].spec_bounds() {
            Some(local) => trace.last()[at].object.world_aabb matches Some(placed)
                && call_ensures(place, (&local, &objects[k].world_xform), placed),
            None => trace.last()[at].object.world_aabb is None,
        },
{
    lemma_steps(objects, templates, place, trace, hysteresis, k);
    assert(is_step(objects[k], templates, place, trace[k], trace[k + 1], hysteresis));
    let at = law_placed_objects_are_declared(
        objects[k],
        templates,
        place,
        trace[k],
        trace[k + 1],
        hysteresis,
    );
    let n = trace.len() - 1;
    assert forall|m: int| k + 1 <= m < n implies !declares(
        #[trigger] objects[m],
        templates,
        trace[k + 1][at].parent,
        trace[k + 1][at].render_id,
    ) by {
        assert(!(objects[m].parent == objects[k].parent && objects[m].render_id == Some(id)));
    }
    lemma_entry_stays(objects, templates, place, trace, hysteresis, k + 1, n, at);
    at
}

/// A live object that no placed object with a template stands for is as it was
/// when the frame started, so it is not declared.
pub proof fn law_nothing_else_is_declared<R, M, MK, E, S, P: Fn(&Aabb, &Mat4Bits) -> Aabb>(
    objects: Seq<PlacedObject<R>>,
    templates: Map<R, RenderTemplate<M, MK, E, S>>,
    place: P,
    trace: Seq<Seq<LiveEntry<R>>>,
    hysteresis: u32,
    at: int,
)
    requires
        keys_distinct(trace[0]),
        is_trace(objects, templates, place, trace, hysteresis),
        0 <= at < trace.last().len(),
        forall|m: int|
            0 <= m < objects.len() ==> !declares(
                #[trigger] objects[m],
                templates,
                trace.last()[at].parent,
                trace.last()[at].render_id,
            ),
    ensures
        at < trace[0].len(),
        trace.last()[at] == trace[0][at],
{
    lemma_was_there(objects, templates, place, trace, hysteresis, trace.len() - 1, at);
}

proof fn lemma_was_there<R, M, MK, E, S, P: Fn(&Aabb, &Mat4Bits) -> Aabb>(
    objects: Seq<PlacedObject<R>>,
    templates: Map<R, RenderTemplate<M, MK, E, S>>,
    place: P,
    trace: Seq<Seq<LiveEntry<R>>>,
    hysteresis: u32,
    n: int,
    at: int,
)
    requires
        keys_distinct(trace[0]),
        is_trace(objects, templates, place, trace, hysteresis),
        0 <= n < trace.len(),
        0 <= at < trace[n].len(),
        forall|m: int|
            0 <= m < n ==> !declares(
                #[trigger] objects[m],
                templates,
                trace[n][at].parent,
                trace[n][at].render_id,
            ),
    ensures
        at < trace[0].len(),
        trace[n][at] == trace[0][at],
    decreases n,
{
    if n > 0 {
        lemma_steps(objects, templates, place, trace, hysteresis, n - 1);
        assert(is_step(objects[n - 1], templates, place, trace[n - 1], trace[n], hysteresis));
        lemma_one_step(objects[n - 1], templates, place, trace[n - 1], trace[n], hysteresis);
        assert(!declares(
            objects[n - 1],
            templates,
            trace[n][at].parent,
            trace[n][at].render_id,
        ));
        lemma_was_there(objects, templates, place, trace, hysteresis, n - 1, at);
    }
}

/// The view is asked about every live object with a template, and what it
/// answers is there afterwards; other objects stay as they are.
pub proof fn law_views_change_what_has_a_template<
    R,
    M,
    MK,
    E,
    S,
    F: Fn(&LiveEntry<R>) -> LiveRenderObject,
>(
    templates: Map<R, RenderTemplate<M, MK, E, S>>,
    on_instance: F,
    before: LiveEntry<R>,
    after: LiveEntry<R>,
)
    requires
        is_updated(templates, on_instance, before, after),
    ensures
        !templates.contains_key(before.render_id) ==> after == before,
        after.parent == before.parent,
        after.render_id == before.render_id,
        after.object.declared_this_frame == before.object.declared_this_frame,
        after.object.frames_since_visible == before.object.frames_since_visible,
        templates.contains_key(before.render_id) ==> exists|object: LiveRenderObject|
            {
                &&& #[trigger] call_ensures(on_instance, (&before,), object)
                &&& after.object.world_xform == object.world_xform
                &&& after.object.world_aabb == object.world_aabb
                &&& after.object.root_visible == object.root_visible
                &&& after.object.mesh_parts == object.mesh_parts
                &&& after.object.emitter_parts == object.emitter_parts
            },
{
}

} // verus!
