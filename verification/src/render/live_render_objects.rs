//! Live render objects, kept a while after they leave the view.
//!
//! Each frame the view declares one live object per world object and render
//! id. Culling then drops those that were not declared, and those that have
//! been outside the view for longer than the hysteresis window. A new object
//! starts just outside the window, so it survives only if it is seen at once.

use super::mesh::Aabb;
use super::render_object::Mat4Bits;
use crate::sim::WorldObjectRef;
use std::hash::Hash;
use vstd::laws_eq::obeys_concrete_eq;
use vstd::prelude::*;

verus! {

/// What the view keeps of one part of a template.
#[derive(Debug, Clone, Copy, PartialEq, Eq, Structural)]
pub struct PartState {
    pub visible: bool,
}

/// What the view keeps of one live object.
pub struct LiveRenderObject {
    /// The world transform of the object.
    pub world_xform: Mat4Bits,
    /// The space that it takes up in the world; without it the object is
    /// always in view.
    pub world_aabb: Option<Aabb>,
    /// Whether anything of it is drawn.
    pub root_visible: bool,
    /// For each mesh part of the template, whether it is drawn.
    pub mesh_parts: Vec<PartState>,
    /// For each emitter part of the template, whether it emits.
    pub emitter_parts: Vec<PartState>,
    /// Frames since it was last in view; 0 if it is.
    pub frames_since_visible: u32,
    /// Whether it was declared this frame.
    pub declared_this_frame: bool,
}

impl LiveRenderObject {
    /// Frames since the object was last in view; 0 if it is.
    pub fn frames_since_visible(&self) -> (r: u32)
        ensures
            r == self.frames_since_visible,
    {
        self.frames_since_visible
    }

    /// Whether the object was in view at the latest cull.
    pub fn is_visible(&self) -> (r: bool)
        ensures
            r == (self.frames_since_visible == 0),
    {
        self.frames_since_visible == 0
    }
}

/// A live object with the key that it was declared under.
pub struct LiveEntry<R> {
    pub parent: WorldObjectRef,
    pub render_id: R,
    pub object: LiveRenderObject,
}

/// Live objects by world object and render id, oldest first.
pub struct LiveRenderObjects<R: Clone + Eq + Hash> {
    entries: Vec<LiveEntry<R>>,
    hysteresis_frames: u32,
}

/// Another name for a live object.
pub type RenderInstance = LiveRenderObject;

/// Another name for the live objects.
pub type RenderInstances<R> = LiveRenderObjects<R>;

/// The entry has the given key.
pub open spec fn has_key<R>(entry: LiveEntry<R>, parent: WorldObjectRef, render_id: R) -> bool {
    entry.parent == parent && entry.render_id == render_id
}

/// Where the key stands from `from` on; `entries.len()` if it does not.
pub open spec fn find_key<R>(
    entries: Seq<LiveEntry<R>>,
    parent: WorldObjectRef,
    render_id: R,
    from: int,
) -> int
    decreases entries.len() - from,
{
    if from >= entries.len() {
        entries.len() as int
    } else if has_key(entries[from], parent, render_id) {
        from
    } else {
        find_key(entries, parent, render_id, from + 1)
    }
}

/// No two entries have the same key.
pub open spec fn keys_distinct<R>(entries: Seq<LiveEntry<R>>) -> bool {
    forall|i: int, j: int|
        0 <= i < j < entries.len() ==> !has_key(
            #[trigger] entries[i],
            (#[trigger] entries[j]).parent,
            entries[j].render_id,
        )
}

/// What one declaration says.
pub struct Declaration<R> {
    pub parent: WorldObjectRef,
    pub render_id: R,
    pub world_xform: Mat4Bits,
    pub world_aabb: Option<Aabb>,
}

/// One more than `n`, or the greatest number.
pub open spec fn one_more(n: u32) -> u32 {
    if n == u32::MAX {
        u32::MAX
    } else {
        (n + 1) as u32
    }
}

/// `states` are `count` parts, all visible.
pub open spec fn all_visible(states: Seq<PartState>, count: nat) -> bool {
    &&& states.len() == count
    &&& forall|i: int| 0 <= i < count ==> (#[trigger] states[i]).visible
}

/// `object` is what a first declaration makes: out of view for longer than the
/// window, with all parts visible.
pub open spec fn is_fresh<R>(
    object: LiveRenderObject,
    d: Declaration<R>,
    hysteresis: u32,
    mesh_parts: nat,
    emitter_parts: nat,
) -> bool {
    &&& object.world_xform == d.world_xform
    &&& object.world_aabb == d.world_aabb
    &&& object.root_visible
    &&& all_visible(object.mesh_parts@, mesh_parts)
    &&& all_visible(object.emitter_parts@, emitter_parts)
    &&& object.frames_since_visible == one_more(hysteresis)
    &&& object.declared_this_frame
}

/// `object` as a further declaration leaves it.
pub open spec fn refreshed<R>(object: LiveRenderObject, d: Declaration<R>) -> LiveRenderObject {
    LiveRenderObject {
        world_xform: d.world_xform,
        world_aabb: d.world_aabb,
        declared_this_frame: true,
        ..object
    }
}

/// The entries after a declaration.
pub open spec fn is_declared<R>(
    before: Seq<LiveEntry<R>>,
    after: Seq<LiveEntry<R>>,
    d: Declaration<R>,
    hysteresis: u32,
    mesh_parts: nat,
    emitter_parts: nat,
) -> bool {
    let at = find_key(before, d.parent, d.render_id, 0);
    if at < before.len() {
        after == before.update(
            at,
            LiveEntry { object: refreshed(before[at].object, d), ..before[at] },
        )
    } else {
        &&& after.len() == before.len() + 1
        &&& after.drop_last() == before
        &&& has_key(after.last(), d.parent, d.render_id)
        &&& is_fresh(after.last().object, d, hysteresis, mesh_parts, emitter_parts)
    }
}

/// An entry with another object in it. Whether and when it was declared and seen
/// is not for the view to change.
pub open spec fn changed<R>(entry: LiveEntry<R>, object: LiveRenderObject) -> LiveEntry<R> {
    LiveEntry {
        object: LiveRenderObject {
            frames_since_visible: entry.object.frames_since_visible,
            declared_this_frame: entry.object.declared_this_frame,
            ..object
        },
        ..entry
    }
}

/// A clone of an id is the same id.
pub open spec fn clones_are_same<R: Clone>() -> bool {
    forall|a: &R, b: R| #[trigger] call_ensures(R::clone, (a,), b) ==> b == *a
}

/// Another copy of an id.
pub(crate) fn copy_id<R: Clone>(id: &R) -> (r: R)
    requires
        clones_are_same::<R>(),
    ensures
        r == *id,
{
    id.clone()
}

/// An entry that a new frame has not seen yet.
pub open spec fn unseen<R>(entry: LiveEntry<R>) -> LiveEntry<R> {
    LiveEntry {
        object: LiveRenderObject { declared_this_frame: false, ..entry.object },
        ..entry
    }
}

/// An entry after its visibility has been tested.
pub open spec fn tested<R>(entry: LiveEntry<R>, seen: bool) -> LiveEntry<R> {
    LiveEntry {
        object: LiveRenderObject {
            frames_since_visible: if seen {
                0
            } else {
                one_more(entry.object.frames_since_visible)
            },
            ..entry.object
        },
        ..entry
    }
}

/// An entry that survives: it was declared, and has been out of view for no
/// longer than the window.
pub open spec fn survives<R>(entry: LiveEntry<R>, seen: bool, hysteresis: u32) -> bool {
    entry.object.declared_this_frame && tested(entry, seen).object.frames_since_visible
        <= hysteresis
}

/// The entries that survive, in order.
pub open spec fn survivors<R>(
    entries: Seq<LiveEntry<R>>,
    seen: Seq<bool>,
    hysteresis: u32,
) -> Seq<LiveEntry<R>>
    decreases entries.len(),
{
    if entries.len() == 0 {
        Seq::empty()
    } else {
        let front = survivors(entries.drop_last(), seen, hysteresis);
        let last = entries.last();
        if survives(last, seen[entries.len() - 1], hysteresis) {
            front.push(tested(last, seen[entries.len() - 1]))
        } else {
            front
        }
    }
}

/// `seen` can be what a visibility test says of an object. One without bounds
/// is always seen.
pub open spec fn can_be_seen<F: Fn(&Aabb) -> bool>(
    inside: F,
    object: LiveRenderObject,
    seen: bool,
) -> bool {
    match object.world_aabb {
        Some(aabb) => call_ensures(inside, (&aabb,), seen),
        None => seen,
    }
}

/// The entries after culling with the visibility test `inside`.
pub open spec fn is_culled<R, F: Fn(&Aabb) -> bool>(
    before: Seq<LiveEntry<R>>,
    after: Seq<LiveEntry<R>>,
    inside: F,
    hysteresis: u32,
) -> bool {
    exists|seen: Seq<bool>|
        {
            &&& seen.len() == before.len()
            &&& forall|i: int|
                0 <= i < before.len() ==> (before[i].object.declared_this_frame ==> can_be_seen(
                    inside,
                    before[i].object,
                    #[trigger] seen[i],
                ))
            &&& after == #[trigger] survivors(before, seen, hysteresis)
        }
}

proof fn lemma_find_key<R>(
    entries: Seq<LiveEntry<R>>,
    parent: WorldObjectRef,
    render_id: R,
    from: int,
)
    requires
        0 <= from <= entries.len(),
    ensures
        from <= find_key(entries, parent, render_id, from) <= entries.len(),
        find_key(entries, parent, render_id, from) < entries.len() ==> has_key(
            entries[find_key(entries, parent, render_id, from)],
            parent,
            render_id,
        ),
        forall|k: int|
            from <= k < find_key(entries, parent, render_id, from) ==> !has_key(
                #[trigger] entries[k],
                parent,
                render_id,
            ),
    decreases entries.len() - from,
{
    if from < entries.len() && !has_key(entries[from], parent, render_id) {
        lemma_find_key(entries, parent, render_id, from + 1);
    }
}

/// Whether two ids are the same.
pub(crate) fn same_id<R: Eq>(a: &R, b: &R) -> (r: bool)
    requires
        obeys_concrete_eq::<R>(),
    ensures
        r == (*a == *b),
{
    proof {
        reveal(obeys_concrete_eq);
    }
    *a == *b
}

/// `v` back to front.
pub(crate) fn reversed<T>(v: Vec<T>) -> (r: Vec<T>)
    ensures
        r@ == v@.reverse(),
{
    let ghost whole = v@;
    let mut rest = v;
    let mut out: Vec<T> = Vec::new();
    while rest.len() > 0
        invariant
            rest@.len() + out@.len() == whole.len(),
            rest@ == whole.take(rest@.len() as int),
            forall|k: int| 0 <= k < out@.len() ==> out@[k] == whole[whole.len() - 1 - k],
        decreases rest@.len(),
    {
        match rest.pop() {
            Some(last) => {
                out.push(last);
            },
            None => {},
        }
        assert(rest@ =~= whole.take(rest@.len() as int));
    }
    assert(out@ =~= whole.reverse());
    out
}

/// `count` parts, all visible.
fn visible_parts(count: usize) -> (r: Vec<PartState>)
    ensures
        all_visible(r@, count as nat),
{
    let mut out: Vec<PartState> = Vec::new();
    let mut i: usize = 0;
    while i < count
        invariant
            i <= count,
            all_visible(out@, i as nat),
        decreases count - i,
    {
        out.push(PartState { visible: true });
        i += 1;
    }
    out
}

impl<R: Clone + Eq + Hash> LiveRenderObjects<R> {
    #[verifier::type_invariant]
    closed spec fn wf(self) -> bool {
        keys_distinct(self.entries@)
    }

    /// The live objects, oldest first.
    pub closed spec fn entries(&self) -> Seq<LiveEntry<R>> {
        self.entries@
    }

    /// How many frames an object is kept after it has left the view.
    pub closed spec fn spec_hysteresis(&self) -> u32 {
        self.hysteresis_frames
    }

    /// No live objects, and a window of `hysteresis_frames` frames.
    pub fn new(hysteresis_frames: u32) -> (r: Self)
        ensures
            r.entries() == Seq::<LiveEntry<R>>::empty(),
            r.spec_hysteresis() == hysteresis_frames,
    {
        LiveRenderObjects { entries: Vec::new(), hysteresis_frames }
    }

    /// How many frames an object is kept after it has left the view.
    pub fn hysteresis_frames(&self) -> (r: u32)
        ensures
            r == self.spec_hysteresis(),
    {
        self.hysteresis_frames
    }

    /// How many live objects there are.
    pub fn len(&self) -> (r: usize)
        ensures
            r == self.entries().len(),
            keys_distinct(self.entries()),
    {
        proof {
            use_type_invariant(self);
        }
        self.entries.len()
    }

    /// Whether there are none.
    pub fn is_empty(&self) -> (r: bool)
        ensures
            r == (self.entries().len() == 0),
    {
        self.entries.len() == 0
    }

    /// Starts a frame: no object has been declared yet.
    pub fn begin_frame(&mut self)
        ensures
            final(self).entries() == old(self).entries().map_values(|e: LiveEntry<R>| unseen(e)),
            final(self).spec_hysteresis() == old(self).spec_hysteresis(),
    {
        proof {
            use_type_invariant(&*self);
        }
        let ghost before = self.entries@;
        let hysteresis_frames = self.hysteresis_frames;
        let mut taken = LiveRenderObjects::new(hysteresis_frames);
        core::mem::swap(self, &mut taken);
        let LiveRenderObjects { entries, hysteresis_frames: _ } = taken;
        let mut rest = reversed(entries);
        let mut out: Vec<LiveEntry<R>> = Vec::new();
        while rest.len() > 0
            invariant
                rest@.len() + out@.len() == before.len(),
                rest@ == before.reverse().take(rest@.len() as int),
                forall|k: int| 0 <= k < out@.len() ==> out@[k] == unseen(before[k]),
            decreases rest@.len(),
        {
            match rest.pop() {
                Some(entry) => {
                    assert(entry == before[out@.len() as int]);
                    let LiveEntry { parent, render_id, object } = entry;
                    let LiveRenderObject {
                        world_xform,
                        world_aabb,
                        root_visible,
                        mesh_parts,
                        emitter_parts,
                        frames_since_visible,
                        declared_this_frame: _,
                    } = object;
                    out.push(
                        LiveEntry {
                            parent,
                            render_id,
                            object: LiveRenderObject {
                                world_xform,
                                world_aabb,
                                root_visible,
                                mesh_parts,
                                emitter_parts,
                                frames_since_visible,
                                declared_this_frame: false,
                            },
                        },
                    );
                },
                None => {},
            }
            assert(rest@ =~= before.reverse().take(rest@.len() as int));
        }
        proof {
            assert(out@ =~= before.map_values(|e: LiveEntry<R>| unseen(e)));
            assert forall|i: int, j: int| 0 <= i < j < out@.len() implies !has_key(
                #[trigger] out@[i],
                (#[trigger] out@[j]).parent,
                out@[j].render_id,
            ) by {
                assert(!has_key(before[i], before[j].parent, before[j].render_id));
            }
        }
        *self = LiveRenderObjects { entries: out, hysteresis_frames };
    }

    /// The place of a key among the entries.
    fn position(&self, parent: WorldObjectRef, render_id: &R) -> (r: usize)
        requires
            obeys_concrete_eq::<R>(),
        ensures
            r == find_key(self.entries(), parent, *render_id, 0),
            r <= self.entries().len(),
    {
        proof {
            lemma_find_key(self.entries@, parent, *render_id, 0);
        }
        let mut i: usize = 0;
        while i < self.entries.len()
            invariant
                i <= self.entries@.len(),
                obeys_concrete_eq::<R>(),
                find_key(self.entries@, parent, *render_id, 0) == find_key(
                    self.entries@,
                    parent,
                    *render_id,
                    i as int,
                ),
            decreases self.entries@.len() - i,
        {
            if self.entries[i].parent == parent && same_id(&self.entries[i].render_id, render_id) {
                return i;
            }
            i += 1;
        }
        i
    }

    /// Declares an object for this frame. The first declaration makes it;
    /// further ones refresh its transform and bounds.
    pub fn declare(
        &mut self,
        parent: WorldObjectRef,
        render_id: R,
        world_xform: Mat4Bits,
        world_aabb: Option<Aabb>,
    )
        requires
            obeys_concrete_eq::<R>(),
        ensures
            is_declared(
                old(self).entries(),
                final(self).entries(),
                (Declaration { parent, render_id, world_xform, world_aabb }),
                old(self).spec_hysteresis(),
                0,
                0,
            ),
            final(self).spec_hysteresis() == old(self).spec_hysteresis(),
    {
        self.declare_with_parts(parent, render_id, world_xform, world_aabb, 0, 0);
    }

    /// Declares an object for this frame, made with one visible state for each
    /// part of its template.
    pub fn declare_with_parts(
        &mut self,
        parent: WorldObjectRef,
        render_id: R,
        world_xform: Mat4Bits,
        world_aabb: Option<Aabb>,
        mesh_parts: usize,
        emitter_parts: usize,
    )
        requires
            obeys_concrete_eq::<R>(),
        ensures
            is_declared(
                old(self).entries(),
                final(self).entries(),
                (Declaration { parent, render_id, world_xform, world_aabb }),
                old(self).spec_hysteresis(),
                mesh_parts as nat,
                emitter_parts as nat,
            ),
            final(self).spec_hysteresis() == old(self).spec_hysteresis(),
    {
        proof {
            use_type_invariant(&*self);
            lemma_find_key(self.entries@, parent, render_id, 0);
        }
        let at = self.position(parent, &render_id);
        let ghost before = self.entries@;
        let ghost d = Declaration { parent, render_id, world_xform, world_aabb };
        let hysteresis_frames = self.hysteresis_frames;
        let mut taken = LiveRenderObjects::new(hysteresis_frames);
        core::mem::swap(self, &mut taken);
        let LiveRenderObjects { mut entries, hysteresis_frames: _ } = taken;
        if at < entries.len() {
            let LiveEntry { parent: p, render_id: id, object } = entries.remove(at);
            let LiveRenderObject {
                world_xform: _,
                world_aabb: _,
                root_visible,
                mesh_parts,
                emitter_parts,
                frames_since_visible,
                declared_this_frame: _,
            } = object;
            entries.insert(
                at,
                LiveEntry {
                    parent: p,
                    render_id: id,
                    object: LiveRenderObject {
                        world_xform,
                        world_aabb,
                        root_visible,
                        mesh_parts,
                        emitter_parts,
                        frames_since_visible,
                        declared_this_frame: true,
                    },
                },
            );
            proof {
                let after = before.update(
                    at as int,
                    LiveEntry { object: refreshed(before[at as int].object, d), ..before[at as int]
                    },
                );
                assert(entries@ =~= after);
                assert forall|i: int, j: int| 0 <= i < j < after.len() implies !has_key(
                    #[trigger] after[i],
                    (#[trigger] after[j]).parent,
                    after[j].render_id,
                ) by {
                    assert(!has_key(before[i], before[j].parent, before[j].render_id));
                }
            }
        } else {
            entries.push(
                LiveEntry {
                    parent,
                    render_id,
                    object: LiveRenderObject {
                        world_xform,
                        world_aabb,
                        root_visible: true,
                        mesh_parts: visible_parts(mesh_parts),
                        emitter_parts: visible_parts(emitter_parts),
                        frames_since_visible: hysteresis_frames.saturating_add(1),
                        declared_this_frame: true,
                    },
                },
            );
            proof {
                let after = entries@;
                assert(after.drop_last() =~= before);
                assert forall|i: int, j: int| 0 <= i < j < after.len() implies !has_key(
                    #[trigger] after[i],
                    (#[trigger] after[j]).parent,
                    after[j].render_id,
                ) by {
                    if j < before.len() {
                        assert(!has_key(before[i], before[j].parent, before[j].render_id));
                    } else {
                        assert(!has_key(before[i], parent, render_id));
                    }
                }
            }
        }
        *self = LiveRenderObjects { entries, hysteresis_frames };
    }

    /// Tests each declared object with `inside`, and drops those that were not
    /// declared or have been out of view for longer than the window.
    pub fn cull<F: Fn(&Aabb) -> bool>(&mut self, inside: F)
        requires
            forall|aabb: &Aabb| #[trigger] call_requires(inside, (aabb,)),
        ensures
            is_culled(
                old(self).entries(),
                final(self).entries(),
                inside,
                old(self).spec_hysteresis(),
            ),
            final(self).spec_hysteresis() == old(self).spec_hysteresis(),
    {
        proof {
            use_type_invariant(&*self);
        }
        let ghost before = self.entries@;
        let hysteresis = self.hysteresis_frames;
        let mut taken = LiveRenderObjects::new(hysteresis);
        core::mem::swap(self, &mut taken);
        let LiveRenderObjects { entries, hysteresis_frames: _ } = taken;
        let n = entries.len();
        let mut rest = reversed(entries);
        let mut out: Vec<LiveEntry<R>> = Vec::new();
        let ghost mut seen: Seq<bool> = Seq::empty();
        while rest.len() > 0
            invariant
                n == before.len(),
                rest@.len() + seen.len() == before.len(),
                rest@ == before.reverse().take(rest@.len() as int),
                forall|aabb: &Aabb| #[trigger] call_requires(inside, (aabb,)),
                forall|i: int|
                    0 <= i < seen.len() ==> (before[i].object.declared_this_frame ==> can_be_seen(
                        inside,
                        before[i].object,
                        #[trigger] seen[i],
                    )),
                out@ == survivors(before.take(seen.len() as int), seen, hysteresis),
            decreases rest@.len(),
        {
            let ghost done = seen.len() as int;
            match rest.pop() {
                Some(entry) => {
                    assert(entry == before[done]);
                    assert(before.take(done + 1).drop_last() =~= before.take(done));
                    let LiveEntry { parent, render_id, object } = entry;
                    let LiveRenderObject {
                        world_xform,
                        world_aabb,
                        root_visible,
                        mesh_parts,
                        emitter_parts,
                        frames_since_visible,
                        declared_this_frame,
                    } = object;
                    let visible = if !declared_this_frame {
                        false
                    } else {
                        match &world_aabb {
                            Some(aabb) => inside(aabb),
                            None => true,
                        }
                    };
                    let frames = if visible {
                        0
                    } else {
                        frames_since_visible.saturating_add(1)
                    };
                    proof {
                        lemma_survivors_prefix(
                            before.take(done),
                            seen,
                            seen.push(visible),
                            hysteresis,
                        );
                        seen = seen.push(visible);
                    }
                    if declared_this_frame && frames <= hysteresis {
                        out.push(
                            LiveEntry {
                                parent,
                                render_id,
                                object: LiveRenderObject {
                                    world_xform,
                                    world_aabb,
                                    root_visible,
                                    mesh_parts,
                                    emitter_parts,
                                    frames_since_visible: frames,
                                    declared_this_frame,
                                },
                            },
                        );
                    }
                },
                None => {},
            }
            assert(rest@ =~= before.reverse().take(rest@.len() as int));
        }
        proof {
            assert(before.take(seen.len() as int) =~= before);
            lemma_survivors_distinct(before, seen, hysteresis);
        }
        *self = LiveRenderObjects { entries: out, hysteresis_frames: hysteresis };
    }

    /// Puts `object` in place of the object at `index`, under its key.
    pub fn set_object(&mut self, index: usize, object: LiveRenderObject)
        requires
            index < old(self).entries().len(),
        ensures
            final(self).entries() == old(self).entries().update(
                index as int,
                changed(old(self).entries()[index as int], object),
            ),
            final(self).spec_hysteresis() == old(self).spec_hysteresis(),
    {
        proof {
            use_type_invariant(&*self);
        }
        let ghost before = self.entries@;
        let hysteresis_frames = self.hysteresis_frames;
        let mut taken = LiveRenderObjects::new(hysteresis_frames);
        core::mem::swap(self, &mut taken);
        let LiveRenderObjects { mut entries, hysteresis_frames: _ } = taken;
        let LiveEntry { parent, render_id, object: replaced } = entries.remove(index);
        let LiveRenderObject {
            world_xform,
            world_aabb,
            root_visible,
            mesh_parts,
            emitter_parts,
            frames_since_visible: _,
            declared_this_frame: _,
        } = object;
        entries.insert(
            index,
            LiveEntry {
                parent,
                render_id,
                object: LiveRenderObject {
                    world_xform,
                    world_aabb,
                    root_visible,
                    mesh_parts,
                    emitter_parts,
                    frames_since_visible: replaced.frames_since_visible,
                    declared_this_frame: replaced.declared_this_frame,
                },
            },
        );
        proof {
            let after = before.update(index as int, changed(before[index as int], object));
            assert(entries@ =~= after);
            assert forall|i: int, j: int| 0 <= i < j < after.len() implies !has_key(
                #[trigger] after[i],
                (#[trigger] after[j]).parent,
                after[j].render_id,
            ) by {
                assert(!has_key(before[i], before[j].parent, before[j].render_id));
            }
        }
        *self = LiveRenderObjects { entries, hysteresis_frames };
    }

    /// The live object at position `index`, with its key.
    pub fn get(&self, index: usize) -> (r: &LiveEntry<R>)
        requires
            index < self.entries().len(),
        ensures
            *r == self.entries()[index as int],
    {
        &self.entries[index]
    }

    /// Every live object with its key, oldest first.
    pub fn iter(&self) -> (r: &[LiveEntry<R>])
        ensures
            r@ == self.entries(),
            keys_distinct(r@),
    {
        proof {
            use_type_invariant(self);
        }
        self.entries.as_slice()
    }
}

/// Later results do not matter to earlier entries.
proof fn lemma_survivors_prefix<R>(
    entries: Seq<LiveEntry<R>>,
    a: Seq<bool>,
    b: Seq<bool>,
    hysteresis: u32,
)
    requires
        a.len() >= entries.len(),
        b.len() >= entries.len(),
        forall|i: int| 0 <= i < entries.len() ==> a[i] == b[i],
    ensures
        survivors(entries, a, hysteresis) == survivors(entries, b, hysteresis),
    decreases entries.len(),
{
    if entries.len() > 0 {
        lemma_survivors_prefix(entries.drop_last(), a, b, hysteresis);
    }
}

/// Each survivor is one of the entries, and they come in the same order.
proof fn lemma_survivor_source<R>(
    entries: Seq<LiveEntry<R>>,
    seen: Seq<bool>,
    hysteresis: u32,
    k: int,
) -> (at: int)
    requires
        0 <= k < survivors(entries, seen, hysteresis).len(),
    ensures
        k <= at < entries.len(),
        survives(entries[at], seen[at], hysteresis),
        survivors(entries, seen, hysteresis)[k] == tested(entries[at], seen[at]),
        k == survivors(entries.take(at), seen, hysteresis).len(),
    decreases entries.len(),
{
    let front = entries.drop_last();
    let n = survivors(front, seen, hysteresis).len();
    lemma_survivors_len(front, seen, hysteresis);
    if k < n {
        let at = lemma_survivor_source(front, seen, hysteresis, k);
        assert(front.take(at) =~= entries.take(at));
        at
    } else {
        assert(entries.take(entries.len() - 1) =~= front);
        entries.len() - 1
    }
}

proof fn lemma_survivors_len<R>(entries: Seq<LiveEntry<R>>, seen: Seq<bool>, hysteresis: u32)
    ensures
        survivors(entries, seen, hysteresis).len() <= entries.len(),
    decreases entries.len(),
{
    if entries.len() > 0 {
        lemma_survivors_len(entries.drop_last(), seen, hysteresis);
    }
}

proof fn lemma_survivors_distinct<R>(entries: Seq<LiveEntry<R>>, seen: Seq<bool>, hysteresis: u32)
    requires
        keys_distinct(entries),
    ensures
        keys_distinct(survivors(entries, seen, hysteresis)),
{
    let kept = survivors(entries, seen, hysteresis);
    assert forall|i: int, j: int| 0 <= i < j < kept.len() implies !has_key(
        #[trigger] kept[i],
        (#[trigger] kept[j]).parent,
        kept[j].render_id,
    ) by {
        let a = lemma_survivor_source(entries, seen, hysteresis, i);
        let b = lemma_survivor_source(entries, seen, hysteresis, j);
        if a == b {
            assert(i == j);
        } else if a < b {
            assert(!has_key(entries[a], entries[b].parent, entries[b].render_id));
        } else {
            assert(!has_key(entries[b], entries[a].parent, entries[a].render_id));
        }
    }
}

/// A new object that is out of view is dropped at its first cull; in view, it
/// stays.
pub proof fn law_created_on_first_sight<R>(entry: LiveEntry<R>, seen: bool, hysteresis: u32)
    requires
        entry.object.declared_this_frame,
        entry.object.frames_since_visible == one_more(hysteresis),
        hysteresis < u32::MAX,
    ensures
        survives(entry, seen, hysteresis) <==> seen,
{
}

/// An object that was in view `n` declared frames ago and has been out of view
/// since is kept exactly while `n` is within the window; being seen starts the
/// window anew.
pub proof fn law_hysteresis_window<R>(entry: LiveEntry<R>, seen: bool, n: u32, hysteresis: u32)
    requires
        entry.object.declared_this_frame,
        entry.object.frames_since_visible == n,
        n < u32::MAX,
    ensures
        !seen ==> tested(entry, seen).object.frames_since_visible == n + 1,
        !seen ==> (survives(entry, seen, hysteresis) <==> n + 1 <= hysteresis),
        seen ==> tested(entry, seen).object.frames_since_visible == 0 && survives(
            entry,
            seen,
            hysteresis,
        ),
{
}

/// An object that was not declared is dropped, seen or not; one without bounds
/// that was declared is kept.
pub proof fn law_undeclared_objects_go<R, F: Fn(&Aabb) -> bool>(
    entry: LiveEntry<R>,
    inside: F,
    seen: bool,
    hysteresis: u32,
)
    requires
        can_be_seen(inside, entry.object, seen),
    ensures
        !entry.object.declared_this_frame ==> !survives(entry, seen, hysteresis),
        entry.object.declared_this_frame && entry.object.world_aabb is None ==> survives(
            entry,
            seen,
            hysteresis,
        ),
{
}

/// After a declaration there is one object under its key, new or not, and it
/// stands where and takes up what room the declaration says; all other objects
/// are as they were. An object that was there keeps what it shows and when it was
/// last seen; a new one shows all its parts and counts as never seen.
pub proof fn law_declared_objects_stand_where_declared<R>(
    before: Seq<LiveEntry<R>>,
    after: Seq<LiveEntry<R>>,
    d: Declaration<R>,
    hysteresis: u32,
    mesh_parts: nat,
    emitter_parts: nat,
) -> (at: int)
    requires
        keys_distinct(before),
        is_declared(before, after, d, hysteresis, mesh_parts, emitter_parts),
    ensures
        0 <= at < after.len(),
        after[at].parent == d.parent,
        after[at].render_id == d.render_id,
        after[at].object.world_xform == d.world_xform,
        after[at].object.world_aabb == d.world_aabb,
        after[at].object.declared_this_frame,
        forall|i: int|
            0 <= i < after.len() && i != at ==> i < before.len() && (#[trigger] after[i])
                == before[i] && !(after[i].parent == d.parent && after[i].render_id
                == d.render_id),
        after.len() == before.len() || (after.len() == before.len() + 1 && at == before.len()),
        at < before.len() ==> {
            &&& before[at].parent == d.parent
            &&& before[at].render_id == d.render_id
            &&& after[at].object.root_visible == before[at].object.root_visible
            &&& after[at].object.mesh_parts == before[at].object.mesh_parts
            &&& after[at].object.emitter_parts == before[at].object.emitter_parts
            &&& after[at].object.frames_since_visible == before[at].object.frames_since_visible
        },
        at == before.len() ==> {
            &&& forall|i: int|
                0 <= i < before.len() ==> !((#[trigger] before[i]).parent == d.parent
                    && before[i].render_id == d.render_id)
            &&& after[at].object.root_visible
            &&& after[at].object.mesh_parts@.len() == mesh_parts
            &&& after[at].object.emitter_parts@.len() == emitter_parts
            &&& forall|k: int|
                0 <= k < mesh_parts ==> (#[trigger] after[at].object.mesh_parts@[k]).visible
            &&& forall|k: int|
                0 <= k < emitter_parts ==> (#[trigger] after[at].object.emitter_parts@[k]).visible
            &&& hysteresis < u32::MAX ==> after[at].object.frames_since_visible == hysteresis + 1
        },
{
    let at = find_key(before, d.parent, d.render_id, 0);
    lemma_find_key(before, d.parent, d.render_id, 0);
    assert forall|i: int| 0 <= i < after.len() && i != at implies i < before.len() && (
    #[trigger] after[i]) == before[i] && !(after[i].parent == d.parent && after[i].render_id
        == d.render_id) by {
        if at < before.len() {
            if i < at {
                assert(!has_key(before[i], before[at].parent, before[at].render_id));
            } else {
                assert(!has_key(before[at], before[i].parent, before[i].render_id));
            }
        } else {
            assert(after.drop_last()[i] == after[i]);
            assert(!has_key(before[i], d.parent, d.render_id));
        }
    }
    assert forall|i: int| 0 <= i < before.len() && at == before.len() implies !((
    #[trigger] before[i]).parent == d.parent && before[i].render_id == d.render_id) by {
        assert(!has_key(before[i], d.parent, d.render_id));
    }
    at
}

/// The object is as it was, but for when it was last seen.
pub open spec fn is_kept<R>(entry: LiveEntry<R>, before: LiveEntry<R>, frames: int) -> bool {
    &&& entry.parent == before.parent
    &&& entry.render_id == before.render_id
    &&& entry.object.world_xform == before.object.world_xform
    &&& entry.object.world_aabb == before.object.world_aabb
    &&& entry.object.root_visible == before.object.root_visible
    &&& entry.object.mesh_parts == before.object.mesh_parts
    &&& entry.object.emitter_parts == before.object.emitter_parts
    &&& entry.object.declared_this_frame == before.object.declared_this_frame
    &&& entry.object.frames_since_visible == frames
}

/// What culling makes of the object at `i`: it goes if it was not declared; if
/// it was and is seen, it stays and counts as seen now; if it is not seen, it
/// has not been for one more frame, and stays while that is within the window.
pub open spec fn is_culled_rightly<R, F: Fn(&Aabb) -> bool>(
    before: Seq<LiveEntry<R>>,
    after: Seq<LiveEntry<R>>,
    inside: F,
    hysteresis: u32,
    i: int,
    seen: bool,
) -> bool {
    let frames = before[i].object.frames_since_visible;
    &&& before[i].object.declared_this_frame ==> match before[i].object.world_aabb {
        Some(aabb) => call_ensures(inside, (&aabb,), seen),
        None => seen,
    }
    &&& if before[i].object.declared_this_frame && seen {
        has_kept(after, before[i], 0)
    } else if before[i].object.declared_this_frame && frames < hysteresis {
        has_kept(after, before[i], frames + 1)
    } else if before[i].object.declared_this_frame && frames == u32::MAX && hysteresis == u32::MAX {
        has_kept(after, before[i], frames as int)
    } else {
        forall|j: int|
            0 <= j < after.len() ==> !((#[trigger] after[j]).parent == before[i].parent
                && after[j].render_id == before[i].render_id)
    }
}

/// One of the objects is this one, kept.
pub open spec fn has_kept<R>(after: Seq<LiveEntry<R>>, before: LiveEntry<R>, frames: int) -> bool {
    exists|j: int| 0 <= j < after.len() && is_kept(#[trigger] after[j], before, frames)
}

proof fn lemma_survivors_from<R>(
    entries: Seq<LiveEntry<R>>,
    seen: Seq<bool>,
    hysteresis: u32,
) -> (from: Seq<int>)
    ensures
        from.len() == survivors(entries, seen, hysteresis).len(),
        forall|j: int|
            0 <= j < from.len() ==> {
                &&& 0 <= #[trigger] from[j] < entries.len()
                &&& survives(entries[from[j]], seen[from[j]], hysteresis)
                &&& survivors(entries, seen, hysteresis)[j] == tested(
                    entries[from[j]],
                    seen[from[j]],
                )
            },
        forall|i: int, j: int|
            0 <= i < j < from.len() ==> #[trigger] from[i] < #[trigger] from[j],
        forall|i: int|
            0 <= i < entries.len() && survives(#[trigger] entries[i], seen[i], hysteresis)
                ==> from.contains(i),
    decreases entries.len(),
{
    if entries.len() == 0 {
        Seq::empty()
    } else {
        let front = entries.drop_last();
        let n = entries.len() - 1;
        let less = lemma_survivors_from(front, seen, hysteresis);
        let from = if survives(entries.last(), seen[n], hysteresis) {
            less.push(n)
        } else {
            less
        };
        let all = survivors(entries, seen, hysteresis);
        assert forall|j: int| 0 <= j < from.len() implies {
            &&& 0 <= #[trigger] from[j] < entries.len()
            &&& survives(entries[from[j]], seen[from[j]], hysteresis)
            &&& all[j] == tested(entries[from[j]], seen[from[j]])
        } by {
            if j < less.len() {
                assert(from[j] == less[j]);
                assert(front[less[j]] == entries[less[j]]);
            }
        }
        assert forall|i: int, j: int| 0 <= i < j < from.len() implies #[trigger] from[i]
            < #[trigger] from[j] by {
            assert(from[i] == less[i]);
            if j < less.len() {
                assert(from[j] == less[j]);
            }
        }
        assert forall|i: int|
            0 <= i < entries.len() && survives(
                #[trigger] entries[i],
                seen[i],
                hysteresis,
            ) implies from.contains(i) by {
            if i < n {
                assert(front[i] == entries[i]);
                assert(less.contains(i));
                let j = choose|j: int| 0 <= j < less.len() && less[j] == i;
                assert(from[j] == i);
            } else {
                assert(from[from.len() - 1] == i);
            }
        }
        from
    }
}

/// Culling keeps what was declared and is seen, or was seen within the window,
/// and drops everything else; what it keeps it leaves as it was, but for when it
/// was last seen, in the order in which it stood.
pub proof fn law_culling_keeps_what_is_seen<R, F: Fn(&Aabb) -> bool>(
    before: Seq<LiveEntry<R>>,
    after: Seq<LiveEntry<R>>,
    inside: F,
    hysteresis: u32,
) -> (from: Seq<int>)
    requires
        keys_distinct(before),
        is_culled(before, after, inside, hysteresis),
    ensures
        forall|i: int|
            #![trigger before[i]]
            0 <= i < before.len() ==> is_culled_rightly(
                before,
                after,
                inside,
                hysteresis,
                i,
                true,
            ) || is_culled_rightly(before, after, inside, hysteresis, i, false),
        from.len() == after.len(),
        forall|j: int|
            0 <= j < after.len() ==> 0 <= #[trigger] from[j] < before.len() && is_kept(
                after[j],
                before[from[j]],
                after[j].object.frames_since_visible as int,
            ),
        forall|i: int, j: int|
            0 <= i < j < from.len() ==> #[trigger] from[i] < #[trigger] from[j],
{
    let seen = choose|seen: Seq<bool>|
        {
            &&& seen.len() == before.len()
            &&& forall|i: int|
                0 <= i < before.len() ==> (before[i].object.declared_this_frame ==> can_be_seen(
                    inside,
                    before[i].object,
                    #[trigger] seen[i],
                ))
            &&& after == #[trigger] survivors(before, seen, hysteresis)
        };
    let from = lemma_survivors_from(before, seen, hysteresis);
    assert forall|i: int|
        #![trigger before[i]]
        0 <= i < before.len() implies is_culled_rightly(
        before,
        after,
        inside,
        hysteresis,
        i,
        true,
    ) || is_culled_rightly(before, after, inside, hysteresis, i, false) by {
        let s = seen[i];
        if survives(before[i], s, hysteresis) {
            assert(from.contains(i));
            let j = choose|j: int| 0 <= j < from.len() && from[j] == i;
            assert(after[j] == tested(before[from[j]], seen[from[j]]));
            assert(is_kept(after[j], before[i], after[j].object.frames_since_visible as int));
            assert(has_kept(after, before[i], after[j].object.frames_since_visible as int));
        } else {
            assert forall|j: int| 0 <= j < after.len() implies !((#[trigger] after[j]).parent
                == before[i].parent && after[j].render_id == before[i].render_id) by {
                let k = from[j];
                assert(after[j] == tested(before[k], seen[k]));
                if k < i {
                    assert(!has_key(before[k], before[i].parent, before[i].render_id));
                } else if i < k {
                    assert(!has_key(before[i], before[k].parent, before[k].render_id));
                }
            }
        }
        assert(is_culled_rightly(before, after, inside, hysteresis, i, s));
    }
    assert forall|j: int| 0 <= j < after.len() implies 0 <= #[trigger] from[j] < before.len()
        && is_kept(
        after[j],
        before[from[j]],
        after[j].object.frames_since_visible as int,
    ) by {
        assert(after[j] == tested(before[from[j]], seen[from[j]]));
    }
    from
}

/// A new frame forgets what was declared and nothing else; and what the view puts
/// in place of an object leaves its key, its declaration and when it was seen as
/// they were, and is there in everything else.
pub proof fn law_frames_and_views_keep_the_rest<R>(entry: LiveEntry<R>, object: LiveRenderObject)
    ensures
        !unseen(entry).object.declared_this_frame,
        is_kept(
            unseen(entry),
            LiveEntry {
                object: LiveRenderObject { declared_this_frame: false, ..entry.object },
                ..entry
            },
            entry.object.frames_since_visible as int,
        ),
        changed(entry, object).parent == entry.parent,
        changed(entry, object).render_id == entry.render_id,
        changed(entry, object).object.declared_this_frame == entry.object.declared_this_frame,
        changed(entry, object).object.frames_since_visible == entry.object.frames_since_visible,
        changed(entry, object).object.world_xform == object.world_xform,
        changed(entry, object).object.world_aabb == object.world_aabb,
        changed(entry, object).object.root_visible == object.root_visible,
        changed(entry, object).object.mesh_parts == object.mesh_parts,
        changed(entry, object).object.emitter_parts == object.emitter_parts,
{
}

} // verus!
