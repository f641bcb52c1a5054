//! A frame's instances as the steps that draw them.

use super::instance::{filled, Bucket, InstanceBuckets};
use super::material_registry::{id_of_slot, lower_case, MaterialRegistry};
use std::collections::HashMap;
use std::hash::Hash;
use vstd::prelude::*;
use vstd::std_specs::hash::obeys_key_model;

verus! {

broadcast use vstd::std_specs::hash::group_hash_axioms;

/// The pipelines between which primitives are drawn.
#[derive(Debug, Clone, Copy, PartialEq, Eq, Structural)]
pub enum ActivePipeline {
    Pbr,
    Atlas,
}

/// A primitive of a mesh, as far as the order of drawing depends on it.
#[derive(Debug)]
pub struct PrimitiveInfo {
    /// What the mesh calls the primitive's material.
    pub material_name: Option<String>,
    pub index_count: u32,
}

/// One step of drawing. Buckets are numbered among those that are filled, and
/// primitives within the mesh of their bucket.
#[derive(Debug, Clone, Copy, PartialEq, Eq, Structural)]
pub enum DrawStep {
    /// The instances of a bucket are bound.
    BindInstances { bucket: usize },
    /// A pipeline is set.
    SetPipeline { pipeline: ActivePipeline },
    /// The material is bound that the primitive's name stands for.
    BindAtlasMaterial { bucket: usize, primitive: usize },
    /// The material of the bucket's template is bound.
    BindOwnMaterial { bucket: usize },
    /// The primitive is drawn, once for each instance.
    Draw { bucket: usize, primitive: usize, index_count: u32, instances: u32 },
}

/// The pipeline that a primitive is drawn through: that of the atlas if its
/// material's name stands for an instance, otherwise the other.
pub open spec fn pipeline_for<I>(
    atlas: MaterialRegistry<I>,
    primitive: PrimitiveInfo,
) -> ActivePipeline {
    match primitive.material_name {
        Some(name) => if atlas.spec_lookup(id_of_slot(name@, lower_case(name@))) is Some {
            ActivePipeline::Atlas
        } else {
            ActivePipeline::Pbr
        },
        None => ActivePipeline::Pbr,
    }
}

fn choose_pipeline<I>(atlas: &MaterialRegistry<I>, primitive: &PrimitiveInfo) -> (r: ActivePipeline)
    ensures
        r == pipeline_for(*atlas, *primitive),
{
    match &primitive.material_name {
        Some(name) => match atlas.get_by_name(name.as_str()) {
            Some(_) => ActivePipeline::Atlas,
            None => ActivePipeline::Pbr,
        },
        None => ActivePipeline::Pbr,
    }
}

/// The steps for one primitive, when `active` is the pipeline that is set.
pub open spec fn primitive_steps(
    active: Option<ActivePipeline>,
    pipeline: ActivePipeline,
    bucket: usize,
    primitive: usize,
    index_count: u32,
    instances: u32,
) -> Seq<DrawStep> {
    let change = if active == Some(pipeline) {
        Seq::empty()
    } else {
        seq![DrawStep::SetPipeline { pipeline }]
    };
    let material = if pipeline == ActivePipeline::Atlas {
        DrawStep::BindAtlasMaterial { bucket, primitive }
    } else {
        DrawStep::BindOwnMaterial { bucket }
    };
    change + seq![material, DrawStep::Draw { bucket, primitive, index_count, instances }]
}

/// The steps for the first `n` primitives of a bucket's mesh, each through the
/// pipeline that was chosen for it.
pub open spec fn mesh_steps(
    chosen: Seq<ActivePipeline>,
    active: Option<ActivePipeline>,
    bucket: usize,
    primitives: Seq<PrimitiveInfo>,
    instances: u32,
    n: nat,
) -> Seq<DrawStep>
    decreases n,
{
    if n == 0 {
        seq![DrawStep::BindInstances { bucket }]
    } else {
        let k = n - 1;
        mesh_steps(chosen, active, bucket, primitives, instances, k as nat) + primitive_steps(
            active_after(chosen, active, k as nat),
            chosen[k],
            bucket,
            k as usize,
            primitives[k].index_count,
            instances,
        )
    }
}

/// The pipeline that is set after the first `n` primitives of a mesh.
pub open spec fn active_after(
    chosen: Seq<ActivePipeline>,
    active: Option<ActivePipeline>,
    n: nat,
) -> Option<ActivePipeline> {
    if n == 0 {
        active
    } else {
        Some(chosen[n - 1])
    }
}

/// A bucket that is drawn: its instances, and its mesh if there is a template
/// for it.
pub struct DrawnBucket {
    pub instances: u32,
    pub primitives: Option<Vec<PrimitiveInfo>>,
}

/// The steps for the first `n` buckets, and the pipeline that is set after
/// them. A bucket without a template is passed over.
pub open spec fn frame_steps(
    chosen: Seq<Vec<ActivePipeline>>,
    drawn: Seq<DrawnBucket>,
    n: nat,
) -> (Seq<DrawStep>, Option<ActivePipeline>)
    decreases n,
{
    if n == 0 {
        (Seq::empty(), None)
    } else {
        let (steps, active) = frame_steps(chosen, drawn, (n - 1) as nat);
        match drawn[n - 1].primitives {
            Some(primitives) => (
                steps + mesh_steps(
                    chosen[n - 1]@,
                    active,
                    (n - 1) as usize,
                    primitives@,
                    drawn[n - 1].instances,
                    primitives@.len(),
                ),
                active_after(chosen[n - 1]@, active, primitives@.len()),
            ),
            None => (steps, active),
        }
    }
}

/// The primitives of a bucket, if it has a template.
pub open spec fn primitives_in(bucket: DrawnBucket) -> Seq<PrimitiveInfo> {
    match bucket.primitives {
        Some(primitives) => primitives@,
        None => Seq::empty(),
    }
}

/// For each primitive of each bucket a pipeline was chosen.
pub open spec fn covers(chosen: Seq<Vec<ActivePipeline>>, drawn: Seq<DrawnBucket>) -> bool {
    &&& chosen.len() == drawn.len()
    &&& forall|i: int|
        0 <= i < drawn.len() ==> (#[trigger] chosen[i])@.len() == primitives_in(drawn[i]).len()
}

/// For each primitive of each bucket its pipeline was chosen.
pub open spec fn is_chosen<I>(
    atlas: MaterialRegistry<I>,
    drawn: Seq<DrawnBucket>,
    chosen: Seq<Vec<ActivePipeline>>,
) -> bool {
    &&& chosen.len() == drawn.len()
    &&& forall|i: int|
        0 <= i < drawn.len() ==> (#[trigger] chosen[i])@ == primitives_in(drawn[i]).map_values(
            |p: PrimitiveInfo| pipeline_for(atlas, p),
        )
}

/// What is drawn of the filled buckets: those with a template have the
/// primitives that `primitives_of` gives for it.
pub open spec fn can_be_drawn<K, B, J, T, F: Fn(&T) -> Vec<PrimitiveInfo>>(
    buckets: Seq<Bucket<K, J, B>>,
    templates: Map<K, T>,
    primitives_of: F,
    drawn: Seq<DrawnBucket>,
) -> bool {
    &&& drawn.len() == buckets.len()
    &&& forall|i: int|
        #![trigger drawn[i]]
        0 <= i < drawn.len() ==> {
            &&& drawn[i].instances == buckets[i].scratch@.len()
            &&& match drawn[i].primitives {
                Some(primitives) => {
                    &&& templates.contains_key(buckets[i].key)
                    &&& call_ensures(primitives_of, (&templates[buckets[i].key],), primitives)
                },
                None => !templates.contains_key(buckets[i].key),
            }
        }
}

/// The loops that draw a frame's buckets.
pub struct MeshDraw;

impl MeshDraw {
    /// Looks up what is drawn of each filled bucket.
    fn look_up<K, J, B, T, F>(
        templates: &HashMap<K, T>,
        buckets: &InstanceBuckets<K, J, B>,
        primitives_of: F,
    ) -> (r: Vec<DrawnBucket>) where
        K: Copy + Eq + Hash,
        J: Copy,
        F: Fn(&T) -> Vec<PrimitiveInfo>,

        requires
            buckets.wf(),
            obeys_key_model::<K>(),
            forall|t: &T| #[trigger] call_requires(primitives_of, (t,)),
        ensures
            can_be_drawn(filled(buckets.buckets()), templates@, primitives_of, r@),
    {
        let list = buckets.iter_filled();
        let mut out: Vec<DrawnBucket> = Vec::new();
        let ghost all = filled(buckets.buckets());
        let mut i: usize = 0;
        while i < list.len()
            invariant
                obeys_key_model::<K>(),
                forall|t: &T| #[trigger] call_requires(primitives_of, (t,)),
                all == filled(buckets.buckets()),
                list@.len() == all.len(),
                forall|j: int|
                    0 <= j < list@.len() ==> (#[trigger] list@[j]).0 == all[j].key && list@[j].2
                        == all[j].scratch@.len(),
                i <= list@.len(),
                out@.len() == i,
                forall|j: int|
                    #![trigger out@[j]]
                    0 <= j < i ==> {
                        &&& out@[j].instances == all[j].scratch@.len()
                        &&& match out@[j].primitives {
                            Some(primitives) => {
                                &&& templates@.contains_key(all[j].key)
                                &&& call_ensures(
                                    primitives_of,
                                    (&templates@[all[j].key],),
                                    primitives,
                                )
                            },
                            None => !templates@.contains_key(all[j].key),
                        }
                    },
            decreases list@.len() - i,
        {
            let key = list[i].0;
            let instances = list[i].2;
            let primitives = match templates.get(&key) {
                Some(template) => Some(primitives_of(template)),
                None => None,
            };
            out.push(DrawnBucket { instances, primitives });
            i += 1;
        }
        out
    }

    /// Chooses the pipeline of each primitive.
    pub fn choose_pipelines<I>(atlas: &MaterialRegistry<I>, drawn: &Vec<DrawnBucket>) -> (r: Vec<
        Vec<ActivePipeline>,
    >)
        ensures
            is_chosen(*atlas, drawn@, r@),
            covers(r@, drawn@),
    {
        let mut out: Vec<Vec<ActivePipeline>> = Vec::new();
        let mut i: usize = 0;
        while i < drawn.len()
            invariant
                i <= drawn@.len(),
                out@.len() == i,
                forall|j: int|
                    0 <= j < i ==> (#[trigger] out@[j])@ == primitives_in(drawn@[j]).map_values(
                        |p: PrimitiveInfo| pipeline_for(*atlas, p),
                    ),
            decreases drawn@.len() - i,
        {
            let mut row: Vec<ActivePipeline> = Vec::new();
            match &drawn[i].primitives {
                Some(primitives) => {
                    let mut k: usize = 0;
                    while k < primitives.len()
                        invariant
                            k <= primitives@.len(),
                            row@.len() == k,
                            forall|j: int|
                                0 <= j < k ==> #[trigger] row@[j] == pipeline_for(
                                    *atlas,
                                    primitives@[j],
                                ),
                        decreases primitives@.len() - k,
                    {
                        row.push(choose_pipeline(atlas, &primitives[k]));
                        k += 1;
                    }
                },
                None => {},
            }
            assert(row@ =~= primitives_in(drawn@[i as int]).map_values(
                |p: PrimitiveInfo| pipeline_for(*atlas, p),
            ));
            out.push(row);
            i += 1;
        }
        out
    }

    /// The steps that draw what was looked up, each primitive through the
    /// pipeline that was chosen for it.
    pub fn steps(chosen: &Vec<Vec<ActivePipeline>>, drawn: &Vec<DrawnBucket>) -> (r: Vec<DrawStep>)
        requires
            covers(chosen@, drawn@),
        ensures
            r@ == frame_steps(chosen@, drawn@, drawn@.len()).0,
    {
        let mut out: Vec<DrawStep> = Vec::new();
        let mut active: Option<ActivePipeline> = None;
        let mut i: usize = 0;
        while i < drawn.len()
            invariant
                covers(chosen@, drawn@),
                i <= drawn@.len(),
                out@ == frame_steps(chosen@, drawn@, i as nat).0,
                active == frame_steps(chosen@, drawn@, i as nat).1,
            decreases drawn@.len() - i,
        {
            let instances = drawn[i].instances;
            match &drawn[i].primitives {
                Some(primitives) => {
                    let row = &chosen[i];
                    let ghost before = out@;
                    let ghost first = active;
                    out.push(DrawStep::BindInstances { bucket: i });
                    assert(out@ =~= before + mesh_steps(
                        row@,
                        first,
                        i,
                        primitives@,
                        instances,
                        0,
                    ));
                    assert(row@.len() == primitives_in(drawn@[i as int]).len());
                    let mut k: usize = 0;
                    while k < primitives.len()
                        invariant
                            k <= primitives@.len(),
                            row@.len() == primitives@.len(),
                            out@ == before + mesh_steps(
                                row@,
                                first,
                                i,
                                primitives@,
                                instances,
                                k as nat,
                            ),
                            active == active_after(row@, first, k as nat),
                        decreases primitives@.len() - k,
                    {
                        let ghost so_far = out@;
                        let ghost set = active;
                        let pipeline = row[k];
                        if active != Some(pipeline) {
                            out.push(DrawStep::SetPipeline { pipeline });
                            active = Some(pipeline);
                        }
                        match pipeline {
                            ActivePipeline::Atlas => {
                                out.push(DrawStep::BindAtlasMaterial { bucket: i, primitive: k });
                            },
                            ActivePipeline::Pbr => {
                                out.push(DrawStep::BindOwnMaterial { bucket: i });
                            },
                        }
                        let index_count = primitives[k].index_count;
                        out.push(
                            DrawStep::Draw { bucket: i, primitive: k, index_count, instances },
                        );
                        proof {
                            let more = primitive_steps(
                                set,
                                pipeline,
                                i,
                                k,
                                index_count,
                                instances,
                            );
                            assert(out@ =~= so_far + more);
                            assert(out@ =~= before + (mesh_steps(
                                row@,
                                first,
                                i,
                                primitives@,
                                instances,
                                k as nat,
                            ) + more));
                        }
                        k += 1;
                    }
                },
                None => {},
            }
            i += 1;
        }
        out
    }

    /// The steps that draw the filled buckets: a primitive whose material's
    /// name stands for an atlas instance is drawn with that, any other with
    /// the material of its template.
    pub fn pbr_with_atlas<K, J, B, T, I, F>(
        atlas: &MaterialRegistry<I>,
        templates: &HashMap<K, T>,
        buckets: &InstanceBuckets<K, J, B>,
        primitives_of: F,
    ) -> (r: Vec<DrawStep>) where
        K: Copy + Eq + Hash,
        J: Copy,
        F: Fn(&T) -> Vec<PrimitiveInfo>,

        requires
            buckets.wf(),
            obeys_key_model::<K>(),
            forall|t: &T| #[trigger] call_requires(primitives_of, (t,)),
        ensures
            exists|drawn: Seq<DrawnBucket>, chosen: Seq<Vec<ActivePipeline>>|
                {
                    &&& #[trigger] can_be_drawn(
                        filled(buckets.buckets()),
                        templates@,
                        primitives_of,
                        drawn,
                    )
                    &&& #[trigger] is_chosen(*atlas, drawn, chosen)
                    &&& r@ == frame_steps(chosen, drawn, drawn.len()).0
                },
    {
        let drawn = MeshDraw::look_up(templates, buckets, primitives_of);
        let chosen = MeshDraw::choose_pipelines(atlas, &drawn);
        MeshDraw::steps(&chosen, &drawn)
    }

    /// The steps that draw the depths of the filled buckets, through one
    /// pipeline that is set before them.
    pub fn depth_only<K, J, B, T, F>(
        templates: &HashMap<K, T>,
        buckets: &InstanceBuckets<K, J, B>,
        primitives_of: F,
    ) -> (r: Vec<DrawStep>) where
        K: Copy + Eq + Hash,
        J: Copy,
        F: Fn(&T) -> Vec<PrimitiveInfo>,

        requires
            buckets.wf(),
            obeys_key_model::<K>(),
            forall|t: &T| #[trigger] call_requires(primitives_of, (t,)),
        ensures
            exists|drawn: Seq<DrawnBucket>|
                {
                    &&& #[trigger] can_be_drawn(
                        filled(buckets.buckets()),
                        templates@,
                        primitives_of,
                        drawn,
                    )
                    &&& r@ == depth_steps(drawn, drawn.len())
                },
    {
        let drawn = MeshDraw::look_up(templates, buckets, primitives_of);
        MeshDraw::depths(&drawn)
    }

    /// The steps that draw the depths of what was looked up.
    pub fn depths(drawn: &Vec<DrawnBucket>) -> (r: Vec<DrawStep>)
        ensures
            r@ == depth_steps(drawn@, drawn@.len()),
    {
        let mut out: Vec<DrawStep> = Vec::new();
        let mut i: usize = 0;
        while i < drawn.len()
            invariant
                i <= drawn@.len(),
                out@ == depth_steps(drawn@, i as nat),
            decreases drawn@.len() - i,
        {
            let instances = drawn[i].instances;
            match &drawn[i].primitives {
                Some(primitives) => {
                    let ghost before = out@;
                    out.push(DrawStep::BindInstances { bucket: i });
                    assert(out@ =~= before + mesh_depths(i, primitives@, instances, 0));
                    let mut k: usize = 0;
                    while k < primitives.len()
                        invariant
                            k <= primitives@.len(),
                            out@ == before + mesh_depths(i, primitives@, instances, k as nat),
                        decreases primitives@.len() - k,
                    {
                        let index_count = primitives[k].index_count;
                        let ghost so_far = mesh_depths(i, primitives@, instances, k as nat);
                        let step = DrawStep::Draw {
                            bucket: i,
                            primitive: k,
                            index_count,
                            instances,
                        };
                        out.push(step);
                        assert(out@ =~= before + so_far.push(step));
                        k += 1;
                    }
                },
                None => {},
            }
            i += 1;
        }
        out
    }
}

/// The steps that draw the depths of the first `n` primitives of a mesh.
pub open spec fn mesh_depths(
    bucket: usize,
    primitives: Seq<PrimitiveInfo>,
    instances: u32,
    n: nat,
) -> Seq<DrawStep>
    decreases n,
{
    if n == 0 {
        seq![DrawStep::BindInstances { bucket }]
    } else {
        mesh_depths(bucket, primitives, instances, (n - 1) as nat).push(
            DrawStep::Draw {
                bucket,
                primitive: (n - 1) as usize,
                index_count: primitives[n - 1].index_count,
                instances,
            },
        )
    }
}

/// The steps that draw the depths of the first `n` buckets.
pub open spec fn depth_steps(drawn: Seq<DrawnBucket>, n: nat) -> Seq<DrawStep>
    decreases n,
{
    if n == 0 {
        Seq::empty()
    } else {
        let steps = depth_steps(drawn, (n - 1) as nat);
        match drawn[n - 1].primitives {
            Some(primitives) => steps + mesh_depths(
                (n - 1) as usize,
                primitives@,
                drawn[n - 1].instances,
                primitives@.len(),
            ),
            None => steps,
        }
    }
}

/// The pipeline that is set after the steps, when `active` is set before them.
pub open spec fn set_by(steps: Seq<DrawStep>, active: Option<ActivePipeline>) -> Option<
    ActivePipeline,
>
    decreases steps.len(),
{
    if steps.len() == 0 {
        active
    } else {
        match steps.last() {
            DrawStep::SetPipeline { pipeline } => Some(pipeline),
            _ => set_by(steps.drop_last(), active),
        }
    }
}

proof fn lemma_set_by_join(a: Seq<DrawStep>, b: Seq<DrawStep>, active: Option<ActivePipeline>)
    ensures
        set_by(a + b, active) == set_by(b, set_by(a, active)),
    decreases b.len(),
{
    if b.len() == 0 {
        assert(a + b =~= a);
    } else {
        assert((a + b).drop_last() =~= a + b.drop_last());
        lemma_set_by_join(a, b.drop_last(), active);
    }
}

proof fn lemma_set_by_primitive(
    active: Option<ActivePipeline>,
    pipeline: ActivePipeline,
    bucket: usize,
    primitive: usize,
    index_count: u32,
    instances: u32,
)
    ensures
        set_by(
            primitive_steps(active, pipeline, bucket, primitive, index_count, instances),
            active,
        ) == Some(pipeline),
{
    let steps = primitive_steps(active, pipeline, bucket, primitive, index_count, instances);
    let change = if active == Some(pipeline) {
        Seq::empty()
    } else {
        seq![DrawStep::SetPipeline { pipeline }]
    };
    let rest = steps.drop_last().drop_last();
    assert(rest =~= change);
    reveal_with_fuel(set_by, 4);
    assert(set_by(steps, active) == set_by(steps.drop_last(), active));
    assert(set_by(steps.drop_last(), active) == set_by(rest, active));
    if active != Some(pipeline) {
        assert(change.last() == DrawStep::SetPipeline { pipeline });
    }
}

proof fn lemma_set_by_mesh(
    chosen: Seq<ActivePipeline>,
    active: Option<ActivePipeline>,
    bucket: usize,
    primitives: Seq<PrimitiveInfo>,
    instances: u32,
    n: nat,
)
    requires
        n <= primitives.len(),
    ensures
        set_by(mesh_steps(chosen, active, bucket, primitives, instances, n), active)
            == active_after(chosen, active, n),
    decreases n,
{
    if n == 0 {
        let steps = seq![DrawStep::BindInstances { bucket }];
        assert(steps.drop_last() =~= Seq::<DrawStep>::empty());
        reveal_with_fuel(set_by, 2);
    } else {
        let k = (n - 1) as nat;
        lemma_set_by_mesh(chosen, active, bucket, primitives, instances, k);
        let before = mesh_steps(chosen, active, bucket, primitives, instances, k);
        let set = active_after(chosen, active, k);
        let pipeline = chosen[k as int];
        let more = primitive_steps(
            set,
            pipeline,
            bucket,
            k as usize,
            primitives[k as int].index_count,
            instances,
        );
        lemma_set_by_join(before, more, active);
        lemma_set_by_primitive(
            set,
            pipeline,
            bucket,
            k as usize,
            primitives[k as int].index_count,
            instances,
        );
    }
}

/// What is remembered of the pipeline is the one that the steps have set: it is
/// set where it changes, and so for every primitive the right one.
pub proof fn law_the_pipeline_is_followed(
    chosen: Seq<Vec<ActivePipeline>>,
    drawn: Seq<DrawnBucket>,
    n: nat,
)
    requires
        n <= drawn.len(),
    ensures
        set_by(frame_steps(chosen, drawn, n).0, None) == frame_steps(chosen, drawn, n).1,
    decreases n,
{
    if n > 0 {
        law_the_pipeline_is_followed(chosen, drawn, (n - 1) as nat);
        let (steps, active) = frame_steps(chosen, drawn, (n - 1) as nat);
        match drawn[n - 1].primitives {
            Some(primitives) => {
                lemma_set_by_mesh(
                    chosen[n - 1]@,
                    active,
                    (n - 1) as usize,
                    primitives@,
                    drawn[n - 1].instances,
                    primitives@.len(),
                );
                lemma_set_by_join(
                    steps,
                    mesh_steps(
                        chosen[n - 1]@,
                        active,
                        (n - 1) as usize,
                        primitives@,
                        drawn[n - 1].instances,
                        primitives@.len(),
                    ),
                    None,
                );
            },
            None => {},
        }
    }
}

/// At `p` the primitive is drawn, once for each instance, through its pipeline.
pub open spec fn draws_at(
    steps: Seq<DrawStep>,
    active: Option<ActivePipeline>,
    bucket: usize,
    primitive: usize,
    info: PrimitiveInfo,
    pipeline: ActivePipeline,
    instances: u32,
    p: int,
) -> bool {
    &&& 0 <= p < steps.len()
    &&& steps[p] == DrawStep::Draw { bucket, primitive, index_count: info.index_count, instances }
    &&& set_by(steps.take(p), active) == Some(pipeline)
}

proof fn lemma_mesh_draws(
    chosen: Seq<ActivePipeline>,
    active: Option<ActivePipeline>,
    bucket: usize,
    primitives: Seq<PrimitiveInfo>,
    instances: u32,
    n: nat,
    k: int,
) -> (p: int)
    requires
        0 <= k < n <= primitives.len() <= usize::MAX,
    ensures
        draws_at(
            mesh_steps(chosen, active, bucket, primitives, instances, n),
            active,
            bucket,
            k as usize,
            primitives[k],
            chosen[k],
            instances,
            p,
        ),
    decreases n,
{
    let steps = mesh_steps(chosen, active, bucket, primitives, instances, n);
    let less = (n - 1) as nat;
    let before = mesh_steps(chosen, active, bucket, primitives, instances, less);
    if k == n - 1 {
        lemma_set_by_mesh(chosen, active, bucket, primitives, instances, n);
        assert(steps.last() is Draw);
        assert(steps.take(steps.len() - 1) =~= steps.drop_last());
        assert(set_by(steps, active) == set_by(steps.drop_last(), active));
        steps.len() - 1
    } else {
        let p = lemma_mesh_draws(chosen, active, bucket, primitives, instances, less, k);
        assert(steps.take(p) =~= before.take(p));
        p
    }
}

/// Every primitive of every bucket with a template is drawn, once for each
/// instance, through its pipeline.
pub proof fn law_every_primitive_is_drawn(
    chosen: Seq<Vec<ActivePipeline>>,
    drawn: Seq<DrawnBucket>,
    n: nat,
    bucket: int,
    primitive: int,
) -> (p: int)
    requires
        0 <= bucket < n <= drawn.len() <= usize::MAX,
        drawn[bucket].primitives is Some,
        0 <= primitive < drawn[bucket].primitives->0@.len() <= usize::MAX,
    ensures
        draws_at(
            frame_steps(chosen, drawn, n).0,
            None,
            bucket as usize,
            primitive as usize,
            drawn[bucket].primitives->0@[primitive],
            chosen[bucket]@[primitive],
            drawn[bucket].instances,
            p,
        ),
    decreases n,
{
    let less = (n - 1) as nat;
    let (before, active) = frame_steps(chosen, drawn, less);
    let steps = frame_steps(chosen, drawn, n).0;
    if bucket == n - 1 {
        let primitives = drawn[bucket].primitives->0@;
        let p = lemma_mesh_draws(
            chosen[bucket]@,
            active,
            bucket as usize,
            primitives,
            drawn[bucket].instances,
            primitives.len(),
            primitive,
        );
        let mesh = mesh_steps(
            chosen[bucket]@,
            active,
            bucket as usize,
            primitives,
            drawn[bucket].instances,
            primitives.len(),
        );
        law_the_pipeline_is_followed(chosen, drawn, less);
        lemma_set_by_join(before, mesh.take(p), None);
        assert(steps.take(before.len() + p) =~= before + mesh.take(p));
        before.len() + p
    } else {
        let p = law_every_primitive_is_drawn(chosen, drawn, less, bucket, primitive);
        assert(steps.take(p) =~= before.take(p));
        p
    }
}

/// A material is bound.
pub open spec fn binds_material(step: DrawStep) -> bool {
    step is BindAtlasMaterial || step is BindOwnMaterial
}

/// At `m` stands the last step before `p` that binds a material, and it is
/// `wanted`.
pub open spec fn last_material(steps: Seq<DrawStep>, p: int, m: int, wanted: DrawStep) -> bool {
    &&& 0 <= m < p
    &&& steps[m] == wanted
    &&& binds_material(wanted)
    &&& forall|j: int| m < j < p ==> !binds_material(#[trigger] steps[j])
}

/// At `m` stands the last step before `p` that binds instances, and they are
/// those of `bucket`.
pub open spec fn last_instances(steps: Seq<DrawStep>, p: int, m: int, bucket: usize) -> bool {
    &&& 0 <= m < p
    &&& steps[m] == DrawStep::BindInstances { bucket }
    &&& forall|j: int| m < j < p ==> !((#[trigger] steps[j]) is BindInstances)
}

/// At `m` stands the last step before `p` that sets a pipeline, and it is
/// `pipeline`.
pub open spec fn last_pipeline(
    steps: Seq<DrawStep>,
    p: int,
    m: int,
    pipeline: ActivePipeline,
) -> bool {
    &&& 0 <= m < p
    &&& steps[m] == DrawStep::SetPipeline { pipeline }
    &&& forall|j: int| m < j < p ==> !((#[trigger] steps[j]) is SetPipeline)
}

/// The step, if it draws, draws a primitive that there is: all of its indices,
/// once for each instance of its bucket.
pub open spec fn draws_a_primitive(step: DrawStep, drawn: Seq<DrawnBucket>) -> bool {
    match step {
        DrawStep::Draw { bucket, primitive, index_count, instances } => {
            &&& bucket < drawn.len()
            &&& instances == drawn[bucket as int].instances
            &&& drawn[bucket as int].primitives matches Some(primitives)
            &&& primitive < primitives@.len()
            &&& index_count == primitives@[primitive as int].index_count
        },
        _ => true,
    }
}

/// What a primitive is drawn with is bound and set when it is drawn.
pub open spec fn is_prepared(
    steps: Seq<DrawStep>,
    chosen: Seq<Vec<ActivePipeline>>,
    p: int,
    bucket: usize,
    primitive: usize,
) -> bool {
    let pipeline = chosen[bucket as int]@[primitive as int];
    &&& exists|m: int| #[trigger] last_instances(steps, p, m, bucket)
    &&& exists|m: int| #[trigger] last_pipeline(steps, p, m, pipeline)
    &&& match pipeline {
        ActivePipeline::Atlas => exists|m: int| #[trigger]
            last_material(steps, p, m, DrawStep::BindAtlasMaterial { bucket, primitive }),
        ActivePipeline::Pbr => exists|m: int| #[trigger]
            last_material(steps, p, m, DrawStep::BindOwnMaterial { bucket }),
    }
}

/// One draw stands before another in the order of buckets and primitives.
pub open spec fn draws_before(a: DrawStep, b: DrawStep) -> bool {
    match (a, b) {
        (
            DrawStep::Draw { bucket, primitive, .. },
            DrawStep::Draw { bucket: later, primitive: next, .. },
        ) => bucket < later || (bucket == later && primitive < next),
        _ => true,
    }
}

/// The step, if it draws, draws a primitive before the given one.
pub open spec fn draws_only_before(step: DrawStep, bucket: int, primitive: int) -> bool {
    match step {
        DrawStep::Draw { bucket: b, primitive: q, .. } => b < bucket || (b == bucket && q
            < primitive),
        _ => true,
    }
}

/// The step at `p` is right with what stands before it.
pub open spec fn is_right_step(
    steps: Seq<DrawStep>,
    chosen: Seq<Vec<ActivePipeline>>,
    drawn: Seq<DrawnBucket>,
    p: int,
) -> bool {
    &&& draws_a_primitive(steps[p], drawn)
    &&& steps[p] matches DrawStep::Draw { bucket, primitive, .. } ==> is_prepared(
        steps,
        chosen,
        p,
        bucket,
        primitive,
    )
    &&& forall|q: int| 0 <= q < p ==> draws_before(#[trigger] steps[q], steps[p])
    &&& steps[p] matches DrawStep::SetPipeline { pipeline } ==> set_by(steps.take(p), None) != Some(
        pipeline,
    )
}

/// What holds of the steps for the buckets before `bucket` and for the first
/// `done` primitives of that one.
pub open spec fn right_so_far(
    steps: Seq<DrawStep>,
    chosen: Seq<Vec<ActivePipeline>>,
    drawn: Seq<DrawnBucket>,
    bucket: int,
    done: int,
) -> bool {
    &&& forall|p: int|
        0 <= p < steps.len() ==> #[trigger] is_right_step(steps, chosen, drawn, p)
    &&& forall|p: int|
        0 <= p < steps.len() ==> draws_only_before(#[trigger] steps[p], bucket, done)
}

proof fn lemma_last_set(steps: Seq<DrawStep>, pipeline: ActivePipeline) -> (m: int)
    requires
        set_by(steps, None) == Some(pipeline),
    ensures
        last_pipeline(steps, steps.len() as int, m, pipeline),
    decreases steps.len(),
{
    if steps.last() is SetPipeline {
        steps.len() - 1
    } else {
        let front = steps.drop_last();
        let m = lemma_last_set(front, pipeline);
        assert forall|j: int| m < j < steps.len() implies !((#[trigger] steps[j]) is SetPipeline) by {
            if j < front.len() {
                assert(front[j] == steps[j]);
            }
        }
        m
    }
}

/// A step that is right stays right whatever follows.
proof fn lemma_right_in_longer(
    steps: Seq<DrawStep>,
    longer: Seq<DrawStep>,
    chosen: Seq<Vec<ActivePipeline>>,
    drawn: Seq<DrawnBucket>,
    p: int,
)
    requires
        0 <= p < steps.len() <= longer.len(),
        longer.take(steps.len() as int) == steps,
        is_right_step(steps, chosen, drawn, p),
    ensures
        is_right_step(longer, chosen, drawn, p),
{
    assert forall|j: int| 0 <= j < steps.len() implies steps[j] == longer[j] by {
        assert(longer.take(steps.len() as int)[j] == longer[j]);
    }
    assert(longer.take(p) =~= steps.take(p));
    assert forall|q: int| 0 <= q < p implies draws_before(#[trigger] longer[q], longer[p]) by {
        assert(draws_before(steps[q], steps[p]));
    }
    if let DrawStep::Draw { bucket, primitive, .. } = longer[p] {
        let pipeline = chosen[bucket as int]@[primitive as int];
        let a = choose|m: int| #[trigger] last_instances(steps, p, m, bucket);
        assert(last_instances(longer, p, a, bucket));
        let b = choose|m: int| #[trigger] last_pipeline(steps, p, m, pipeline);
        assert(last_pipeline(longer, p, b, pipeline));
        match pipeline {
            ActivePipeline::Atlas => {
                let wanted = DrawStep::BindAtlasMaterial { bucket, primitive };
                let c = choose|m: int| #[trigger] last_material(steps, p, m, wanted);
                assert(last_material(longer, p, c, wanted));
            },
            ActivePipeline::Pbr => {
                let wanted = DrawStep::BindOwnMaterial { bucket };
                let c = choose|m: int| #[trigger] last_material(steps, p, m, wanted);
                assert(last_material(longer, p, c, wanted));
            },
        }
    }
}

/// One more primitive is drawn rightly.
proof fn lemma_right_primitive(
    before: Seq<DrawStep>,
    bound: int,
    chosen: Seq<Vec<ActivePipeline>>,
    drawn: Seq<DrawnBucket>,
    bucket: int,
    k: int,
)
    requires
        0 <= bucket < drawn.len() <= usize::MAX,
        drawn[bucket].primitives is Some,
        0 <= k < drawn[bucket].primitives->0@.len() <= usize::MAX,
        right_so_far(before, chosen, drawn, bucket, k),
        last_instances(before, before.len() as int, bound, bucket as usize),
    ensures
        ({
            let after = before + primitive_steps(
                set_by(before, None),
                chosen[bucket]@[k],
                bucket as usize,
                k as usize,
                drawn[bucket].primitives->0@[k].index_count,
                drawn[bucket].instances,
            );
            &&& right_so_far(after, chosen, drawn, bucket, k + 1)
            &&& last_instances(after, after.len() as int, bound, bucket as usize)
        }),
{
    let active = set_by(before, None);
    let pipeline = chosen[bucket]@[k];
    let b = bucket as usize;
    let q = k as usize;
    let info = drawn[bucket].primitives->0@[k];
    let more = primitive_steps(active, pipeline, b, q, info.index_count, drawn[bucket].instances);
    let after = before + more;
    let n = before.len() as int;
    let end = after.len() as int;
    assert(after.take(n) =~= before);
    lemma_set_by_primitive(active, pipeline, b, q, info.index_count, drawn[bucket].instances);
    lemma_set_by_join(before, more, None);
    let draw = DrawStep::Draw {
        bucket: b,
        primitive: q,
        index_count: info.index_count,
        instances: drawn[bucket].instances,
    };
    let material = match pipeline {
        ActivePipeline::Atlas => DrawStep::BindAtlasMaterial { bucket: b, primitive: q },
        ActivePipeline::Pbr => DrawStep::BindOwnMaterial { bucket: b },
    };
    assert(after[end - 1] == draw);
    assert(after[end - 2] == material);
    let front = after.drop_last();
    assert(set_by(front, None) == Some(pipeline));
    let s = lemma_last_set(front, pipeline);
    assert(last_pipeline(after, end - 1, s, pipeline)) by {
        assert forall|j: int| s < j < end - 1 implies !((#[trigger] after[j]) is SetPipeline) by {
            assert(front[j] == after[j]);
        }
        assert(front[s] == after[s]);
    }
    assert(last_material(after, end - 1, end - 2, material));
    assert forall|j: int| bound < j < end implies !((#[trigger] after[j]) is BindInstances) by {
        if j < n {
            assert(before[j] == after[j]);
        } else {
            assert(after[j] == more[j - n]);
        }
    }
    assert(after[bound] == before[bound]);
    assert(last_instances(after, end, bound, b));
    assert(last_instances(after, end - 1, bound, b));
    assert(is_prepared(after, chosen, end - 1, b, q));
    assert forall|p: int| 0 <= p < end implies draws_only_before(#[trigger] after[p], bucket, k + 1) by {
        if p < n {
            assert(draws_only_before(before[p], bucket, k));
        } else {
            assert(after[p] == more[p - n]);
        }
    }
    assert forall|p: int| 0 <= p < end implies #[trigger] is_right_step(after, chosen, drawn, p) by {
        if p < n {
            assert(is_right_step(before, chosen, drawn, p));
            lemma_right_in_longer(before, after, chosen, drawn, p);
        } else if p == end - 1 {
            assert forall|j: int| 0 <= j < p implies draws_before(#[trigger] after[j], after[p]) by {
                if j < n {
                    assert(draws_only_before(before[j], bucket, k));
                } else {
                    assert(after[j] == more[j - n]);
                }
            }
        } else if p == end - 2 {
        } else {
            assert(p == n && active != Some(pipeline));
            assert(after.take(p) =~= before);
        }
    }
}

proof fn lemma_right_mesh(
    before: Seq<DrawStep>,
    chosen: Seq<Vec<ActivePipeline>>,
    drawn: Seq<DrawnBucket>,
    bucket: int,
    n: nat,
)
    requires
        0 <= bucket < drawn.len() <= usize::MAX,
        drawn[bucket].primitives is Some,
        n <= drawn[bucket].primitives->0@.len() <= usize::MAX,
        right_so_far(before, chosen, drawn, bucket, 0),
    ensures
        ({
            let after = before + mesh_steps(
                chosen[bucket]@,
                set_by(before, None),
                bucket as usize,
                drawn[bucket].primitives->0@,
                drawn[bucket].instances,
                n,
            );
            &&& right_so_far(after, chosen, drawn, bucket, n as int)
            &&& last_instances(
                after,
                after.len() as int,
                before.len() as int,
                bucket as usize,
            )
            &&& set_by(after, None) == active_after(
                chosen[bucket]@,
                set_by(before, None),
                n,
            )
        }),
    decreases n,
{
    let active = set_by(before, None);
    let primitives = drawn[bucket].primitives->0@;
    let instances = drawn[bucket].instances;
    let b = bucket as usize;
    let mesh = mesh_steps(chosen[bucket]@, active, b, primitives, instances, n);
    let after = before + mesh;
    let at = before.len() as int;
    lemma_set_by_mesh(chosen[bucket]@, active, b, primitives, instances, n);
    lemma_set_by_join(before, mesh, None);
    if n == 0 {
        assert(after.take(at) =~= before);
        assert(after[at] == DrawStep::BindInstances { bucket: b });
        assert forall|p: int| 0 <= p < after.len() implies #[trigger] is_right_step(
            after,
            chosen,
            drawn,
            p,
        ) && draws_only_before(after[p], bucket, 0) by {
            if p < at {
                assert(is_right_step(before, chosen, drawn, p));
                assert(draws_only_before(before[p], bucket, 0));
                lemma_right_in_longer(before, after, chosen, drawn, p);
            }
        }
    } else {
        let k = n - 1;
        lemma_right_mesh(before, chosen, drawn, bucket, k as nat);
        let less = before + mesh_steps(
            chosen[bucket]@,
            active,
            b,
            primitives,
            instances,
            k as nat,
        );
        lemma_right_primitive(less, at, chosen, drawn, bucket, k);
        let more = primitive_steps(
            active_after(chosen[bucket]@, active, k as nat),
            chosen[bucket]@[k],
            b,
            k as usize,
            primitives[k].index_count,
            instances,
        );
        assert(after =~= less + more);
    }
}

/// The buckets' meshes have a length that a machine can count.
pub open spec fn is_countable(drawn: Seq<DrawnBucket>) -> bool {
    &&& drawn.len() <= usize::MAX
    &&& forall|i: int|
        0 <= i < drawn.len() ==> ((#[trigger] drawn[i]).primitives matches Some(primitives)
            ==> primitives@.len() <= usize::MAX)
}

proof fn lemma_meshes_countable(drawn: Seq<DrawnBucket>)
    requires
        drawn.len() <= usize::MAX,
    ensures
        is_countable(drawn),
{
    assert forall|i: int| 0 <= i < drawn.len() implies (
    (#[trigger] drawn[i]).primitives matches Some(primitives) ==> primitives@.len()
        <= usize::MAX) by {
        if let Some(primitives) = drawn[i].primitives {
            assert(primitives.len() <= usize::MAX);
        }
    }
}

proof fn lemma_countable(drawn: Vec<DrawnBucket>)
    ensures
        is_countable(drawn@),
{
    assert(drawn.len() <= usize::MAX);
    lemma_meshes_countable(drawn@);
}

proof fn lemma_right_frame(
    chosen: Seq<Vec<ActivePipeline>>,
    drawn: Seq<DrawnBucket>,
    n: nat,
)
    requires
        n <= drawn.len(),
        is_countable(drawn),
    ensures
        right_so_far(frame_steps(chosen, drawn, n).0, chosen, drawn, n as int, 0),
    decreases n,
{
    if n > 0 {
        let b = n - 1;
        lemma_right_frame(chosen, drawn, b as nat);
        law_the_pipeline_is_followed(chosen, drawn, b as nat);
        let before = frame_steps(chosen, drawn, b as nat).0;
        let after = frame_steps(chosen, drawn, n).0;
        match drawn[b].primitives {
            Some(primitives) => {
                lemma_right_mesh(before, chosen, drawn, b, primitives@.len());
                assert forall|p: int| 0 <= p < after.len() implies draws_only_before(
                    #[trigger] after[p],
                    n as int,
                    0,
                ) by {
                    assert(draws_only_before(after[p], b, primitives@.len() as int));
                    assert(is_right_step(after, chosen, drawn, p));
                }
            },
            None => {
                assert forall|p: int| 0 <= p < after.len() implies draws_only_before(
                    #[trigger] after[p],
                    n as int,
                    0,
                ) by {
                    assert(draws_only_before(before[p], b, 0));
                }
            },
        }
    }
}

/// Whatever a frame draws, it draws with what belongs to it: the last instances
/// that were bound are those of the primitive's bucket, the last pipeline that
/// was set is the one that was chosen for the primitive, and the last material
/// that was bound is the one that the primitive's name stands for if it goes
/// through the atlas, and otherwise that of the bucket's template. Only
/// primitives that there are are drawn, each with all of its indices and once
/// for each instance, in the order of buckets and primitives and none twice;
/// and a pipeline is set only where another was set before.
pub proof fn law_draws_use_what_belongs_to_them(
    chosen: Vec<Vec<ActivePipeline>>,
    drawn: Vec<DrawnBucket>,
    steps: Vec<DrawStep>,
    p: int,
)
    requires
        covers(chosen@, drawn@),
        call_ensures(MeshDraw::steps, (&chosen, &drawn), steps),
        0 <= p < steps@.len(),
    ensures
        draws_a_primitive(steps@[p], drawn@),
        steps@[p] matches DrawStep::Draw { bucket, primitive, .. } ==> is_prepared(
            steps@,
            chosen@,
            p,
            bucket,
            primitive,
        ),
        forall|q: int| 0 <= q < p ==> draws_before(#[trigger] steps@[q], steps@[p]),
        steps@[p] matches DrawStep::SetPipeline { pipeline } ==> forall|m: int|
            !#[trigger] last_pipeline(steps@, p, m, pipeline),
{
    lemma_countable(drawn);
    lemma_right_frame(chosen@, drawn@, drawn@.len());
    assert(is_right_step(steps@, chosen@, drawn@, p));
    if let DrawStep::SetPipeline { pipeline } = steps@[p] {
        assert forall|m: int| !#[trigger] last_pipeline(steps@, p, m, pipeline) by {
            if last_pipeline(steps@, p, m, pipeline) {
                lemma_set_by_last(steps@, p, m, pipeline);
            }
        }
    }
}

proof fn lemma_set_by_last(steps: Seq<DrawStep>, p: int, m: int, pipeline: ActivePipeline)
    requires
        last_pipeline(steps, p, m, pipeline),
        p <= steps.len(),
    ensures
        set_by(steps.take(p), None) == Some(pipeline),
    decreases p,
{
    let front = steps.take(p);
    if m < p - 1 {
        lemma_set_by_last(steps, p - 1, m, pipeline);
        assert(front.drop_last() =~= steps.take(p - 1));
        assert(front.last() == steps[p - 1]);
    }
}

/// A frame draws every primitive of every bucket with a template.
pub proof fn law_frames_are_complete(
    chosen: Vec<Vec<ActivePipeline>>,
    drawn: Vec<DrawnBucket>,
    steps: Vec<DrawStep>,
    bucket: usize,
    primitive: usize,
) -> (p: int)
    requires
        covers(chosen@, drawn@),
        call_ensures(MeshDraw::steps, (&chosen, &drawn), steps),
        bucket < drawn@.len(),
        drawn@[bucket as int].primitives is Some,
        primitive < drawn@[bucket as int].primitives->0@.len(),
    ensures
        0 <= p < steps@.len(),
        steps@[p] == (DrawStep::Draw {
            bucket,
            primitive,
            index_count: drawn@[bucket as int].primitives->0@[primitive as int].index_count,
            instances: drawn@[bucket as int].instances,
        }),
{
    lemma_countable(drawn);
    assert(drawn@[bucket as int].primitives->0@.len() <= usize::MAX);
    law_every_primitive_is_drawn(
        chosen@,
        drawn@,
        drawn@.len(),
        bucket as int,
        primitive as int,
    )
}

/// A primitive goes through the atlas if and only if the registry finds an
/// instance by the name of its material.
pub proof fn law_names_choose_the_pipeline<I>(
    atlas: MaterialRegistry<I>,
    drawn: Vec<DrawnBucket>,
    chosen: Vec<Vec<ActivePipeline>>,
    bucket: int,
    primitive: int,
)
    requires
        call_ensures(MeshDraw::choose_pipelines::<I>, (&atlas, &drawn), chosen),
        0 <= bucket < drawn@.len(),
        drawn@[bucket].primitives is Some,
        0 <= primitive < drawn@[bucket].primitives->0@.len(),
    ensures
        covers(chosen@, drawn@),
        match drawn@[bucket].primitives->0@[primitive].material_name {
            Some(name) => forall|text: &str, found: Option<&I>|
                text@ == name@ && #[trigger] call_ensures(
                    MaterialRegistry::<I>::get_by_name,
                    (&atlas, text),
                    found,
                ) ==> (chosen@[bucket]@[primitive] == ActivePipeline::Atlas <==> found is Some),
            None => chosen@[bucket]@[primitive] == ActivePipeline::Pbr,
        },
{
    assert(chosen@[bucket]@ == primitives_in(drawn@[bucket]).map_values(
        |p: PrimitiveInfo| pipeline_for(atlas, p),
    ));
}

#[verifier::spinoff_prover]
proof fn lemma_depths(drawn: Seq<DrawnBucket>, n: nat)
    requires
        n <= drawn.len(),
        is_countable(drawn),
    ensures
        forall|p: int|
            0 <= p < depth_steps(drawn, n).len() ==> #[trigger] is_right_depth(
                depth_steps(drawn, n),
                drawn,
                p,
            ) && draws_only_before(depth_steps(drawn, n)[p], n as int, 0),
        forall|bucket: int, primitive: int|
            0 <= bucket < n && drawn[bucket].primitives is Some && 0 <= primitive
                < drawn[bucket].primitives->0@.len() ==> #[trigger] has_draw(
                depth_steps(drawn, n),
                drawn,
                bucket,
                primitive,
            ),
    decreases n,
{
    if n > 0 {
        let b: int = n - 1;
        lemma_depths(drawn, b as nat);
        let before = depth_steps(drawn, b as nat);
        let after = depth_steps(drawn, n);
        if let Some(primitives) = drawn[b].primitives {
            lemma_mesh_depths(before, drawn, b, primitives@.len());
            assert(after == before + mesh_depths(
                b as usize,
                primitives@,
                drawn[b].instances,
                primitives@.len(),
            ));
            assert forall|p: int| 0 <= p < after.len() implies draws_only_before(
                #[trigger] after[p],
                b,
                primitives@.len() as int,
            ) by {
                assert(is_right_depth(after, drawn, p));
            }
        } else {
            assert(after == before);
            assert forall|p: int| 0 <= p < after.len() implies draws_only_before(
                #[trigger] after[p],
                b,
                0,
            ) by {
                assert(is_right_depth(after, drawn, p));
            }
        }
        assert forall|p: int| 0 <= p < after.len() implies #[trigger] is_right_depth(
            after,
            drawn,
            p,
        ) && draws_only_before(after[p], n as int, 0) by {
            assert(is_right_depth(after, drawn, p));
            if let DrawStep::Draw { bucket, .. } = after[p] {
                assert(bucket <= b);
            }
        }
    }
}

/// The primitive is drawn by some step.
pub open spec fn has_draw(
    steps: Seq<DrawStep>,
    drawn: Seq<DrawnBucket>,
    bucket: int,
    primitive: int,
) -> bool {
    steps.contains(
        DrawStep::Draw {
            bucket: bucket as usize,
            primitive: primitive as usize,
            index_count: drawn[bucket].primitives->0@[primitive].index_count,
            instances: drawn[bucket].instances,
        },
    )
}

/// The step at `p` of drawing depths is right with what stands before it: it
/// binds instances, or draws a primitive that there is and that comes after
/// those that were drawn, when the last instances that were bound are those of
/// its bucket.
pub open spec fn is_right_depth(steps: Seq<DrawStep>, drawn: Seq<DrawnBucket>, p: int) -> bool {
    &&& steps[p] is BindInstances || steps[p] is Draw
    &&& draws_a_primitive(steps[p], drawn)
    &&& steps[p] matches DrawStep::Draw { bucket, .. } ==> exists|m: int| #[trigger]
        last_instances(steps, p, m, bucket)
    &&& forall|q: int| 0 <= q < p ==> draws_before(#[trigger] steps[q], steps[p])
}

proof fn lemma_mesh_depths(
    before: Seq<DrawStep>,
    drawn: Seq<DrawnBucket>,
    bucket: int,
    n: nat,
)
    requires
        0 <= bucket < drawn.len(),
        is_countable(drawn),
        drawn[bucket].primitives is Some,
        n <= drawn[bucket].primitives->0@.len(),
        forall|p: int|
            0 <= p < before.len() ==> #[trigger] is_right_depth(before, drawn, p)
                && draws_only_before(before[p], bucket, 0),
        forall|b: int, primitive: int|
            0 <= b < bucket && drawn[b].primitives is Some && 0 <= primitive
                < drawn[b].primitives->0@.len() ==> #[trigger] has_draw(
                before,
                drawn,
                b,
                primitive,
            ),
    ensures
        ({
            let after = before + mesh_depths(
                bucket as usize,
                drawn[bucket].primitives->0@,
                drawn[bucket].instances,
                n,
            );
            &&& forall|p: int|
                0 <= p < after.len() ==> #[trigger] is_right_depth(after, drawn, p)
                    && draws_only_before(after[p], bucket, n as int)
            &&& last_instances(
                after,
                after.len() as int,
                before.len() as int,
                bucket as usize,
            )
            &&& forall|b: int, primitive: int|
                0 <= b < bucket && drawn[b].primitives is Some && 0 <= primitive
                    < drawn[b].primitives->0@.len() ==> #[trigger] has_draw(
                    after,
                    drawn,
                    b,
                    primitive,
                )
            &&& forall|primitive: int|
                0 <= primitive < n ==> #[trigger] has_draw(after, drawn, bucket, primitive)
        }),
    decreases n,
{
    let primitives = drawn[bucket].primitives->0@;
    let instances = drawn[bucket].instances;
    let b = bucket as usize;
    let at = before.len() as int;
    let after = before + mesh_depths(b, primitives, instances, n);
    assert(primitives.len() <= usize::MAX);
    let less = if n == 0 {
        before
    } else {
        before + mesh_depths(b, primitives, instances, (n - 1) as nat)
    };
    if n > 0 {
        lemma_mesh_depths(before, drawn, bucket, (n - 1) as nat);
    }
    let end = less.len() as int;
    assert(after.len() == end + 1);
    assert(after.take(end) =~= less);
    assert forall|j: int| 0 <= j < end implies less[j] == after[j] by {
        assert(after.take(end)[j] == after[j]);
    }
    assert forall|p: int| 0 <= p < after.len() implies #[trigger] is_right_depth(after, drawn, p)
        && draws_only_before(after[p], bucket, n as int) by {
        if p < end {
            assert(is_right_depth(less, drawn, p));
            if let DrawStep::Draw { bucket: owner, .. } = after[p] {
                let m = choose|m: int| #[trigger] last_instances(less, p, m, owner);
                assert(last_instances(after, p, m, owner));
            }
            assert forall|q: int| 0 <= q < p implies draws_before(#[trigger] after[q], after[p]) by {
                assert(draws_before(less[q], less[p]));
            }
        } else if n > 0 {
            assert(last_instances(after, p, at, b));
            assert forall|q: int| 0 <= q < p implies draws_before(#[trigger] after[q], after[p]) by {
                assert(is_right_depth(less, drawn, q));
            }
        }
    }
    assert forall|o: int, primitive: int|
        0 <= o < bucket && drawn[o].primitives is Some && 0 <= primitive
            < drawn[o].primitives->0@.len() implies #[trigger] has_draw(
        after,
        drawn,
        o,
        primitive,
    ) by {
        assert(has_draw(less, drawn, o, primitive));
        lemma_contains_more(less, after, drawn, o, primitive);
    }
    assert forall|primitive: int| 0 <= primitive < n implies #[trigger] has_draw(
        after,
        drawn,
        bucket,
        primitive,
    ) by {
        if primitive < n - 1 {
            assert(has_draw(less, drawn, bucket, primitive));
            lemma_contains_more(less, after, drawn, bucket, primitive);
        } else {
            assert(after[end] == after.last());
        }
    }
}

proof fn lemma_contains_more(
    less: Seq<DrawStep>,
    after: Seq<DrawStep>,
    drawn: Seq<DrawnBucket>,
    bucket: int,
    primitive: int,
)
    requires
        less.len() <= after.len(),
        after.take(less.len() as int) == less,
        has_draw(less, drawn, bucket, primitive),
    ensures
        has_draw(after, drawn, bucket, primitive),
{
    let step = DrawStep::Draw {
        bucket: bucket as usize,
        primitive: primitive as usize,
        index_count: drawn[bucket].primitives->0@[primitive].index_count,
        instances: drawn[bucket].instances,
    };
    let j = choose|j: int| 0 <= j < less.len() && less[j] == step;
    assert(after.take(less.len() as int)[j] == after[j]);
}

/// Drawing depths draws every primitive of every bucket with a template, once
/// and in the order of buckets and primitives, when the last instances that were
/// bound are those of its bucket; it neither sets pipelines nor binds materials.
pub proof fn law_depths_are_drawn_of_everything(drawn: Vec<DrawnBucket>, steps: Vec<DrawStep>)
    requires
        call_ensures(MeshDraw::depths, (&drawn,), steps),
    ensures
        forall|p: int| 0 <= p < steps@.len() ==> #[trigger] is_right_depth(steps@, drawn@, p),
        forall|bucket: int, primitive: int|
            0 <= bucket < drawn@.len() && drawn@[bucket].primitives is Some && 0 <= primitive
                < drawn@[bucket].primitives->0@.len() ==> #[trigger] has_draw(
                steps@,
                drawn@,
                bucket,
                primitive,
            ),
{
    lemma_countable(drawn);
    lemma_depths(drawn@, drawn@.len());
}

/// Whatever is drawn of the buckets of a frame is a primitive of the template of
/// a filled bucket, once for each instance in the bucket, and drawn with the
/// bucket's instances bound.
pub proof fn law_buckets_are_drawn_through_their_templates<K, J, B, T, I, F>(
    atlas: MaterialRegistry<I>,
    templates: HashMap<K, T>,
    buckets: InstanceBuckets<K, J, B>,
    primitives_of: F,
    steps: Vec<DrawStep>,
    p: int,
) where
    K: Copy + Eq + Hash,
    J: Copy,
    F: Fn(&T) -> Vec<PrimitiveInfo>,

    requires
        call_ensures(
            MeshDraw::pbr_with_atlas::<K, J, B, T, I, F>,
            (&atlas, &templates, &buckets, primitives_of),
            steps,
        ),
        filled(buckets.buckets()).len() <= usize::MAX,
        0 <= p < steps@.len(),
    ensures
        steps@[p] matches DrawStep::Draw { bucket, primitive, index_count, instances } ==> {
            let all = filled(buckets.buckets());
            &&& bucket < all.len()
            &&& instances == all[bucket as int].scratch@.len()
            &&& exists|m: int| #[trigger] last_instances(steps@, p, m, bucket)
            &&& templates@.contains_key(all[bucket as int].key)
            &&& exists|primitives: Vec<PrimitiveInfo>| #[trigger]
                call_ensures(primitives_of, (&templates@[all[bucket as int].key],), primitives)
                    && primitive < primitives@.len() && index_count
                    == primitives@[primitive as int].index_count
        },
{
    let all = filled(buckets.buckets());
    let (drawn, chosen) = choose|drawn: Seq<DrawnBucket>, chosen: Seq<Vec<ActivePipeline>>|
        {
            &&& #[trigger] can_be_drawn(all, templates@, primitives_of, drawn)
            &&& #[trigger] is_chosen(atlas, drawn, chosen)
            &&& steps@ == frame_steps(chosen, drawn, drawn.len()).0
        };
    lemma_meshes_countable(drawn);
    lemma_right_frame(chosen, drawn, drawn.len());
    assert(is_right_step(steps@, chosen, drawn, p));
    if let DrawStep::Draw { bucket, primitive, index_count, instances } = steps@[p] {
        let b = bucket as int;
        assert(drawn[b].primitives is Some);
        let primitives = drawn[b].primitives->0;
        assert(call_ensures(primitives_of, (&templates@[all[b].key],), primitives));
    }
}

} // verus!
