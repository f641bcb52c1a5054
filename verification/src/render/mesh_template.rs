//! What to draw for a kind: the render block of its definition, and the
//! template that is made from it.

use super::float_bits::Bits3;
use super::handle::Handle;
use super::line_geometry::{HALF, MINUS_HALF, ONE};
use super::mesh::Aabb;
use super::node_kind;
use super::render_object::{
    can_add, slot_in, Mat4Bits, MeshPart, NodeId, NodeKind, RenderTemplate, TemplateNode,
};
use crate::data::path::{normalise, VfsPath, VfsPathError};
use std::collections::HashMap;
use std::hash::Hash;
use vstd::prelude::*;
use vstd::std_specs::hash::obeys_key_model;

verus! {

broadcast use vstd::std_specs::hash::group_hash_axioms;

/// The matrix that changes nothing.
pub const IDENTITY: [u32; 16] = [
    0x3f80_0000,
    0,
    0,
    0,
    0,
    0x3f80_0000,
    0,
    0,
    0,
    0,
    0x3f80_0000,
    0,
    0,
    0,
    0,
    0x3f80_0000,
];

/// Where a mesh that is to be drawn came from.
#[derive(Debug, Clone, Copy, PartialEq, Eq, Structural)]
pub enum MeshSource {
    Real,
    Loading,
    Failed,
    ForcedFallback,
}

/// A mesh that is to be drawn: its primitives, and what fits them to the place
/// of the real mesh.
pub struct ResolvedMesh<'a, P> {
    pub primitives: &'a Vec<P>,
    pub source: MeshSource,
    pub fallback_adjustment: Mat4Bits,
}

/// Where a template has its mesh from.
#[verifier::reject_recursive_types(G)]
pub enum MeshBacking<G, P> {
    /// It is loaded, and stood in for until it is there.
    Streamed { handle: Handle<G> },
    /// It is here.
    Inline { primitives: Vec<P> },
}

/// What one part of an object is drawn with.
#[verifier::reject_recursive_types(G)]
pub struct MeshTemplate<G, P, M> {
    pub mesh: MeshBacking<G, P>,
    pub visual_bounds: Aabb,
    pub material: M,
}

impl<G, P, M> MeshTemplate<G, P, M> {
    /// The mesh to draw. `streamed` gives that of a handle, stood in for
    /// within the bounds; one that is here is drawn as it is.
    pub fn resolve<'a, F: Fn(&'a Handle<G>, Aabb) -> ResolvedMesh<'a, P>>(
        &'a self,
        streamed: F,
    ) -> (r: ResolvedMesh<'a, P>)
        requires
            forall|handle: &'a Handle<G>, bounds: Aabb| #[trigger]
                call_requires(streamed, (handle, bounds)),
        ensures
            match self.mesh {
                MeshBacking::Streamed { handle } => call_ensures(
                    streamed,
                    (&handle, self.visual_bounds),
                    r,
                ),
                MeshBacking::Inline { primitives } => {
                    &&& *r.primitives == primitives
                    &&& r.source == MeshSource::Real
                    &&& r.fallback_adjustment == IDENTITY
                },
            },
    {
        match &self.mesh {
            MeshBacking::Streamed { handle } => streamed(handle, self.visual_bounds),
            MeshBacking::Inline { primitives } => ResolvedMesh {
                primitives,
                source: MeshSource::Real,
                fallback_adjustment: IDENTITY,
            },
        }
    }
}

/// A transform by its parts. Numbers are bit patterns.
#[derive(Debug, Clone, Copy, PartialEq, Eq)]
pub struct TransformSpec {
    pub translation: Bits3,
    /// A quaternion, the real part last.
    pub rotation: [u32; 4],
    pub scale: Bits3,
}

impl Default for TransformSpec {
    /// The transform that changes nothing.
    fn default() -> (r: Self)
        ensures
            r.translation@ == seq![0u32, 0, 0],
            r.rotation@ == seq![0u32, 0, 0, ONE],
            r.scale@ == seq![ONE, ONE, ONE],
    {
        let r = TransformSpec {
            translation: [0, 0, 0],
            rotation: [0, 0, 0, ONE],
            scale: [ONE, ONE, ONE],
        };
        assert(r.translation@ =~= seq![0u32, 0, 0]);
        assert(r.rotation@ =~= seq![0u32, 0, 0, ONE]);
        assert(r.scale@ =~= seq![ONE, ONE, ONE]);
        r
    }
}

/// The roughness of a mesh node that gives none: 0.85 as a bit pattern.
pub const DEFAULT_ROUGHNESS: u32 = 0x3f59_999a;

/// The mesh of a node, and how it is drawn.
#[derive(Debug)]
pub struct MeshNodeSpec {
    pub mesh: String,
    /// The colours; without them the caller's are taken.
    pub albedo: Option<String>,
    pub metallic: u32,
    pub roughness: u32,
}

/// A node of a render block.
#[derive(Debug)]
pub struct NodeSpec {
    pub id: u16,
    pub name: String,
    /// The parent, or none for a root. Parents come first.
    pub parent: Option<u16>,
    pub transform: TransformSpec,
    /// One of the tags of `node_kind`.
    pub kind: String,
    /// The mesh of a node that is tagged as one.
    pub mesh: Option<MeshNodeSpec>,
}

/// The render block of a kind.
#[derive(Debug)]
pub struct RenderSpec {
    pub shape: String,
    pub mesh: String,
    pub albedo: String,
    pub metallic: u32,
    pub roughness: u32,
    pub bounds_min: Bits3,
    pub bounds_max: Bits3,
    pub nodes: Vec<NodeSpec>,
}

/// A mesh that is to be loaded, and how it is drawn.
#[derive(Debug)]
pub struct MeshLoad {
    pub mesh: VfsPath,
    pub albedo: VfsPath,
    pub metallic: u32,
    pub roughness: u32,
}

/// Which path of a render block is none.
#[derive(Debug, Clone, Copy, PartialEq, Eq, Structural)]
#[allow(inconsistent_fields)]
pub enum SpecPathError {
    Mesh(VfsPathError),
    Albedo(VfsPathError),
}

/// Ids are distinct, and each parent comes before its children.
pub open spec fn in_order(nodes: Seq<NodeSpec>) -> bool {
    &&& forall|i: int, j: int|
        0 <= i < j < nodes.len() ==> (#[trigger] nodes[i]).id != (#[trigger] nodes[j]).id
    &&& forall|i: int|
        0 <= i < nodes.len() ==> ((#[trigger] nodes[i]).parent matches Some(p) ==> has_id(
            nodes,
            i,
            p,
        ))
}

/// One of the first `n` nodes has the id.
pub open spec fn has_id(nodes: Seq<NodeSpec>, n: int, id: u16) -> bool {
    exists|j: int| 0 <= j < n && (#[trigger] nodes[j]).id == id
}

fn find_id(nodes: &Vec<NodeSpec>, n: usize, id: u16) -> (r: bool)
    requires
        n <= nodes@.len(),
    ensures
        r == has_id(nodes@, n as int, id),
{
    let mut j: usize = 0;
    while j < n
        invariant
            j <= n <= nodes@.len(),
            forall|k: int| 0 <= k < j ==> (#[trigger] nodes@[k]).id != id,
        decreases n - j,
    {
        if nodes[j].id == id {
            return true;
        }
        j += 1;
    }
    false
}

impl RenderSpec {
    /// The box in which the kind is drawn.
    pub fn visual_bounds(&self) -> (r: Aabb)
        ensures
            r == (Aabb { min: self.bounds_min, max: self.bounds_max }),
    {
        Aabb { min: self.bounds_min, max: self.bounds_max }
    }

    /// Whether ids are distinct and each parent comes before its children.
    pub fn nodes_in_order(&self) -> (r: bool)
        ensures
            r == in_order(self.nodes@),
    {
        let mut i: usize = 0;
        while i < self.nodes.len()
            invariant
                i <= self.nodes@.len(),
                forall|a: int, b: int|
                    0 <= a < b < i ==> (#[trigger] self.nodes@[a]).id != (
                    #[trigger] self.nodes@[b]).id,
                forall|a: int|
                    0 <= a < i ==> ((#[trigger] self.nodes@[a]).parent matches Some(p) ==> has_id(
                        self.nodes@,
                        a,
                        p,
                    )),
            decreases self.nodes@.len() - i,
        {
            if find_id(&self.nodes, i, self.nodes[i].id) {
                return false;
            }
            match self.nodes[i].parent {
                Some(p) => {
                    if !find_id(&self.nodes, i, p) {
                        return false;
                    }
                },
                None => {},
            }
            i += 1;
        }
        true
    }

    /// What to load for a kind without nodes.
    pub fn body(&self) -> (r: Result<MeshLoad, SpecPathError>)
        ensures
            match r {
                Ok(load) => {
                    &&& normalise(self.mesh@) == Ok::<Seq<char>, VfsPathError>(load.mesh@)
                    &&& normalise(self.albedo@) == Ok::<Seq<char>, VfsPathError>(load.albedo@)
                    &&& load.metallic == self.metallic
                    &&& load.roughness == self.roughness
                },
                Err(SpecPathError::Mesh(e)) => normalise(self.mesh@) == Err::<
                    Seq<char>,
                    VfsPathError,
                >(e),
                Err(SpecPathError::Albedo(e)) => {
                    &&& normalise(self.mesh@) is Ok
                    &&& normalise(self.albedo@) == Err::<Seq<char>, VfsPathError>(e)
                },
            },
    {
        let mesh = match VfsPath::new(self.mesh.as_str()) {
            Ok(path) => path,
            Err(e) => {
                return Err(SpecPathError::Mesh(e));
            },
        };
        let albedo = match VfsPath::new(self.albedo.as_str()) {
            Ok(path) => path,
            Err(e) => {
                return Err(SpecPathError::Albedo(e));
            },
        };
        Ok(MeshLoad { mesh, albedo, metallic: self.metallic, roughness: self.roughness })
    }
}

/// Why a node is drawn as an empty one though it does not ask for it.
#[derive(Debug, Clone, Copy, PartialEq, Eq, Structural)]
pub enum NodeFault {
    /// Its tag is none of those there are.
    UnknownKind,
    /// It is tagged as a mesh and has none.
    MissingMesh,
    /// The path of its mesh is none.
    BadMeshPath(VfsPathError),
}

/// The mesh of a node, nothing for an empty one, or what is wrong with it.
pub open spec fn mesh_of(node: NodeSpec) -> Result<Option<Seq<char>>, NodeFault> {
    if node.kind@ == node_kind::EMPTY@ {
        Ok(None)
    } else if node.kind@ != node_kind::MESH@ {
        Err(NodeFault::UnknownKind)
    } else {
        match node.mesh {
            None => Err(NodeFault::MissingMesh),
            Some(mesh) => match normalise(mesh.mesh@) {
                Ok(path) => Ok(Some(path)),
                Err(e) => Err(NodeFault::BadMeshPath(e)),
            },
        }
    }
}

/// The mesh of a node that is drawn.
pub open spec fn drawn_mesh(node: NodeSpec) -> Option<Seq<char>> {
    match mesh_of(node) {
        Ok(mesh) => mesh,
        Err(_) => None,
    }
}

/// The colours that a mesh node is drawn with: its own if it has a path to
/// them, otherwise the fallback.
pub open spec fn albedo_of(node: NodeSpec, fallback: Seq<char>) -> Seq<char> {
    match node.mesh {
        Some(mesh) => match mesh.albedo {
            Some(albedo) => match normalise(albedo@) {
                Ok(path) => path,
                Err(_) => fallback,
            },
            None => fallback,
        },
        None => fallback,
    }
}

/// Why the node's own colours cannot be had, if it names any by a path that is
/// none.
pub open spec fn albedo_fault_of(node: NodeSpec) -> Option<VfsPathError> {
    match node.mesh {
        Some(mesh) => match mesh.albedo {
            Some(albedo) => match normalise(albedo@) {
                Ok(_) => None,
                Err(e) => Some(e),
            },
            None => None,
        },
        None => None,
    }
}

impl NodeSpec {
    /// Why the node is drawn with the fallback's colours although it names its
    /// own, if it is.
    pub fn albedo_fault(&self) -> (r: Option<VfsPathError>)
        ensures
            r == albedo_fault_of(*self),
    {
        match &self.mesh {
            Some(mesh) => match &mesh.albedo {
                Some(albedo) => match VfsPath::new(albedo.as_str()) {
                    Ok(_) => None,
                    Err(e) => Some(e),
                },
                None => None,
            },
            None => None,
        }
    }

    /// The mesh of the node, nothing for an empty one, or what is wrong with
    /// it.
    pub fn mesh_path(&self) -> (r: Result<Option<VfsPath>, NodeFault>)
        ensures
            match r {
                Ok(None) => mesh_of(*self) == Ok::<Option<Seq<char>>, NodeFault>(None),
                Ok(Some(path)) => mesh_of(*self) == Ok::<Option<Seq<char>>, NodeFault>(
                    Some(path@),
                ),
                Err(fault) => mesh_of(*self) == Err::<Option<Seq<char>>, NodeFault>(fault),
            },
    {
        if self.kind == node_kind::EMPTY.to_owned() {
            return Ok(None);
        }
        if self.kind != node_kind::MESH.to_owned() {
            return Err(NodeFault::UnknownKind);
        }
        match &self.mesh {
            None => Err(NodeFault::MissingMesh),
            Some(mesh) => match VfsPath::new(mesh.mesh.as_str()) {
                Ok(path) => Ok(Some(path)),
                Err(e) => Err(NodeFault::BadMeshPath(e)),
            },
        }
    }

    /// The colours that the node is drawn with: its own if it has a path to
    /// them, otherwise the fallback.
    pub fn albedo_path(&self, fallback: &VfsPath) -> (r: VfsPath)
        ensures
            r@ == albedo_of(*self, fallback@),
    {
        match &self.mesh {
            Some(mesh) => match &mesh.albedo {
                Some(albedo) => match VfsPath::new(albedo.as_str()) {
                    Ok(path) => path,
                    Err(_) => fallback.clone(),
                },
                None => fallback.clone(),
            },
            None => fallback.clone(),
        }
    }
}

/// The load is that of the node's mesh.
pub open spec fn is_load(node: NodeSpec, fallback: Seq<char>, load: MeshLoad) -> bool {
    &&& node.mesh matches Some(mesh) && {
        &&& normalise(mesh.mesh@) == Ok::<Seq<char>, VfsPathError>(load.mesh@)
        &&& load.albedo@ == albedo_of(node, fallback)
        &&& load.metallic == mesh.metallic
        &&& load.roughness == mesh.roughness
    }
}

/// The node of the template is that of the block; a mesh is drawn as what the
/// caller has it keyed by.
pub open spec fn is_node<K, G, X>(
    spec: NodeSpec,
    glb_key: G,
    to_mat4: X,
    node: TemplateNode<K, K>,
) -> bool where G: Fn(VfsPath) -> K, X: Fn(&TransformSpec) -> Mat4Bits {
    &&& node.id.0 == spec.id
    &&& node.name@ == spec.name@
    &&& match spec.parent {
        Some(p) => node.parent == Some(NodeId(p)),
        None => node.parent is None,
    }
    &&& call_ensures(to_mat4, (&spec.transform,), node.local_transform)
    &&& match (drawn_mesh(spec), node.kind) {
        (Some(path), NodeKind::Mesh(part)) => {
            &&& part.mesh == part.material
            &&& exists|p: VfsPath| p@ == path && #[trigger] call_ensures(glb_key, (p,), part.mesh)
        },
        (None, NodeKind::Empty) => true,
        _ => false,
    }
}

/// What is known of meshes after a node: a mesh that was not is loaded for it.
pub open spec fn is_known<K, T, F: Fn(&MeshLoad) -> T>(
    spec: NodeSpec,
    fallback: Seq<char>,
    load: F,
    node: TemplateNode<K, K>,
    before: Map<K, T>,
    after: Map<K, T>,
) -> bool {
    match node.kind {
        NodeKind::Mesh(part) => if before.contains_key(part.mesh) {
            after == before
        } else {
            exists|what: MeshLoad, loaded: T|
                {
                    &&& is_load(spec, fallback, what)
                    &&& #[trigger] call_ensures(load, (&what,), loaded)
                    &&& after == before.insert(part.mesh, loaded)
                }
        },
        _ => after == before,
    }
}

/// What is known of meshes goes through the states of `trace`, one node at a
/// time.
pub open spec fn is_loading<K, T, F: Fn(&MeshLoad) -> T>(
    specs: Seq<NodeSpec>,
    fallback: Seq<char>,
    load: F,
    nodes: Seq<TemplateNode<K, K>>,
    trace: Seq<Map<K, T>>,
) -> bool {
    &&& trace.len() == nodes.len() + 1
    &&& forall|i: int|
        #![trigger nodes[i]]
        0 <= i < nodes.len() ==> is_known(
            specs[i],
            fallback,
            load,
            nodes[i],
            trace[i],
            trace[i + 1],
        )
}

proof fn lemma_slots<M, MK, E, S>(nodes: Seq<TemplateNode<M, MK, E, S>>, id: NodeId)
    ensures
        slot_in(nodes, id) is Some <==> exists|i: int|
            0 <= i < nodes.len() && (#[trigger] nodes[i]).id == id,
    decreases nodes.len(),
{
    if nodes.len() > 0 {
        let rest = nodes.drop_last();
        lemma_slots(rest, id);
        if nodes.last().id == id {
            assert(nodes[nodes.len() - 1].id == id);
        } else {
            if slot_in(rest, id) is Some {
                let i = choose|i: int| 0 <= i < rest.len() && (#[trigger] rest[i]).id == id;
                assert(nodes[i].id == id);
            }
            if exists|i: int| 0 <= i < nodes.len() && (#[trigger] nodes[i]).id == id {
                let i = choose|i: int| 0 <= i < nodes.len() && (#[trigger] nodes[i]).id == id;
                assert(rest[i].id == id);
            }
        }
    }
}

/// The template of a render block with nodes. `glb_key` says what the caller
/// has a mesh keyed by; a mesh that is not among the caller's is loaded.
pub fn build_hierarchical_render_template<K, T, G, X, F>(
    label: &str,
    spec: &RenderSpec,
    glb_key: G,
    to_mat4: X,
    load: F,
    fallback_albedo: &VfsPath,
    mesh_templates: &mut HashMap<K, T>,
) -> (r: RenderTemplate<K, K>) where
    K: Clone + Eq + Hash,
    G: Fn(VfsPath) -> K,
    X: Fn(&TransformSpec) -> Mat4Bits,
    F: Fn(&MeshLoad) -> T,

    requires
        in_order(spec.nodes@),
        obeys_key_model::<K>(),
        forall|a: K, b: K| #[trigger] cloned(a, b) ==> a == b,
        forall|p: VfsPath| #[trigger] call_requires(glb_key, (p,)),
        forall|t: &TransformSpec| #[trigger] call_requires(to_mat4, (t,)),
        forall|what: &MeshLoad| #[trigger] call_requires(load, (what,)),
    ensures
        r.spec_label() == label@,
        r.spec_bounds() == Some(Aabb { min: spec.bounds_min, max: spec.bounds_max }),
        r.spec_nodes().len() == spec.nodes@.len(),
        forall|i: int|
            0 <= i < spec.nodes@.len() ==> is_node(
                #[trigger] spec.nodes@[i],
                glb_key,
                to_mat4,
                r.spec_nodes()[i],
            ),
        exists|trace: Seq<Map<K, T>>|
            {
                &&& #[trigger] is_loading(
                    spec.nodes@,
                    fallback_albedo@,
                    load,
                    r.spec_nodes(),
                    trace,
                )
                &&& trace[0] == old(mesh_templates)@
                &&& trace.last() == final(mesh_templates)@
            },
{
    let mut template: RenderTemplate<K, K> = RenderTemplate::new(label).with_visual_bounds(
        spec.visual_bounds(),
    );
    let ghost mut trace: Seq<Map<K, T>> = seq![mesh_templates@];
    let mut i: usize = 0;
    while i < spec.nodes.len()
        invariant
            in_order(spec.nodes@),
            obeys_key_model::<K>(),
            forall|a: K, b: K| #[trigger] cloned(a, b) ==> a == b,
            forall|p: VfsPath| #[trigger] call_requires(glb_key, (p,)),
            forall|t: &TransformSpec| #[trigger] call_requires(to_mat4, (t,)),
            forall|what: &MeshLoad| #[trigger] call_requires(load, (what,)),
            i <= spec.nodes@.len(),
            template.spec_label() == label@,
            template.spec_bounds() == Some(Aabb { min: spec.bounds_min, max: spec.bounds_max }),
            template.spec_nodes().len() == i,
            forall|j: int|
                0 <= j < i ==> is_node(
                    #[trigger] spec.nodes@[j],
                    glb_key,
                    to_mat4,
                    template.spec_nodes()[j],
                ),
            is_loading(
                spec.nodes@,
                fallback_albedo@,
                load,
                template.spec_nodes(),
                trace,
            ),
            trace[0] == old(mesh_templates)@,
            trace.last() == mesh_templates@,
        decreases spec.nodes@.len() - i,
    {
        let node_spec = &spec.nodes[i];
        let ghost before = mesh_templates@;
        let kind: NodeKind<K, K> = match node_spec.mesh_path() {
            Ok(Some(path)) => {
                let key = glb_key(path.clone());
                if !mesh_templates.contains_key(&key) {
                    let albedo = node_spec.albedo_path(fallback_albedo);
                    match &node_spec.mesh {
                        Some(mesh) => {
                            let what = MeshLoad {
                                mesh: path,
                                albedo,
                                metallic: mesh.metallic,
                                roughness: mesh.roughness,
                            };
                            assert(is_load(*node_spec, fallback_albedo@, what));
                            let loaded = load(&what);
                            let kept = key.clone();
                            assert(cloned(key, kept));
                            mesh_templates.insert(kept, loaded);
                        },
                        None => {},
                    }
                }
                let mesh = key.clone();
                assert(cloned(key, mesh));
                NodeKind::Mesh(MeshPart::new(mesh, key))
            },
            _ => NodeKind::Empty,
        };
        let parent = match node_spec.parent {
            Some(p) => Some(NodeId(p)),
            None => None,
        };
        let node = TemplateNode {
            id: NodeId(node_spec.id),
            name: node_spec.name.clone(),
            parent,
            local_transform: to_mat4(&node_spec.transform),
            kind,
        };
        let ghost earlier = template.spec_nodes();
        proof {
            let specs = spec.nodes@;
            lemma_slots(earlier, node.id);
            assert forall|j: int| 0 <= j < earlier.len() implies (#[trigger] earlier[j]).id
                != node.id by {
                assert(is_node(specs[j], glb_key, to_mat4, earlier[j]));
                assert(specs[j].id != specs[i as int].id);
            }
            match node.parent {
                Some(p) => {
                    lemma_slots(earlier, p);
                    assert(has_id(specs, i as int, p.0));
                    let j = choose|j: int| 0 <= j < i && (#[trigger] specs[j]).id == p.0;
                    assert(is_node(specs[j], glb_key, to_mat4, earlier[j]));
                    assert(earlier[j].id == p);
                },
                None => {},
            }
            assert(can_add(earlier, node.id, node.parent));
            let more = trace.push(mesh_templates@);
            let nodes = earlier.push(node);
            assert forall|j: int|
                #![trigger nodes[j]]
                0 <= j < nodes.len() implies is_known(
                specs[j],
                fallback_albedo@,
                load,
                nodes[j],
                more[j],
                more[j + 1],
            ) by {
                if j < i {
                    assert(earlier[j] == nodes[j]);
                }
            }
            trace = more;
        }
        template = template.with_node(node);
        i += 1;
    }
    assert(is_loading(spec.nodes@, fallback_albedo@, load, template.spec_nodes(), trace));
    template
}

/// The box in which a mesh is stood in for while it is loaded.
pub fn fallback_bounds() -> (r: Aabb)
    ensures
        r.min@ == seq![MINUS_HALF, MINUS_HALF, MINUS_HALF],
        r.max@ == seq![HALF, HALF, HALF],
{
    let r = Aabb { min: [MINUS_HALF, MINUS_HALF, MINUS_HALF], max: [HALF, HALF, HALF] };
    assert(r.min@ =~= seq![MINUS_HALF, MINUS_HALF, MINUS_HALF]);
    assert(r.max@ =~= seq![HALF, HALF, HALF]);
    r
}

/// A mesh that is known stays as it is, whatever nodes follow: nodes with the
/// same mesh share it.
pub proof fn law_known_meshes_are_kept<K, T, F: Fn(&MeshLoad) -> T>(
    specs: Seq<NodeSpec>,
    fallback: Seq<char>,
    load: F,
    nodes: Seq<TemplateNode<K, K>>,
    trace: Seq<Map<K, T>>,
    i: int,
    j: int,
    key: K,
)
    requires
        is_loading(specs, fallback, load, nodes, trace),
        0 <= i <= j <= nodes.len(),
        trace[i].contains_key(key),
    ensures
        trace[j].contains_key(key),
        trace[j][key] == trace[i][key],
    decreases j - i,
{
    if i < j {
        assert(is_known(specs[i], fallback, load, nodes[i], trace[i], trace[i + 1]));
        law_known_meshes_are_kept(specs, fallback, load, nodes, trace, i + 1, j, key);
    }
}

/// The mesh of every node that draws one is known in the end.
pub proof fn law_drawn_meshes_are_known<K, T, F: Fn(&MeshLoad) -> T>(
    specs: Seq<NodeSpec>,
    fallback: Seq<char>,
    load: F,
    nodes: Seq<TemplateNode<K, K>>,
    trace: Seq<Map<K, T>>,
    i: int,
)
    requires
        is_loading(specs, fallback, load, nodes, trace),
        0 <= i < nodes.len(),
    ensures
        nodes[i].kind matches NodeKind::Mesh(part) ==> trace.last().contains_key(part.mesh),
{
    assert(is_known(specs[i], fallback, load, nodes[i], trace[i], trace[i + 1]));
    match nodes[i].kind {
        NodeKind::Mesh(part) => {
            assert(trace[i + 1].contains_key(part.mesh));
            law_known_meshes_are_kept(
                specs,
                fallback,
                load,
                nodes,
                trace,
                i + 1,
                nodes.len() as int,
                part.mesh,
            );
        },
        _ => {},
    }
}

/// What is loaded for a node is what the node names: its mesh, its own colours if
/// it has a path to them and otherwise the fallback, and its own factors.
pub proof fn law_nodes_load_what_they_name(node: NodeSpec, fallback: Seq<char>, load: MeshLoad)
    requires
        is_load(node, fallback, load),
    ensures
        node.mesh is Some,
        normalise(node.mesh->0.mesh@) == Ok::<Seq<char>, VfsPathError>(load.mesh@),
        load.metallic == node.mesh->0.metallic,
        load.roughness == node.mesh->0.roughness,
        node.mesh->0.albedo is None ==> load.albedo@ == fallback,
        node.mesh->0.albedo matches Some(albedo) ==> match normalise(albedo@) {
            Ok(path) => load.albedo@ == path,
            Err(_) => load.albedo@ == fallback,
        },
{
}

/// A node of a template is the node of the block that it was made from: under the
/// same id, name and parent, at the place that its transform stands for, and a
/// mesh if and only if it is tagged as one and names one by a path.
pub proof fn law_templates_follow_their_blocks<K, G, X>(
    spec: NodeSpec,
    glb_key: G,
    to_mat4: X,
    node: TemplateNode<K, K>,
) where G: Fn(VfsPath) -> K, X: Fn(&TransformSpec) -> Mat4Bits
    requires
        is_node(spec, glb_key, to_mat4, node),
    ensures
        node.id == NodeId(spec.id),
        node.name@ == spec.name@,
        node.parent == (match spec.parent {
            Some(p) => Some(NodeId(p)),
            None => None,
        }),
        call_ensures(to_mat4, (&spec.transform,), node.local_transform),
        node.kind is Emitter ==> false,
        node.kind is Mesh <==> spec.kind@ == node_kind::MESH@ && spec.kind@ != node_kind::EMPTY@
            && spec.mesh is Some && normalise(spec.mesh->0.mesh@) is Ok,
        node.kind matches NodeKind::Mesh(part) ==> exists|p: VfsPath|
            normalise(spec.mesh->0.mesh@) == Ok::<Seq<char>, VfsPathError>(p@) && #[trigger]
                call_ensures(glb_key, (p,), part.mesh),
{
}

/// Between two nodes, what is known changes only where a node draws a mesh that
/// was not known: that one is loaded as the node names it, and kept under the
/// key that the node is drawn with.
pub proof fn law_unknown_meshes_are_loaded<K, T, F: Fn(&MeshLoad) -> T>(
    specs: Seq<NodeSpec>,
    fallback: Seq<char>,
    load: F,
    nodes: Seq<TemplateNode<K, K>>,
    trace: Seq<Map<K, T>>,
    i: int,
    key: K,
)
    requires
        is_loading(specs, fallback, load, nodes, trace),
        0 <= i < nodes.len(),
    ensures
        ({
            let drawn = nodes[i].kind matches NodeKind::Mesh(part) && part.mesh == key;
            let new = drawn && !trace[i].contains_key(key);
            &&& !new ==> trace[i + 1].contains_key(key) == trace[i].contains_key(key) && (
            trace[i].contains_key(key) ==> trace[i + 1][key] == trace[i][key])
            &&& new ==> trace[i + 1].contains_key(key) && exists|what: MeshLoad| #[trigger]
                call_ensures(load, (&what,), trace[i + 1][key]) && (specs[i].mesh matches Some(
                    mesh,
                ) && normalise(mesh.mesh@) == Ok::<Seq<char>, VfsPathError>(what.mesh@)
                    && what.metallic == mesh.metallic && what.roughness == mesh.roughness)
        }),
{
    let before = trace[i];
    let after = trace[i + 1];
    assert(is_known(specs[i], fallback, load, nodes[i], before, after));
    if let NodeKind::Mesh(part) = nodes[i].kind {
        if !before.contains_key(part.mesh) {
            let (what, loaded) = choose|what: MeshLoad, loaded: T|
                {
                    &&& is_load(specs[i], fallback, what)
                    &&& #[trigger] call_ensures(load, (&what,), loaded)
                    &&& after == before.insert(part.mesh, loaded)
                };
            if part.mesh == key {
                assert(after[key] == loaded);
                assert(call_ensures(load, (&what,), after[key]));
            }
        }
    }
}

/// What is asked of a node: its mesh if it is tagged `mesh` and names one by a
/// path, nothing if it is tagged `empty`, and for every other what is wrong.
pub proof fn law_nodes_are_what_their_tag_says(
    node: NodeSpec,
    r: Result<Option<VfsPath>, NodeFault>,
)
    requires
        call_ensures(NodeSpec::mesh_path, (&node,), r),
    ensures
        r == Ok::<Option<VfsPath>, NodeFault>(None) <==> node.kind@ == "empty"@,
        r matches Ok(Some(path)) ==> node.kind@ == "mesh"@ && node.mesh is Some && normalise(
            node.mesh->0.mesh@,
        ) == Ok::<Seq<char>, VfsPathError>(path@),
        r == Err::<Option<VfsPath>, NodeFault>(NodeFault::UnknownKind) <==> node.kind@ != "empty"@
            && node.kind@ != "mesh"@,
        r == Err::<Option<VfsPath>, NodeFault>(NodeFault::MissingMesh) <==> node.kind@ == "mesh"@
            && node.mesh is None,
        r matches Err(NodeFault::BadMeshPath(e)) ==> node.kind@ == "mesh"@ && node.mesh is Some
            && normalise(node.mesh->0.mesh@) == Err::<Seq<char>, VfsPathError>(e),
{
    reveal_strlit("empty");
    reveal_strlit("mesh");
    assert("empty"@.len() == 5);
    assert("mesh"@.len() == 4);
}

/// The nodes of a block are in order if no two have the same id and every
/// parent that is named is that of an earlier node.
pub proof fn law_blocks_in_order_are_told(spec: RenderSpec, r: bool)
    requires
        call_ensures(RenderSpec::nodes_in_order, (&spec,), r),
    ensures
        r <==> {
            &&& forall|i: int, j: int|
                0 <= i < spec.nodes@.len() && 0 <= j < spec.nodes@.len() && i != j ==> (
                #[trigger] spec.nodes@[i]).id != (#[trigger] spec.nodes@[j]).id
            &&& forall|i: int|
                0 <= i < spec.nodes@.len() && (#[trigger] spec.nodes@[i]).parent is Some
                    ==> exists|j: int|
                    0 <= j < i && (#[trigger] spec.nodes@[j]).id == spec.nodes@[i].parent->0
        },
{
    let nodes = spec.nodes@;
    if r {
        assert forall|i: int, j: int|
            0 <= i < nodes.len() && 0 <= j < nodes.len() && i != j implies (#[trigger] nodes[i]).id
            != (#[trigger] nodes[j]).id by {
            if i < j {
                assert(nodes[i].id != nodes[j].id);
            } else {
                assert(nodes[j].id != nodes[i].id);
            }
        }
        assert forall|i: int|
            0 <= i < nodes.len() && (#[trigger] nodes[i]).parent is Some implies exists|j: int|
            0 <= j < i && (#[trigger] nodes[j]).id == nodes[i].parent->0 by {
            assert(has_id(nodes, i, nodes[i].parent->0));
        }
    } else {
        if forall|i: int, j: int|
            0 <= i < nodes.len() && 0 <= j < nodes.len() && i != j ==> (#[trigger] nodes[i]).id != (
            #[trigger] nodes[j]).id {
            let i = choose|i: int|
                0 <= i < nodes.len() && (#[trigger] nodes[i]).parent is Some && !has_id(
                    nodes,
                    i,
                    nodes[i].parent->0,
                );
            assert(nodes[i].parent is Some);
        }
    }
}

} // verus!
