//! Render-object templates and their registry.
//!
//! A template is a tree of named nodes that hold meshes, emitters or nothing
//! but a transform. Nodes are addressed by stable ids; each has a dense slot,
//! its place in the order in which nodes were added.

use super::mesh::Aabb;
use crate::digits::{decimal, push_decimal};
use std::collections::HashMap;
use std::hash::Hash;
use vstd::prelude::*;
use vstd::std_specs::hash::obeys_key_model;

verus! {

broadcast use vstd::std_specs::hash::group_hash_axioms;

/// A four-by-four matrix, column by column, as bit patterns.
pub type Mat4Bits = [u32; 16];

/// Stable identifier of a node within its template.
#[derive(Debug, Clone, Copy, PartialEq, Eq, Hash, PartialOrd, Ord, Structural)]
pub struct NodeId(pub u16);

/// A mesh and the material that it is drawn with.
#[derive(Debug, Clone, Copy)]
pub struct MeshPart<M, MK> {
    pub mesh: M,
    pub material: MK,
}

impl<M, MK> MeshPart<M, MK> {
    pub fn new(mesh: M, material: MK) -> (r: Self)
        ensures
            r == (MeshPart { mesh, material }),
    {
        MeshPart { mesh, material }
    }
}

/// An emitter and the attachment that keys it.
#[derive(Debug, Clone, Copy)]
pub struct EmitterPart<E, S> {
    pub template: E,
    pub attachment: S,
}

impl<E, S> EmitterPart<E, S> {
    pub fn new(template: E, attachment: S) -> (r: Self)
        ensures
            r == (EmitterPart { template, attachment }),
    {
        EmitterPart { template, attachment }
    }
}

/// What a node holds.
#[derive(Debug, Clone, Copy)]
pub enum NodeKind<M = (), MK = (), E = (), S = ()> {
    /// A transform only: an attachment point or a group.
    Empty,
    Mesh(MeshPart<M, MK>),
    Emitter(EmitterPart<E, S>),
}

/// One node of a template.
pub struct TemplateNode<M = (), MK = (), E = (), S = ()> {
    pub id: NodeId,
    pub name: String,
    /// The parent, or none for a root.
    pub parent: Option<NodeId>,
    /// From this node's frame up to its parent's.
    pub local_transform: Mat4Bits,
    pub kind: NodeKind<M, MK, E, S>,
}

impl<M, MK, E, S> TemplateNode<M, MK, E, S> {
    /// A node that holds nothing.
    pub fn empty(id: NodeId, name: String, parent: Option<NodeId>, local_transform: Mat4Bits) -> (r:
        Self)
        ensures
            r == (TemplateNode {
                id,
                name,
                parent,
                local_transform,
                kind: NodeKind::<M, MK, E, S>::Empty,
            }),
    {
        TemplateNode { id, name, parent, local_transform, kind: NodeKind::Empty }
    }

    /// A node that holds a mesh.
    pub fn mesh(
        id: NodeId,
        name: String,
        parent: Option<NodeId>,
        local_transform: Mat4Bits,
        part: MeshPart<M, MK>,
    ) -> (r: Self)
        ensures
            r == (TemplateNode {
                id,
                name,
                parent,
                local_transform,
                kind: NodeKind::<M, MK, E, S>::Mesh(part),
            }),
    {
        TemplateNode { id, name, parent, local_transform, kind: NodeKind::Mesh(part) }
    }

    /// A node that holds an emitter.
    pub fn emitter(
        id: NodeId,
        name: String,
        parent: Option<NodeId>,
        local_transform: Mat4Bits,
        part: EmitterPart<E, S>,
    ) -> (r: Self)
        ensures
            r == (TemplateNode {
                id,
                name,
                parent,
                local_transform,
                kind: NodeKind::<M, MK, E, S>::Emitter(part),
            }),
    {
        TemplateNode { id, name, parent, local_transform, kind: NodeKind::Emitter(part) }
    }
}

/// The slot of the node with the given id.
pub open spec fn slot_in<M, MK, E, S>(nodes: Seq<TemplateNode<M, MK, E, S>>, id: NodeId) -> Option<
    u32,
>
    decreases nodes.len(),
{
    if nodes.len() == 0 {
        None
    } else if nodes.last().id == id {
        Some((nodes.len() - 1) as u32)
    } else {
        slot_in(nodes.drop_last(), id)
    }
}

/// The slots of the nodes with the given parent (none for the roots), in
/// order.
pub open spec fn slots_under<M, MK, E, S>(
    nodes: Seq<TemplateNode<M, MK, E, S>>,
    parent: Option<NodeId>,
) -> Seq<u32>
    decreases nodes.len(),
{
    if nodes.len() == 0 {
        Seq::empty()
    } else if nodes.last().parent == parent {
        slots_under(nodes.drop_last(), parent).push((nodes.len() - 1) as u32)
    } else {
        slots_under(nodes.drop_last(), parent)
    }
}

/// Ids are distinct, and each parent comes before its children.
pub open spec fn is_forest<M, MK, E, S>(nodes: Seq<TemplateNode<M, MK, E, S>>) -> bool {
    &&& forall|i: int, j: int|
        0 <= i < j < nodes.len() ==> (#[trigger] nodes[i]).id != (#[trigger] nodes[j]).id
    &&& forall|i: int|
        0 <= i < nodes.len() ==> ((#[trigger] nodes[i]).parent matches Some(p) ==> slot_in(
            nodes.take(i),
            p,
        ) is Some)
}

/// A node that can be added: its id is free and its parent is there.
pub open spec fn can_add<M, MK, E, S>(
    nodes: Seq<TemplateNode<M, MK, E, S>>,
    id: NodeId,
    parent: Option<NodeId>,
) -> bool {
    &&& slot_in(nodes, id) is None
    &&& parent matches Some(p) ==> slot_in(nodes, p) is Some
}

/// The lowest id that no node has, if there is one.
pub open spec fn is_lowest_free<M, MK, E, S>(
    nodes: Seq<TemplateNode<M, MK, E, S>>,
    id: NodeId,
) -> bool {
    &&& slot_in(nodes, id) is None
    &&& forall|lower: NodeId| lower.0 < id.0 ==> #[trigger] slot_in(nodes, lower) is Some
}

/// The slot of an id is where it stands.
proof fn lemma_slot_in<M, MK, E, S>(nodes: Seq<TemplateNode<M, MK, E, S>>, id: NodeId)
    requires
        nodes.len() <= u32::MAX,
    ensures
        match slot_in(nodes, id) {
            Some(slot) => slot < nodes.len() && nodes[slot as int].id == id,
            None => forall|i: int| 0 <= i < nodes.len() ==> (#[trigger] nodes[i]).id != id,
        },
    decreases nodes.len(),
{
    if nodes.len() > 0 {
        lemma_slot_in(nodes.drop_last(), id);
        if nodes.last().id != id && slot_in(nodes, id) is None {
            assert forall|i: int| 0 <= i < nodes.len() implies (#[trigger] nodes[i]).id != id by {
                if i < nodes.len() - 1 {
                    assert(nodes.drop_last()[i].id != id);
                }
            }
        }
    }
}

/// Where ids are distinct, a node's slot is its place.
proof fn lemma_slot_of_node<M, MK, E, S>(nodes: Seq<TemplateNode<M, MK, E, S>>, i: int)
    requires
        nodes.len() <= u32::MAX,
        is_forest(nodes),
        0 <= i < nodes.len(),
    ensures
        slot_in(nodes, nodes[i].id) == Some(i as u32),
{
    lemma_slot_in(nodes, nodes[i].id);
    match slot_in(nodes, nodes[i].id) {
        Some(slot) => {
            if slot < i {
                assert(nodes[slot as int].id != nodes[i].id);
            } else if slot > i {
                assert(nodes[i].id != nodes[slot as int].id);
            }
        },
        None => {
            assert(nodes[i].id != nodes[i].id);
        },
    }
}

/// There are at most as many nodes as ids.
proof fn lemma_node_count<M, MK, E, S>(nodes: Seq<TemplateNode<M, MK, E, S>>)
    requires
        is_forest(nodes),
    ensures
        nodes.len() <= 0x1_0000,
{
    let ids = Seq::new(nodes.len(), |i: int| nodes[i].id.0 as int);
    assert(ids.no_duplicates()) by {
        assert forall|i: int, j: int| 0 <= i < ids.len() && 0 <= j < ids.len() && i != j implies ids[i]
            != ids[j] by {
            if i < j {
                assert(nodes[i].id != nodes[j].id);
            } else {
                assert(nodes[j].id != nodes[i].id);
            }
        }
    }
    ids.unique_seq_to_set();
    let all = vstd::set_lib::set_int_range(0, 0x1_0000);
    vstd::set_lib::lemma_int_range(0, 0x1_0000);
    assert(ids.to_set().subset_of(all)) by {
        assert forall|x: int| ids.to_set().contains(x) implies all.contains(x) by {
            let i = choose|i: int| 0 <= i < ids.len() && ids[i] == x;
            assert(ids[i] == nodes[i].id.0);
        }
    }
    vstd::set_lib::lemma_len_subset(ids.to_set(), all);
}

/// A template: nodes, and lookups derived from them.
pub struct RenderTemplate<M = (), MK = (), E = (), S = ()> {
    label: String,
    nodes: Vec<TemplateNode<M, MK, E, S>>,
    /// The slot of each id, where a node has it.
    id_to_slot: Vec<Option<u32>>,
    /// The slots of each node's children.
    children_slots: Vec<Vec<u32>>,
    root_slots: Vec<u32>,
    visual_bounds: Option<Aabb>,
}

impl<M, MK, E, S> RenderTemplate<M, MK, E, S> {
    #[verifier::type_invariant]
    closed spec fn wf(self) -> bool {
        &&& is_forest(self.nodes@)
        &&& self.id_to_slot@.len() <= 0x1_0000
        &&& forall|id: NodeId|
            (id.0 as int) < self.id_to_slot@.len() ==> self.id_to_slot@[id.0 as int]
                == #[trigger] slot_in(self.nodes@, id)
        &&& forall|i: int|
            0 <= i < self.nodes@.len() ==> ((#[trigger] self.nodes@[i]).id.0 as int)
                < self.id_to_slot@.len()
        &&& self.children_slots@.len() == self.nodes@.len()
        &&& forall|i: int|
            0 <= i < self.nodes@.len() ==> (#[trigger] self.children_slots@[i])@ == slots_under(
                self.nodes@,
                Some(self.nodes@[i].id),
            )
        &&& self.root_slots@ == slots_under(self.nodes@, None)
    }

    /// The nodes, in the order in which they were added.
    pub closed spec fn spec_nodes(&self) -> Seq<TemplateNode<M, MK, E, S>> {
        self.nodes@
    }

    /// The template's name.
    pub closed spec fn spec_label(&self) -> Seq<char> {
        self.label@
    }

    /// The space that the template takes up when it is drawn.
    pub closed spec fn spec_bounds(&self) -> Option<Aabb> {
        self.visual_bounds
    }

    /// A template without nodes.
    pub fn new(label: &str) -> (r: Self)
        ensures
            r.spec_label() == label@,
            r.spec_nodes() == Seq::<TemplateNode<M, MK, E, S>>::empty(),
            r.spec_bounds() is None,
    {
        RenderTemplate {
            label: label.to_owned(),
            nodes: Vec::new(),
            id_to_slot: Vec::new(),
            children_slots: Vec::new(),
            root_slots: Vec::new(),
            visual_bounds: None,
        }
    }

    /// The template's name.
    pub fn label(&self) -> (r: &str)
        ensures
            r@ == self.spec_label(),
    {
        self.label.as_str()
    }

    /// Whether `with_node` takes a node with this id and parent.
    pub fn accepts(&self, id: NodeId, parent: Option<NodeId>) -> (r: bool)
        ensures
            r == can_add(self.spec_nodes(), id, parent),
    {
        if self.slot_of(id).is_some() {
            return false;
        }
        match parent {
            Some(p) => self.slot_of(p).is_some(),
            None => true,
        }
    }

    /// The slot of `id`, if a node has it.
    pub fn slot_of(&self, id: NodeId) -> (r: Option<u32>)
        ensures
            r == slot_in(self.spec_nodes(), id),
    {
        proof {
            use_type_invariant(self);
            lemma_node_count(self.nodes@);
            lemma_slot_in(self.nodes@, id);
        }
        let at = id.0 as usize;
        if at < self.id_to_slot.len() {
            self.id_to_slot[at]
        } else {
            None
        }
    }

    /// Adds a node. Its id must be free and its parent, if it names one, must
    /// have been added.
    pub fn with_node(self, node: TemplateNode<M, MK, E, S>) -> (r: Self)
        requires
            can_add(self.spec_nodes(), node.id, node.parent),
        ensures
            r.spec_nodes() == self.spec_nodes().push(node),
            r.spec_label() == self.spec_label(),
            r.spec_bounds() == self.spec_bounds(),
    {
        let parent_slot = match node.parent {
            Some(p) => self.slot_of(p),
            None => None,
        };
        proof {
            use_type_invariant(&self);
        }
        let ghost before = self.nodes@;
        let ghost after = before.push(node);
        proof {
            lemma_node_count(before);
            lemma_push_forest(before, node);
            lemma_node_count(after);
        }
        let RenderTemplate {
            label,
            mut nodes,
            mut id_to_slot,
            mut children_slots,
            mut root_slots,
            visual_bounds,
        } = self;
        let slot = nodes.len() as u32;
        let id_at = node.id.0 as usize;
        let ghost old_ids = id_to_slot@;
        while id_to_slot.len() <= id_at
            invariant
                id_at < 0x1_0000,
                id_to_slot@.len() <= 0x1_0000,
                id_to_slot@.len() >= old_ids.len(),
                forall|k: int| 0 <= k < old_ids.len() ==> id_to_slot@[k] == old_ids[k],
                forall|k: int|
                    old_ids.len() <= k < id_to_slot@.len() ==> id_to_slot@[k] == None::<u32>,
            decreases id_at + 1 - id_to_slot@.len(),
        {
            id_to_slot.push(None);
        }
        let ghost old_roots = root_slots@;
        let ghost old_children = children_slots@;
        match parent_slot {
            Some(p) => {
                proof {
                    lemma_slot_in(before, node.parent->0);
                }
                let mut siblings: Vec<u32> = Vec::new();
                core::mem::swap(&mut siblings, &mut children_slots[p as usize]);
                siblings.push(slot);
                children_slots.set(p as usize, siblings);
            },
            None => {
                root_slots.push(slot);
            },
        }
        let ghost mid_children = children_slots@;
        id_to_slot.set(id_at, Some(slot));
        children_slots.push(Vec::new());
        let ghost pushed = node;
        nodes.push(node);
        proof {
            assert(after.drop_last() =~= before);
            assert forall|id: NodeId| (id.0 as int) < id_to_slot@.len() implies id_to_slot@[id.0 as int]
                == #[trigger] slot_in(after, id) by {
                if id.0 != pushed.id.0 {
                    lemma_slot_in(before, id);
                    if id.0 >= old_ids.len() {
                        match slot_in(before, id) {
                            Some(s) => {
                                assert((before[s as int].id.0 as int) < old_ids.len());
                            },
                            None => {},
                        }
                    }
                } else {
                    assert(id == pushed.id);
                }
            }
            assert forall|i: int| 0 <= i < after.len() implies ((#[trigger] after[i]).id.0 as int)
                < id_to_slot@.len() by {
                if i < before.len() {
                    assert((before[i].id.0 as int) < old_ids.len());
                }
            }
            assert forall|i: int| 0 <= i < after.len() implies (#[trigger] children_slots@[i])@
                == slots_under(after, Some(after[i].id)) by {
                if i < before.len() {
                    assert(old_children[i]@ == slots_under(before, Some(before[i].id)));
                    lemma_slot_of_node(before, i);
                    if pushed.parent == Some(before[i].id) {
                        assert(parent_slot == Some(i as u32));
                    } else {
                        match parent_slot {
                            Some(p) => {
                                lemma_slot_in(before, pushed.parent->0);
                                assert(p != i);
                            },
                            None => {},
                        }
                    }
                } else {
                    lemma_no_children(before, pushed.id);
                    assert(pushed.parent != Some(pushed.id));
                }
            }
        }
        RenderTemplate { label, nodes, id_to_slot, children_slots, root_slots, visual_bounds }
    }
}

/// A forest stays one when a node is added that can be.
proof fn lemma_push_forest<M, MK, E, S>(
    nodes: Seq<TemplateNode<M, MK, E, S>>,
    node: TemplateNode<M, MK, E, S>,
)
    requires
        is_forest(nodes),
        can_add(nodes, node.id, node.parent),
        nodes.len() <= 0x1_0000,
    ensures
        is_forest(nodes.push(node)),
{
    let after = nodes.push(node);
    lemma_slot_in(nodes, node.id);
    assert forall|i: int, j: int| 0 <= i < j < after.len() implies (#[trigger] after[i]).id != (
    #[trigger] after[j]).id by {
        if j < nodes.len() {
            assert(nodes[i].id != nodes[j].id);
        } else {
            assert(nodes[i].id != node.id);
        }
    }
    assert forall|i: int| 0 <= i < after.len() implies ((#[trigger] after[i]).parent matches Some(
        p,
    ) ==> slot_in(after.take(i), p) is Some) by {
        if i < nodes.len() {
            assert(after.take(i) =~= nodes.take(i));
            assert(nodes[i].parent == after[i].parent);
        } else {
            assert(after.take(i) =~= nodes);
        }
    }
}

/// An id that no node has is no node's parent.
proof fn lemma_no_children<M, MK, E, S>(nodes: Seq<TemplateNode<M, MK, E, S>>, id: NodeId)
    requires
        is_forest(nodes),
        nodes.len() <= 0x1_0000,
        slot_in(nodes, id) is None,
    ensures
        slots_under(nodes, Some(id)) == Seq::<u32>::empty(),
{
    lemma_no_children_upto(nodes, id, nodes.len() as int);
    assert(nodes.take(nodes.len() as int) =~= nodes);
}

proof fn lemma_no_children_upto<M, MK, E, S>(
    nodes: Seq<TemplateNode<M, MK, E, S>>,
    id: NodeId,
    n: int,
)
    requires
        is_forest(nodes),
        nodes.len() <= 0x1_0000,
        slot_in(nodes, id) is None,
        0 <= n <= nodes.len(),
    ensures
        slots_under(nodes.take(n), Some(id)) == Seq::<u32>::empty(),
    decreases n,
{
    if n > 0 {
        lemma_no_children_upto(nodes, id, n - 1);
        assert(nodes.take(n).drop_last() =~= nodes.take(n - 1));
        assert(nodes.take(n).last() == nodes[n - 1]);
        if nodes[n - 1].parent == Some(id) {
            lemma_slot_in(nodes.take(n - 1), id);
            lemma_slot_in(nodes, id);
            let s = slot_in(nodes.take(n - 1), id)->0;
            assert(nodes.take(n - 1)[s as int] == nodes[s as int]);
        }
    }
}

/// A template that does not have every id has a free one.
proof fn lemma_free_id<M, MK, E, S>(nodes: Seq<TemplateNode<M, MK, E, S>>)
    requires
        is_forest(nodes),
        forall|id: NodeId| #[trigger] slot_in(nodes, id) is Some,
    ensures
        nodes.len() >= 0x1_0000,
{
    lemma_node_count(nodes);
    let slots = Seq::new(0x1_0000, |k: int| slot_in(nodes, NodeId(k as u16))->0 as int);
    assert(slots.no_duplicates()) by {
        assert forall|i: int, j: int|
            0 <= i < slots.len() && 0 <= j < slots.len() && i != j implies slots[i] != slots[j] by {
            lemma_slot_in(nodes, NodeId(i as u16));
            lemma_slot_in(nodes, NodeId(j as u16));
            assert(slot_in(nodes, NodeId(i as u16)) is Some);
            assert(slot_in(nodes, NodeId(j as u16)) is Some);
            assert(NodeId(i as u16) != NodeId(j as u16));
        }
    }
    slots.unique_seq_to_set();
    let all = vstd::set_lib::set_int_range(0, nodes.len() as int);
    vstd::set_lib::lemma_int_range(0, nodes.len() as int);
    assert(slots.to_set().subset_of(all)) by {
        assert forall|x: int| slots.to_set().contains(x) implies all.contains(x) by {
            let k = choose|k: int| 0 <= k < slots.len() && slots[k] == x;
            lemma_slot_in(nodes, NodeId(k as u16));
            assert(slot_in(nodes, NodeId(k as u16)) is Some);
        }
    }
    vstd::set_lib::lemma_len_subset(slots.to_set(), all);
}

/// `node` is a root with the lowest free id of `nodes`, whose name is `prefix`
/// followed by that id.
pub open spec fn is_next_root<M, MK, E, S>(
    nodes: Seq<TemplateNode<M, MK, E, S>>,
    node: TemplateNode<M, MK, E, S>,
    prefix: Seq<char>,
) -> bool {
    &&& is_lowest_free(nodes, node.id)
    &&& node.name@ == prefix + decimal(node.id.0 as nat)
    &&& node.parent is None
}

impl<M, MK, E, S> RenderTemplate<M, MK, E, S> {
    /// The lowest id that no node has.
    pub fn next_free_node_id(&self) -> (r: NodeId)
        requires
            self.spec_nodes().len() < 0x1_0000,
        ensures
            is_lowest_free(self.spec_nodes(), r),
    {
        proof {
            use_type_invariant(self);
            lemma_node_count(self.nodes@);
        }
        let mut i: usize = 0;
        while i < self.id_to_slot.len()
            invariant
                i <= self.id_to_slot@.len() <= 0x1_0000,
                self.wf(),
                forall|id: NodeId|
                    (id.0 as int) < i ==> #[trigger] slot_in(self.nodes@, id) is Some,
            decreases self.id_to_slot@.len() - i,
        {
            assert(self.id_to_slot@[i as int] == slot_in(self.nodes@, NodeId(i as u16)));
            if self.id_to_slot[i].is_none() {
                return NodeId(i as u16);
            }
            assert forall|id: NodeId| (id.0 as int) < i + 1 implies #[trigger] slot_in(
                self.nodes@,
                id,
            ) is Some by {
                if id.0 == i {
                    assert(id == NodeId(i as u16));
                }
            }
            i += 1;
        }
        proof {
            if i == 0x1_0000 {
                assert forall|id: NodeId| #[trigger] slot_in(self.nodes@, id) is Some by {
                    assert((id.0 as int) < i);
                }
                lemma_free_id(self.nodes@);
            }
            let next = NodeId(i as u16);
            lemma_slot_in(self.nodes@, next);
            match slot_in(self.nodes@, next) {
                Some(s) => {
                    assert((self.nodes@[s as int].id.0 as int) < self.id_to_slot@.len());
                },
                None => {},
            }
        }
        NodeId(i as u16)
    }

    /// Adds a mesh as a root with the lowest free id.
    pub fn with_mesh_part(self, mesh: M, material: MK, local_transform: Mat4Bits) -> (r: Self)
        requires
            self.spec_nodes().len() < 0x1_0000,
        ensures
            r.spec_nodes() == self.spec_nodes().push(r.spec_nodes().last()),
            is_next_root(self.spec_nodes(), r.spec_nodes().last(), "mesh_"@),
            r.spec_nodes().last().local_transform == local_transform,
            r.spec_nodes().last().kind == NodeKind::<M, MK, E, S>::Mesh(
                MeshPart { mesh, material },
            ),
            r.spec_label() == self.spec_label(),
            r.spec_bounds() == self.spec_bounds(),
    {
        let id = self.next_free_node_id();
        let mut name = "mesh_".to_owned();
        push_decimal(&mut name, id.0 as u64);
        self.with_node(
            TemplateNode::mesh(id, name, None, local_transform, MeshPart::new(mesh, material)),
        )
    }

    /// Adds an emitter as a root with the lowest free id.
    pub fn with_emitter_part(self, template: E, attachment: S, local_transform: Mat4Bits) -> (r:
        Self)
        requires
            self.spec_nodes().len() < 0x1_0000,
        ensures
            r.spec_nodes() == self.spec_nodes().push(r.spec_nodes().last()),
            is_next_root(self.spec_nodes(), r.spec_nodes().last(), "emitter_"@),
            r.spec_nodes().last().local_transform == local_transform,
            r.spec_nodes().last().kind == NodeKind::<M, MK, E, S>::Emitter(
                EmitterPart { template, attachment },
            ),
            r.spec_label() == self.spec_label(),
            r.spec_bounds() == self.spec_bounds(),
    {
        let id = self.next_free_node_id();
        let mut name = "emitter_".to_owned();
        push_decimal(&mut name, id.0 as u64);
        self.with_node(
            TemplateNode::emitter(
                id,
                name,
                None,
                local_transform,
                EmitterPart::new(template, attachment),
            ),
        )
    }

    /// Every node, in the order in which it was added; a node's place is its
    /// slot.
    pub fn nodes(&self) -> (r: &[TemplateNode<M, MK, E, S>])
        ensures
            r@ == self.spec_nodes(),
            is_forest(r@),
            r@.len() <= 0x1_0000,
    {
        proof {
            use_type_invariant(self);
            lemma_node_count(self.nodes@);
        }
        self.nodes.as_slice()
    }

    /// The node with the given id, if there is one.
    pub fn node(&self, id: NodeId) -> (r: Option<&TemplateNode<M, MK, E, S>>)
        ensures
            match r {
                Some(node) => slot_in(self.spec_nodes(), id) matches Some(slot) && *node
                    == self.spec_nodes()[slot as int] && node.id == id,
                None => slot_in(self.spec_nodes(), id) is None,
            },
    {
        proof {
            use_type_invariant(self);
            lemma_node_count(self.nodes@);
            lemma_slot_in(self.nodes@, id);
        }
        match self.slot_of(id) {
            Some(slot) => Some(&self.nodes[slot as usize]),
            None => None,
        }
    }

    /// The slots of the nodes without a parent.
    pub fn roots(&self) -> (r: &[u32])
        ensures
            r@ == slots_under(self.spec_nodes(), None),
    {
        proof {
            use_type_invariant(self);
        }
        self.root_slots.as_slice()
    }

    /// The slots of the children of the node at `slot`.
    pub fn children(&self, slot: u32) -> (r: &[u32])
        requires
            slot < self.spec_nodes().len(),
        ensures
            r@ == slots_under(self.spec_nodes(), Some(self.spec_nodes()[slot as int].id)),
    {
        proof {
            use_type_invariant(self);
            assert(self.children_slots@[slot as int]@ == slots_under(
                self.nodes@,
                Some(self.nodes@[slot as int].id),
            ));
        }
        self.children_slots[slot as usize].as_slice()
    }

    /// How many nodes there are.
    pub fn node_count(&self) -> (r: usize)
        ensures
            r == self.spec_nodes().len(),
    {
        self.nodes.len()
    }

    /// Declares the space that the template takes up when it is drawn.
    pub fn with_visual_bounds(self, aabb: Aabb) -> (r: Self)
        ensures
            r.spec_bounds() == Some(aabb),
            r.spec_nodes() == self.spec_nodes(),
            r.spec_label() == self.spec_label(),
    {
        proof {
            use_type_invariant(&self);
        }
        let RenderTemplate {
            label,
            nodes,
            id_to_slot,
            children_slots,
            root_slots,
            visual_bounds: _,
        } = self;
        RenderTemplate {
            label,
            nodes,
            id_to_slot,
            children_slots,
            root_slots,
            visual_bounds: Some(aabb),
        }
    }

    /// The space that the template takes up when it is drawn, if declared.
    pub fn visual_bounds(&self) -> (r: Option<Aabb>)
        ensures
            r == self.spec_bounds(),
    {
        self.visual_bounds
    }
}

/// The tree is complete and without repetition: the slots under a parent are
/// exactly those of the nodes that name it, each once and in order. A node is
/// therefore under its own parent and under nothing else.
pub proof fn law_slots_under<M, MK, E, S>(
    nodes: Seq<TemplateNode<M, MK, E, S>>,
    parent: Option<NodeId>,
)
    requires
        nodes.len() <= 0x1_0000,
    ensures
        forall|slot: u32|
            #[trigger] slots_under(nodes, parent).contains(slot) <==> slot < nodes.len()
                && nodes[slot as int].parent == parent,
        forall|i: int, j: int|
            0 <= i < j < slots_under(nodes, parent).len() ==> slots_under(nodes, parent)[i]
                < slots_under(nodes, parent)[j],
    decreases nodes.len(),
{
    if nodes.len() > 0 {
        let front = nodes.drop_last();
        law_slots_under(front, parent);
        let before = slots_under(front, parent);
        let all = slots_under(nodes, parent);
        let last = (nodes.len() - 1) as u32;
        assert forall|i: int| 0 <= i < before.len() implies before[i] < last by {
            assert(before.contains(before[i]));
            assert(before[i] < front.len());
        }
        assert forall|slot: u32|
            #[trigger] all.contains(slot) <==> slot < nodes.len() && nodes[slot as int].parent
                == parent by {
            if all.contains(slot) {
                let i = choose|i: int| 0 <= i < all.len() && all[i] == slot;
                if i < before.len() {
                    assert(before.contains(slot));
                    assert(front[slot as int].parent == parent);
                }
            }
            if slot < nodes.len() && nodes[slot as int].parent == parent {
                if slot < front.len() {
                    assert(front[slot as int].parent == parent);
                    assert(before.contains(slot));
                    let i = choose|i: int| 0 <= i < before.len() && before[i] == slot;
                    assert(all[i] == slot);
                } else {
                    assert(slot == last);
                    assert(all[all.len() - 1] == slot);
                }
            }
        }
    }
}

/// Every parent has a lower slot than its children, so walking down from the
/// roots ends.
pub proof fn law_parents_come_first<M, MK, E, S>(
    nodes: Seq<TemplateNode<M, MK, E, S>>,
    slot: int,
)
    requires
        is_forest(nodes),
        0 <= slot < nodes.len(),
        nodes[slot].parent is Some,
    ensures
        slot_in(nodes, nodes[slot].parent->0) matches Some(p) && p < slot,
{
    lemma_node_count(nodes);
    let id = nodes[slot].parent->0;
    lemma_slot_in(nodes.take(slot), id);
    let p = slot_in(nodes.take(slot), id)->0;
    assert(nodes.take(slot)[p as int] == nodes[p as int]);
    lemma_slot_of_node(nodes, p as int);
}

/// Some node has the id.
pub open spec fn has_id<M, MK, E, S>(nodes: Seq<TemplateNode<M, MK, E, S>>, id: NodeId) -> bool {
    exists|i: int| 0 <= i < nodes.len() && (#[trigger] nodes[i]).id == id
}

proof fn lemma_has_id<M, MK, E, S>(nodes: Seq<TemplateNode<M, MK, E, S>>, id: NodeId)
    requires
        nodes.len() <= u32::MAX,
    ensures
        has_id(nodes, id) <==> slot_in(nodes, id) is Some,
{
    lemma_slot_in(nodes, id);
}

/// A node is found by its id, at the place where it was added; an id that no
/// node has is not found. A node is accepted if its id is not taken and it has
/// no parent or one that is there.
pub proof fn law_nodes_are_found_by_their_id<M, MK, E, S>(
    template: RenderTemplate<M, MK, E, S>,
    nodes: &[TemplateNode<M, MK, E, S>],
    id: NodeId,
    slot: Option<u32>,
    found: Option<&TemplateNode<M, MK, E, S>>,
    parent: Option<NodeId>,
    accepted: bool,
)
    requires
        call_ensures(RenderTemplate::<M, MK, E, S>::nodes, (&template,), nodes),
        call_ensures(RenderTemplate::<M, MK, E, S>::slot_of, (&template, id), slot),
        call_ensures(RenderTemplate::<M, MK, E, S>::node, (&template, id), found),
        call_ensures(RenderTemplate::<M, MK, E, S>::accepts, (&template, id, parent), accepted),
    ensures
        slot is Some <==> has_id(nodes@, id),
        found is Some <==> has_id(nodes@, id),
        slot matches Some(s) ==> s < nodes@.len() && nodes@[s as int].id == id && found == Some(
            &nodes@[s as int],
        ),
        accepted <==> !has_id(nodes@, id) && (parent matches Some(p) ==> has_id(nodes@, p)),
{
    lemma_has_id(nodes@, id);
    lemma_slot_in(nodes@, id);
    if let Some(p) = parent {
        lemma_has_id(nodes@, p);
    }
}

/// A node that was added stands behind the others, and is found by its id; the
/// others are found as before.
pub proof fn law_added_nodes_are_found<M, MK, E, S>(
    before: RenderTemplate<M, MK, E, S>,
    node: TemplateNode<M, MK, E, S>,
    after: RenderTemplate<M, MK, E, S>,
    nodes: &[TemplateNode<M, MK, E, S>],
    id: NodeId,
    was: Option<&TemplateNode<M, MK, E, S>>,
    is: Option<&TemplateNode<M, MK, E, S>>,
)
    requires
        call_ensures(RenderTemplate::<M, MK, E, S>::with_node, (before, node), after),
        call_ensures(RenderTemplate::<M, MK, E, S>::nodes, (&after,), nodes),
        call_ensures(RenderTemplate::<M, MK, E, S>::node, (&before, id), was),
        call_ensures(RenderTemplate::<M, MK, E, S>::node, (&after, id), is),
    ensures
        nodes@.len() > 0,
        nodes@.last() == node,
        id == node.id ==> is == Some(&node),
        id != node.id ==> is == was,
{
    assert(nodes@.drop_last() =~= before.spec_nodes());
    lemma_slot_in(before.spec_nodes(), id);
    lemma_slot_in(nodes@, id);
}

/// The next id is the lowest that no node has.
pub proof fn law_next_ids_are_the_lowest<M, MK, E, S>(
    template: RenderTemplate<M, MK, E, S>,
    nodes: &[TemplateNode<M, MK, E, S>],
    next: NodeId,
)
    requires
        call_ensures(RenderTemplate::<M, MK, E, S>::nodes, (&template,), nodes),
        call_ensures(RenderTemplate::<M, MK, E, S>::next_free_node_id, (&template,), next),
    ensures
        !has_id(nodes@, next),
        forall|lower: NodeId| lower.0 < next.0 ==> #[trigger] has_id(nodes@, lower),
{
    lemma_has_id(nodes@, next);
    assert forall|lower: NodeId| lower.0 < next.0 implies #[trigger] has_id(nodes@, lower) by {
        lemma_has_id(nodes@, lower);
    }
}

/// A mesh that was added is a root with the next id, has the transform it was
/// added with, and stands behind what there was.
pub proof fn law_added_meshes_are_roots<M, MK, E, S>(
    before: RenderTemplate<M, MK, E, S>,
    mesh: M,
    material: MK,
    local_transform: Mat4Bits,
    after: RenderTemplate<M, MK, E, S>,
    next: NodeId,
    nodes: &[TemplateNode<M, MK, E, S>],
    roots: &[u32],
)
    requires
        call_ensures(RenderTemplate::<M, MK, E, S>::next_free_node_id, (&before,), next),
        call_ensures(
            RenderTemplate::<M, MK, E, S>::with_mesh_part,
            (before, mesh, material, local_transform),
            after,
        ),
        call_ensures(RenderTemplate::<M, MK, E, S>::nodes, (&after,), nodes),
        call_ensures(RenderTemplate::<M, MK, E, S>::roots, (&after,), roots),
    ensures
        nodes@.len() == before.spec_nodes().len() + 1,
        nodes@.drop_last() == before.spec_nodes(),
        nodes@.last().id == next,
        nodes@.last().parent is None,
        nodes@.last().local_transform == local_transform,
        nodes@.last().kind matches NodeKind::Mesh(part) && part.mesh == mesh && part.material
            == material,
        roots@.len() > 0 && roots@.last() == nodes@.len() - 1,
{
    let node = nodes@.last();
    assert(nodes@.drop_last() =~= before.spec_nodes());
    if node.id.0 < next.0 {
        assert(slot_in(before.spec_nodes(), node.id) is Some);
    }
    if next.0 < node.id.0 {
        assert(slot_in(before.spec_nodes(), next) is Some);
    }
}

/// Templates by an id of the caller's choice.
pub struct RenderRegistry<R: Clone + Eq + Hash, M = (), MK = (), E = (), S = ()> {
    templates: HashMap<R, RenderTemplate<M, MK, E, S>>,
}

impl<R: Clone + Eq + Hash, M, MK, E, S> RenderRegistry<R, M, MK, E, S> {
    /// The templates by id. What the methods say of it holds where the id type
    /// hashes and compares as std asks of keys.
    pub closed spec fn view(&self) -> Map<R, RenderTemplate<M, MK, E, S>> {
        self.templates@
    }

    /// A registry without templates.
    pub fn new() -> (r: Self)
        ensures
            r@ == Map::<R, RenderTemplate<M, MK, E, S>>::empty(),
    {
        RenderRegistry { templates: HashMap::new() }
    }

    /// Puts `template` under `id`, in place of what stood there.
    pub fn register(&mut self, id: R, template: RenderTemplate<M, MK, E, S>)
        ensures
            obeys_key_model::<R>() ==> final(self)@ == old(self)@.insert(id, template),
    {
        self.templates.insert(id, template);
    }

    /// The template under `id`, if there is one.
    pub fn get(&self, id: &R) -> (r: Option<&RenderTemplate<M, MK, E, S>>)
        ensures
            obeys_key_model::<R>() ==> match r {
                Some(template) => self@.contains_key(*id) && *template == self@[*id],
                None => !self@.contains_key(*id),
            },
    {
        self.templates.get(id)
    }

    /// How many templates there are.
    pub fn len(&self) -> (r: usize)
        ensures
            obeys_key_model::<R>() ==> r == self@.len(),
    {
        self.templates.len()
    }

    /// Whether there are none.
    pub fn is_empty(&self) -> (r: bool)
        ensures
            obeys_key_model::<R>() ==> r == (self@.len() == 0),
    {
        self.templates.len() == 0
    }
}

impl<R: Clone + Eq + Hash, M, MK, E, S> Default for RenderRegistry<R, M, MK, E, S> {
    fn default() -> (r: Self)
        ensures
            r@ == Map::<R, RenderTemplate<M, MK, E, S>>::empty(),
    {
        RenderRegistry::new()
    }
}

} // verus!
