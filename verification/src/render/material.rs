//! What the mesh materials share: instances by id, and the attributes that
//! each drawn copy of a mesh has.

use super::render_object::Mat4Bits;
use super::vertex_layout::{fills, VertexAttribute, VertexFormat};
use std::collections::hash_map::Entry;
use std::collections::HashMap;
use std::hash::Hash;
use vstd::prelude::*;
use vstd::std_specs::hash::obeys_key_model;

verus! {

broadcast use vstd::std_specs::hash::group_hash_axioms;

/// Material instances by id.
pub struct MaterialInstanceRegistry<I, K: Copy + Eq + Hash> {
    instances: HashMap<K, I>,
}

impl<I, K: Copy + Eq + Hash> MaterialInstanceRegistry<I, K> {
    /// The instances by id. What the methods say of it holds where the id type
    /// hashes and compares as std asks of keys.
    pub closed spec fn view(&self) -> Map<K, I> {
        self.instances@
    }

    /// A registry without instances.
    pub fn new() -> (r: Self)
        ensures
            r@ == Map::<K, I>::empty(),
    {
        MaterialInstanceRegistry { instances: HashMap::new() }
    }

    /// Puts `instance` under `id`, in place of what stood there.
    pub fn register(&mut self, id: K, instance: I)
        ensures
            obeys_key_model::<K>() ==> final(self)@ == old(self)@.insert(id, instance),
    {
        self.instances.insert(id, instance);
    }

    /// The instance under `id`, if there is one.
    pub fn get(&self, id: K) -> (r: Option<&I>)
        ensures
            obeys_key_model::<K>() ==> match r {
                Some(instance) => self@.contains_key(id) && *instance == self@[id],
                None => !self@.contains_key(id),
            },
    {
        self.instances.get(&id)
    }

    /// The instance under `id`, to be changed.
    pub fn get_mut(&mut self, id: K) -> (r: Option<&mut I>)
        ensures
            obeys_key_model::<K>() ==> match r {
                Some(instance) => {
                    &&& old(self)@.contains_key(id)
                    &&& *instance == old(self)@[id]
                    &&& final(self)@ == old(self)@.insert(id, *final(instance))
                },
                None => !old(self)@.contains_key(id) && final(self)@ == old(self)@,
            },
    {
        let ghost before = self.instances@;
        assert(!before.contains_key(id) ==> before.remove(id) =~= before);
        match self.instances.entry(id) {
            Entry::Occupied(entry) => Some(entry.into_mut()),
            Entry::Vacant(_) => None,
        }
    }

    /// How many instances there are.
    pub fn len(&self) -> (r: usize)
        ensures
            obeys_key_model::<K>() ==> r == self@.len(),
    {
        self.instances.len()
    }

    /// Whether there are none.
    pub fn is_empty(&self) -> (r: bool)
        ensures
            obeys_key_model::<K>() ==> r == (self@.len() == 0),
    {
        self.instances.len() == 0
    }
}

impl<I, K: Copy + Eq + Hash> Default for MaterialInstanceRegistry<I, K> {
    fn default() -> (r: Self)
        ensures
            r@ == Map::<K, I>::empty(),
    {
        MaterialInstanceRegistry::new()
    }
}

/// The bytes of `MeshInstanceAttribs` in a buffer.
pub const INSTANCE_STRIDE: u64 = 84;

/// What one drawn copy of a mesh has: where it stands, its tint, and the id
/// that a hit on it is told by. Numbers are bit patterns.
#[derive(Debug, Clone, Copy, PartialEq, Eq)]
pub struct MeshInstanceAttribs {
    /// The matrix by columns.
    pub model: Mat4Bits,
    /// Red, green, blue and opacity.
    pub tint: [u32; 4],
    /// 0 for a copy that is not hit.
    pub hit_id: u32,
}

/// What one drawn copy of a lit mesh has.
pub type PbrInstanceAttribs = MeshInstanceAttribs;

/// The attributes of an instance: the columns of its matrix, its tint and its
/// hit id.
pub open spec fn instance_attributes(start: int) -> Seq<VertexAttribute> {
    Seq::new(
        6,
        |i: int|
            VertexAttribute {
                offset: (16 * i) as u64,
                shader_location: (start + i) as u32,
                format: if i < 5 {
                    VertexFormat::Float32x4
                } else {
                    VertexFormat::Uint32
                },
            },
    )
}

impl MeshInstanceAttribs {
    /// An instance that is not hit.
    pub fn new(model: Mat4Bits, tint: [u32; 4]) -> (r: Self)
        ensures
            r == (MeshInstanceAttribs { model, tint, hit_id: 0 }),
    {
        MeshInstanceAttribs { model, tint, hit_id: 0 }
    }

    /// The instance with the given hit id.
    pub fn with_hit_id(self, hit_id: u32) -> (r: Self)
        ensures
            r == (MeshInstanceAttribs { hit_id, ..self }),
    {
        MeshInstanceAttribs { model: self.model, tint: self.tint, hit_id }
    }

    /// The attributes of an instance, at locations from `start_location`.
    pub fn vertex_attributes(start_location: u32) -> (r: [VertexAttribute; 6])
        requires
            start_location + 5 <= u32::MAX,
        ensures
            r@ == instance_attributes(start_location as int),
            fills(r@, INSTANCE_STRIDE as int, start_location as int),
    {
        let r = [
            VertexAttribute {
                offset: 0,
                shader_location: start_location,
                format: VertexFormat::Float32x4,
            },
            VertexAttribute {
                offset: 16,
                shader_location: start_location + 1,
                format: VertexFormat::Float32x4,
            },
            VertexAttribute {
                offset: 32,
                shader_location: start_location + 2,
                format: VertexFormat::Float32x4,
            },
            VertexAttribute {
                offset: 48,
                shader_location: start_location + 3,
                format: VertexFormat::Float32x4,
            },
            VertexAttribute {
                offset: 64,
                shader_location: start_location + 4,
                format: VertexFormat::Float32x4,
            },
            VertexAttribute {
                offset: 80,
                shader_location: start_location + 5,
                format: VertexFormat::Uint32,
            },
        ];
        assert(r@ =~= instance_attributes(start_location as int));
        r
    }
}

/// An instance is the four columns of its matrix and its tint, four numbers
/// each, and its hit id, which is no fraction, one behind the other, at
/// locations that count up.
pub proof fn law_instances_are_their_attributes(start: u32, r: [VertexAttribute; 6])
    requires
        start + 5 <= u32::MAX,
        call_ensures(MeshInstanceAttribs::vertex_attributes, (start,), r),
    ensures
        forall|i: int|
            0 <= i < 6 ==> (#[trigger] r@[i]).shader_location == start + i && r@[i].offset == 16 * i,
        forall|i: int| 0 <= i < 5 ==> (#[trigger] r@[i]).format == VertexFormat::Float32x4,
        r@[5].format == VertexFormat::Uint32,
        INSTANCE_STRIDE == 84,
{
}

} // verus!
