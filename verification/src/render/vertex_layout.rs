//! How vertex buffers are laid out for the pipelines that read them.

use vstd::prelude::*;

verus! {

/// What one attribute of a vertex holds.
#[derive(Debug, Clone, Copy, PartialEq, Eq, Structural)]
pub enum VertexFormat {
    Float32,
    Float32x2,
    Float32x3,
    Float32x4,
    Uint32,
}

impl VertexFormat {
    /// The bytes that an attribute of this format takes.
    pub open spec fn bytes(self) -> int {
        match self {
            VertexFormat::Float32 => 4,
            VertexFormat::Float32x2 => 8,
            VertexFormat::Float32x3 => 12,
            VertexFormat::Float32x4 => 16,
            VertexFormat::Uint32 => 4,
        }
    }
}

/// Where an attribute stands in a vertex, and where a shader finds it.
#[derive(Debug, Clone, Copy, PartialEq, Eq, Structural)]
pub struct VertexAttribute {
    pub offset: u64,
    pub shader_location: u32,
    pub format: VertexFormat,
}

/// Whether a buffer goes by vertices or by instances.
#[derive(Debug, Clone, Copy, PartialEq, Eq, Structural)]
pub enum VertexStepMode {
    Vertex,
    Instance,
}

/// One vertex buffer of a pipeline.
#[derive(Debug, Clone)]
pub struct VertexBufferLayout {
    pub array_stride: u64,
    pub step_mode: VertexStepMode,
    pub attributes: Vec<VertexAttribute>,
}

/// The attribute at `i` has its location, and ends where the next one starts;
/// the last one ends with the stride.
pub open spec fn fits(attributes: Seq<VertexAttribute>, stride: int, start: int, i: int) -> bool {
    &&& attributes[i].shader_location == start + i
    &&& attributes[i].offset + attributes[i].format.bytes() == (if i + 1 < attributes.len() {
        attributes[i + 1].offset as int
    } else {
        stride
    })
}

/// The attributes stand one behind the other from the first byte to the last
/// of `stride`, at locations that count up from `start`.
pub open spec fn fills(attributes: Seq<VertexAttribute>, stride: int, start: int) -> bool {
    &&& attributes.len() > 0
    &&& attributes[0].offset == 0
    &&& forall|i: int|
        0 <= i < attributes.len() ==> #[trigger] fits(attributes, stride, start, i)
}

/// The bytes of an attribute do not meet those of another.
pub open spec fn apart(a: VertexAttribute, b: VertexAttribute) -> bool {
    a.offset + a.format.bytes() <= b.offset || b.offset + b.format.bytes() <= a.offset
}

proof fn lemma_offsets_grow(
    attributes: Seq<VertexAttribute>,
    stride: int,
    start: int,
    i: int,
    j: int,
)
    requires
        fills(attributes, stride, start),
        0 <= i < j < attributes.len(),
    ensures
        attributes[i].offset + attributes[i].format.bytes() <= attributes[j].offset,
    decreases j - i,
{
    assert(fits(attributes, stride, start, i));
    assert(attributes[i + 1].offset <= attributes[j].offset) by {
        if i + 1 < j {
            lemma_offsets_grow(attributes, stride, start, i + 1, j);
        }
    }
}

/// Attributes that fill a stride share neither a byte nor a location, and none
/// stands out of it.
pub proof fn law_filling_attributes_are_apart(
    attributes: Seq<VertexAttribute>,
    stride: int,
    start: int,
)
    requires
        fills(attributes, stride, start),
    ensures
        forall|i: int, j: int|
            0 <= i < attributes.len() && 0 <= j < attributes.len() && i != j ==> apart(
                #[trigger] attributes[i],
                #[trigger] attributes[j],
            ) && attributes[i].shader_location != attributes[j].shader_location,
        forall|i: int|
            0 <= i < attributes.len() ==> (#[trigger] attributes[i]).offset
                + attributes[i].format.bytes() <= stride,
{
    assert forall|i: int, j: int|
        0 <= i < attributes.len() && 0 <= j < attributes.len() && i != j implies apart(
        #[trigger] attributes[i],
        #[trigger] attributes[j],
    ) && attributes[i].shader_location != attributes[j].shader_location by {
        assert(fits(attributes, stride, start, i));
        assert(fits(attributes, stride, start, j));
        if i < j {
            lemma_offsets_grow(attributes, stride, start, i, j);
        } else {
            lemma_offsets_grow(attributes, stride, start, j, i);
        }
    }
    assert forall|i: int| 0 <= i < attributes.len() implies (#[trigger] attributes[i]).offset
        + attributes[i].format.bytes() <= stride by {
        let last = attributes.len() - 1;
        assert(fits(attributes, stride, start, last));
        if i < last {
            lemma_offsets_grow(attributes, stride, start, i, last);
        }
    }
}

/// The attributes of a mesh vertex: position, normal and texture coordinate.
pub open spec fn mesh_vertex_attributes(start: int) -> Seq<VertexAttribute> {
    seq![
        VertexAttribute {
            offset: 0,
            shader_location: start as u32,
            format: VertexFormat::Float32x3,
        },
        VertexAttribute {
            offset: 12,
            shader_location: (start + 1) as u32,
            format: VertexFormat::Float32x3,
        },
        VertexAttribute {
            offset: 24,
            shader_location: (start + 2) as u32,
            format: VertexFormat::Float32x2,
        },
    ]
}

/// The bytes of a mesh vertex.
pub const MESH_VERTEX_STRIDE: u64 = 32;

/// The attributes of a mesh vertex, at locations from `start_location`.
pub fn mesh_vertex(start_location: u32) -> (r: Vec<VertexAttribute>)
    requires
        start_location + 2 <= u32::MAX,
    ensures
        r@ == mesh_vertex_attributes(start_location as int),
        fills(r@, MESH_VERTEX_STRIDE as int, start_location as int),
{
    let r = vec![
        VertexAttribute {
            offset: 0,
            shader_location: start_location,
            format: VertexFormat::Float32x3,
        },
        VertexAttribute {
            offset: 12,
            shader_location: start_location + 1,
            format: VertexFormat::Float32x3,
        },
        VertexAttribute {
            offset: 24,
            shader_location: start_location + 2,
            format: VertexFormat::Float32x2,
        },
    ];
    assert(r@ =~= mesh_vertex_attributes(start_location as int));
    r
}

/// The attribute of a vertex that is a position and nothing else.
pub open spec fn position_attributes() -> Seq<VertexAttribute> {
    seq![
        VertexAttribute { offset: 0, shader_location: 0, format: VertexFormat::Float32x3 },
    ]
}

/// The bytes of a position.
pub const POSITION_STRIDE: u64 = 12;

/// The attribute of a vertex that is a position and nothing else, at location 0.
pub fn position_vertex() -> (r: Vec<VertexAttribute>)
    ensures
        r@ == position_attributes(),
        fills(r@, POSITION_STRIDE as int, 0),
{
    let r = vec![
        VertexAttribute { offset: 0, shader_location: 0, format: VertexFormat::Float32x3 },
    ];
    assert(r@ =~= position_attributes());
    r
}

/// A vertex of a mesh is three numbers of position, three of normal and two of
/// texture coordinate, one behind the other, at locations that count up.
pub proof fn law_mesh_vertices_are_eight_numbers(start: u32, r: Vec<VertexAttribute>)
    requires
        start + 2 <= u32::MAX,
        call_ensures(mesh_vertex, (start,), r),
    ensures
        r@.len() == 3,
        r@[0].format == VertexFormat::Float32x3 && r@[0].offset == 0,
        r@[1].format == VertexFormat::Float32x3 && r@[1].offset == 12,
        r@[2].format == VertexFormat::Float32x2 && r@[2].offset == 24,
        forall|i: int| 0 <= i < 3 ==> (#[trigger] r@[i]).shader_location == start + i,
        MESH_VERTEX_STRIDE == 32,
{
}

} // verus!
