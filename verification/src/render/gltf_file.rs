//! What is taken from the `gltf` crate: a parsed document, and the vertex data
//! of the primitives of its first mesh.
//!
//! The crate's validation panics on some references to accessors that are not
//! there, and its readers panic on some malformed accessors. `parsable` says
//! which bytes can be validated and `clean` which reads are safe; both are
//! checked first.

use super::float_bits::{is_nan, Bits3};
use super::glb::{bin_chunk, glb, is_sound, law_glb_is_well_framed, GlbParts};
use super::mesh::items;
use vstd::prelude::*;

verus! {

#[verifier::external_type_specification]
#[verifier::external_body]
pub struct ExGltf(gltf::Gltf);

#[verifier::external_type_specification]
#[verifier::external_body]
pub struct ExGltfError(gltf::Error);

/// Which accessor of a primitive.
#[derive(Debug, Clone, Copy, PartialEq, Eq, Structural)]
pub enum Attribute {
    Position,
    Normal,
    Uv,
    Indices,
}

/// A window into the file's buffer.
#[derive(Debug, Clone, Copy, PartialEq, Eq, Structural)]
pub struct ViewLayout {
    pub offset: usize,
    pub length: usize,
    /// Bytes from one item to the next; tightly packed where it is absent.
    pub stride: Option<usize>,
}

/// How an accessor lays out its items.
#[derive(Debug, Clone, Copy, PartialEq, Eq, Structural)]
pub struct AccessorLayout {
    /// The accessor's index in the document.
    pub index: usize,
    /// The component type, as its OpenGL number.
    pub component: u32,
    /// Bytes per item.
    pub size: usize,
    /// How many items.
    pub count: usize,
    /// Bytes from the start of the view.
    pub offset: usize,
    pub view: Option<ViewLayout>,
}

/// The substituted items of a sparse accessor.
#[derive(Debug, Clone, Copy, PartialEq, Eq, Structural)]
pub struct SparseLayout {
    /// How many items are substituted.
    pub count: usize,
    /// Bytes per index.
    pub index_size: usize,
    pub index_offset: usize,
    pub index_view: ViewLayout,
    pub value_offset: usize,
    pub value_view: ViewLayout,
}

/// OpenGL's number for unsigned bytes.
pub const UNSIGNED_BYTE: u32 = 5121;

/// OpenGL's number for unsigned 16-bit integers.
pub const UNSIGNED_SHORT: u32 = 5123;

/// OpenGL's number for unsigned 32-bit integers.
pub const UNSIGNED_INT: u32 = 5125;

/// OpenGL's number for single-precision numbers.
pub const FLOAT: u32 = 5126;

/// Bytes of the item that a reader takes for an accessor with the given
/// component type; nothing where the readers know no such item.
pub open spec fn item_size(which: Attribute, component: u32) -> Option<int> {
    match which {
        Attribute::Position | Attribute::Normal => Some(12),
        Attribute::Uv => if component == UNSIGNED_BYTE {
            Some(2)
        } else if component == UNSIGNED_SHORT {
            Some(4)
        } else if component == FLOAT {
            Some(8)
        } else {
            None
        },
        Attribute::Indices => if component == UNSIGNED_BYTE {
            Some(1)
        } else if component == UNSIGNED_SHORT {
            Some(2)
        } else if component == UNSIGNED_INT {
            Some(4)
        } else {
            None
        },
    }
}

/// `count` items of `item` bytes can be walked in `view`: there is one, they
/// do not overlap, and their end is a machine address.
pub open spec fn walkable(count: usize, offset: usize, view: ViewLayout, item: int) -> bool {
    let stride = match view.stride {
        Some(stride) => stride as int,
        None => item,
    };
    &&& count >= 1
    &&& stride >= item
    &&& offset + stride * (count - 1) + item <= usize::MAX
    &&& view.offset + view.length <= usize::MAX
}

/// A read that does not panic.
pub open spec fn clean_layout(
    which: Attribute,
    layout: AccessorLayout,
    sparse: Option<SparseLayout>,
) -> bool {
    match item_size(which, layout.component) {
        None => false,
        Some(item) => {
            &&& layout.view matches Some(view) ==> walkable(layout.count, layout.offset, view, item)
            &&& match sparse {
                Some(s) => {
                    &&& layout.count <= u32::MAX
                    &&& walkable(s.count, s.index_offset, s.index_view, s.index_size as int)
                    &&& walkable(s.count, s.value_offset, s.value_view, item)
                },
                None => layout.size == item,
            }
        },
    }
}

/// What `gltf::Gltf::from_slice` makes of some bytes.
pub uninterp spec fn gltf_parse(bytes: Seq<u8>) -> Result<gltf::Gltf, gltf::Error>;

/// What `gltf::Gltf::from_slice_without_validation` makes of some bytes.
pub uninterp spec fn gltf_load(bytes: Seq<u8>) -> Result<gltf::Gltf, gltf::Error>;

/// The number of `gltf::Document::accessors`.
pub uninterp spec fn gltf_accessors(doc: gltf::Gltf) -> nat;

/// For each mesh, and each of its primitives, the number of the accessor that
/// `gltf::json::mesh::Primitive::attributes` names for positions.
pub uninterp spec fn gltf_position_accessors(doc: gltf::Gltf) -> Seq<Seq<Option<usize>>>;

/// `gltf::Gltf::blob`: the embedded binary chunk, if there is one.
pub uninterp spec fn gltf_blob(doc: gltf::Gltf) -> Option<Seq<u8>>;

/// The number of `gltf::Document::skins`.
pub uninterp spec fn gltf_skins(doc: gltf::Gltf) -> nat;

/// The number of `gltf::Document::animations`.
pub uninterp spec fn gltf_animations(doc: gltf::Gltf) -> nat;

/// The number of `gltf::Document::meshes`.
pub uninterp spec fn gltf_meshes(doc: gltf::Gltf) -> nat;

/// The number of `gltf::Mesh::primitives` of the first mesh.
pub uninterp spec fn gltf_primitives(doc: gltf::Gltf) -> nat;

/// The accessor of an attribute of a primitive of the first mesh.
pub uninterp spec fn gltf_accessor(
    doc: gltf::Gltf,
    primitive: int,
    which: Attribute,
) -> Option<AccessorLayout>;

/// What `gltf::Accessor::sparse` says of an accessor of the document.
pub uninterp spec fn gltf_sparse(doc: gltf::Gltf, accessor: int) -> Option<SparseLayout>;

/// The bits of what `Reader::read_positions` yields.
pub uninterp spec fn gltf_positions(doc: gltf::Gltf, primitive: int) -> Option<Seq<Bits3>>;

/// The bits of what `Reader::read_normals` yields.
pub uninterp spec fn gltf_normals(doc: gltf::Gltf, primitive: int) -> Option<Seq<Bits3>>;

/// The bits of what `Reader::read_tex_coords(0)` yields as numbers.
pub uninterp spec fn gltf_uvs(doc: gltf::Gltf, primitive: int) -> Option<Seq<[u32; 2]>>;

/// What `Reader::read_indices` yields, widened to 32 bits.
pub uninterp spec fn gltf_indices(doc: gltf::Gltf, primitive: int) -> Option<Seq<u32>>;

/// The name of the material of a primitive.
pub uninterp spec fn gltf_material_name(doc: gltf::Gltf, primitive: int) -> Option<Seq<char>>;

/// Reading the attribute does not panic.
pub open spec fn clean(doc: gltf::Gltf, primitive: int, which: Attribute) -> bool {
    gltf_accessor(doc, primitive, which) matches Some(layout) ==> clean_layout(
        which,
        layout,
        gltf_sparse(doc, layout.index as int),
    )
}

/// A little-endian 32-bit number.
pub open spec fn le_number(bytes: Seq<u8>, at: int) -> int {
    bytes[at] + 0x100 * bytes[at + 1] + 0x1_0000 * bytes[at + 2] + 0x100_0000 * bytes[at + 3]
}

/// A binary header, if there is one, counts at least itself.
pub open spec fn sane_header(bytes: Seq<u8>) -> bool {
    bytes.len() >= 12 && bytes[0] == 0x67 && bytes[1] == 0x6c && bytes[2] == 0x54 && bytes[3]
        == 0x46 ==> le_number(bytes, 8) >= 12
}

/// The accessor is there, if one is named.
pub open spec fn is_there(accessor: Option<usize>, accessors: nat) -> bool {
    accessor matches Some(i) ==> i < accessors
}

/// Every accessor that a primitive names for its positions is there.
pub open spec fn positions_are_there(doc: gltf::Gltf) -> bool {
    let named = gltf_position_accessors(doc);
    forall|m: int, i: int|
        0 <= m < named.len() && 0 <= i < named[m].len() ==> is_there(
            #[trigger] named[m][i],
            gltf_accessors(doc),
        )
}

/// Bytes that can be parsed and validated, to a document or to an error.
pub open spec fn parsable(bytes: Seq<u8>) -> bool {
    &&& sane_header(bytes)
    &&& gltf_load(bytes) matches Ok(doc) ==> positions_are_there(doc)
}

/// The document has passed validation.
pub open spec fn validated(doc: gltf::Gltf) -> bool {
    exists|bytes: Seq<u8>|
        parsable(bytes) && #[trigger] gltf_parse(bytes) == Ok::<gltf::Gltf, gltf::Error>(doc)
}

/// Where and how a file that holds a mesh says that an attribute stands.
pub open spec fn written_layout(parts: GlbParts, which: Attribute) -> AccessorLayout {
    let n = parts.vertices.len();
    match which {
        Attribute::Position => AccessorLayout {
            index: 0,
            component: FLOAT,
            size: 12,
            count: n as usize,
            offset: 0,
            view: Some(ViewLayout { offset: 0, length: (12 * n) as usize, stride: None }),
        },
        Attribute::Normal => AccessorLayout {
            index: 1,
            component: FLOAT,
            size: 12,
            count: n as usize,
            offset: 0,
            view: Some(
                ViewLayout { offset: (12 * n) as usize, length: (12 * n) as usize, stride: None },
            ),
        },
        Attribute::Uv => AccessorLayout {
            index: 2,
            component: FLOAT,
            size: 8,
            count: n as usize,
            offset: 0,
            view: Some(
                ViewLayout { offset: (24 * n) as usize, length: (8 * n) as usize, stride: None },
            ),
        },
        Attribute::Indices => AccessorLayout {
            index: 3,
            component: UNSIGNED_INT,
            size: 4,
            count: parts.indices as usize,
            offset: 0,
            view: Some(
                ViewLayout {
                    offset: (32 * n) as usize,
                    length: (4 * parts.indices) as usize,
                    stride: None,
                },
            ),
        },
    }
}

/// The document says what the JSON of a file that holds a mesh says, and has the
/// file's binary chunk.
pub open spec fn describes(doc: gltf::Gltf, parts: GlbParts) -> bool {
    &&& gltf_blob(doc) == Some(bin_chunk(parts))
    &&& gltf_skins(doc) == 0
    &&& gltf_animations(doc) == 0
    &&& gltf_meshes(doc) == 1
    &&& gltf_primitives(doc) == 1
    &&& gltf_material_name(doc, 0) is None
    &&& forall|which: Attribute| #[trigger]
        gltf_accessor(doc, 0, which) == Some(written_layout(parts, which))
    &&& forall|i: int| 0 <= i < 4 ==> #[trigger] gltf_sparse(doc, i) is None
}

/// `r` is a document whose positions have accessors, if the bytes are a sound
/// file that holds a mesh.
pub open spec fn loads_written(bytes: Seq<u8>, r: Result<gltf::Gltf, gltf::Error>) -> bool {
    forall|parts: GlbParts|
        bytes == #[trigger] glb(parts) && is_sound(parts) ==> (r matches Ok(doc)
            && positions_are_there(doc))
}

/// `r` is the document that a file describes, if the bytes are a sound file that
/// holds a mesh.
pub open spec fn parses_written(bytes: Seq<u8>, r: Result<gltf::Gltf, gltf::Error>) -> bool {
    forall|parts: GlbParts|
        bytes == #[trigger] glb(parts) && is_sound(parts) ==> (r matches Ok(doc) && describes(
            doc,
            parts,
        ))
}

/// Items of an attribute that stand in the blob one behind the other.
pub struct Packed {
    pub blob: Seq<u8>,
    /// Where the first starts.
    pub start: int,
    pub count: int,
    pub component: u32,
}

/// The items of an attribute in the blob, if they stand there one behind the
/// other, `item` bytes each.
pub open spec fn packed_in_blob(
    doc: gltf::Gltf,
    primitive: int,
    which: Attribute,
    item: int,
) -> Option<Packed> {
    match (gltf_accessor(doc, primitive, which), gltf_blob(doc)) {
        (Some(layout), Some(blob)) => match layout.view {
            Some(view) => if gltf_sparse(doc, layout.index as int) is None && view.stride is None
                && layout.offset + item * layout.count <= view.length && view.offset + view.length
                <= blob.len() {
                Some(
                    Packed {
                        blob,
                        start: view.offset + layout.offset,
                        count: layout.count as int,
                        component: layout.component,
                    },
                )
            } else {
                None
            },
            None => None,
        },
        _ => None,
    }
}

/// The bits of a number are those that stand in the blob, unless they are those
/// of a NaN.
pub open spec fn is_read(blob: Seq<u8>, at: int, bits: u32) -> bool {
    !is_nan(le_number(blob, at) as u32) ==> bits == le_number(blob, at)
}

/// `r` is read from the blob, three coordinates for each item, if the items are
/// packed there.
pub open spec fn reads_packed3(
    doc: gltf::Gltf,
    primitive: int,
    which: Attribute,
    r: Option<Seq<Bits3>>,
) -> bool {
    packed_in_blob(doc, primitive, which, 12) matches Some(p) ==> (r matches Some(items) && {
        &&& items.len() == p.count
        &&& forall|k: int, c: int|
            0 <= k < p.count && 0 <= c < 3 ==> is_read(
                p.blob,
                p.start + 12 * k + 4 * c,
                #[trigger] items[k][c],
            )
    })
}

/// `r` is read from the blob, two coordinates for each item, if they are
/// single-precision numbers that are packed there.
pub open spec fn reads_packed2(doc: gltf::Gltf, primitive: int, r: Option<Seq<[u32; 2]>>) -> bool {
    packed_in_blob(doc, primitive, Attribute::Uv, 8) matches Some(p) ==> p.component == FLOAT ==> (
    r matches Some(items) && {
        &&& items.len() == p.count
        &&& forall|k: int, c: int|
            0 <= k < p.count && 0 <= c < 2 ==> is_read(
                p.blob,
                p.start + 8 * k + 4 * c,
                #[trigger] items[k][c],
            )
    })
}

/// `r` is read from the blob if the indices have four bytes and are packed there.
pub open spec fn reads_packed_indices(
    doc: gltf::Gltf,
    primitive: int,
    r: Option<Seq<u32>>,
) -> bool {
    packed_in_blob(doc, primitive, Attribute::Indices, 4) matches Some(p) ==> p.component
        == UNSIGNED_INT ==> (r matches Some(items) && {
        &&& items.len() == p.count
        &&& forall|k: int|
            0 <= k < p.count ==> #[trigger] items[k] == le_number(p.blob, p.start + 4 * k)
    })
}

/// `gltf::Gltf::from_slice_without_validation`: parses a document. The outcome
/// is a function of the bytes. A binary header whose length is shorter than the
/// header makes it compute below zero, so such bytes are left out. A sound file
/// that holds a mesh is parsed, and its positions have an accessor.
#[verifier::external_body]
fn load_gltf(bytes: &[u8]) -> (r: Result<gltf::Gltf, gltf::Error>)
    requires
        sane_header(bytes@),
    ensures
        r == gltf_load(bytes@),
        loads_written(bytes@, r),
{
    gltf::Gltf::from_slice_without_validation(bytes)
}

/// `gltf::Document::accessors`: how many accessors the document declares.
#[verifier::external_body]
fn accessor_count(doc: &gltf::Gltf) -> (r: usize)
    ensures
        r == gltf_accessors(*doc),
{
    doc.accessors().len()
}

/// `gltf::json::mesh::Primitive::attributes`, for each primitive of each mesh
/// of `gltf::Document::as_json`: the number of the accessor of its positions.
#[verifier::external_body]
fn position_accessors(doc: &gltf::Gltf) -> (r: Vec<Vec<Option<usize>>>)
    ensures
        r@.len() == gltf_position_accessors(*doc).len(),
        forall|m: int|
            0 <= m < r@.len() ==> (#[trigger] r@[m])@ == gltf_position_accessors(*doc)[m],
{
    let key = gltf::json::validation::Checked::Valid(gltf::json::mesh::Semantic::Positions);
    doc.as_json().meshes.iter().map(
        |mesh| mesh.primitives.iter().map(
            |part| part.attributes.get(&key).map(|index| index.value()),
        ).collect(),
    ).collect()
}

/// `gltf::Gltf::from_slice`: parses and validates a document. The outcome is a
/// function of the bytes. Validation looks up the accessor of each primitive's
/// positions without a test, so documents that lack one are left out, as are
/// bytes whose header cannot be read. A sound file that holds a mesh is valid,
/// and the document says what its JSON says.
#[verifier::external_body]
pub(crate) fn parse_gltf(bytes: &[u8]) -> (r: Result<gltf::Gltf, gltf::Error>)
    requires
        parsable(bytes@),
    ensures
        r == gltf_parse(bytes@),
        parses_written(bytes@, r),
{
    gltf::Gltf::from_slice(bytes)
}

/// The text of a parse error, by the `Display` of `gltf::Error`. Where the
/// error comes from reading, it is the wording of the operating system, so
/// nothing is said of it.
#[verifier::external_body]
pub(crate) fn gltf_error_text(error: &gltf::Error) -> String {
    format!("{}", error)
}

/// `detail` is a text that the parse error can have.
pub closed spec fn gltf_error_says(error: gltf::Error, detail: Seq<char>) -> bool {
    exists|text: String| #[trigger]
        call_ensures(gltf_error_text, (&error,), text) && text@ == detail
}

/// A text that was taken from a parse error is one that it can have.
pub(crate) proof fn lemma_error_says(error: gltf::Error, text: String)
    requires
        call_ensures(gltf_error_text, (&error,), text),
    ensures
        gltf_error_says(error, text@),
{
}

/// `gltf::Gltf::blob`: whether the document has an embedded binary chunk.
#[verifier::external_body]
pub(crate) fn has_blob(doc: &gltf::Gltf) -> (r: bool)
    requires
        validated(*doc),
    ensures
        r == (gltf_blob(*doc) is Some),
{
    doc.blob.is_some()
}

/// `gltf::Document::skins`: how many skins the document declares.
#[verifier::external_body]
pub(crate) fn skin_count(doc: &gltf::Gltf) -> (r: usize)
    requires
        validated(*doc),
    ensures
        r == gltf_skins(*doc),
{
    doc.skins().len()
}

/// `gltf::Document::animations`: how many animations the document declares.
#[verifier::external_body]
pub(crate) fn animation_count(doc: &gltf::Gltf) -> (r: usize)
    requires
        validated(*doc),
    ensures
        r == gltf_animations(*doc),
{
    doc.animations().len()
}

/// `gltf::Document::meshes`: how many meshes the document declares.
#[verifier::external_body]
pub(crate) fn mesh_count(doc: &gltf::Gltf) -> (r: usize)
    requires
        validated(*doc),
    ensures
        r == gltf_meshes(*doc),
{
    doc.meshes().len()
}

/// `gltf::Mesh::primitives`: how many primitives the first mesh has.
#[verifier::external_body]
pub(crate) fn primitive_count(doc: &gltf::Gltf) -> (r: usize)
    requires
        validated(*doc),
        gltf_meshes(*doc) >= 1,
    ensures
        r == gltf_primitives(*doc),
{
    doc.meshes().next().map(|mesh| mesh.primitives().len()).unwrap_or_default()
}

/// `gltf::Primitive::get` and `indices`: the layout of an accessor.
#[verifier::external_body]
pub(crate) fn accessor_layout(doc: &gltf::Gltf, primitive: usize, which: Attribute) -> (r: Option<
    AccessorLayout,
>)
    requires
        validated(*doc),
        gltf_meshes(*doc) >= 1,
        primitive < gltf_primitives(*doc),
    ensures
        r == gltf_accessor(*doc, primitive as int, which),
{
    let part = doc.meshes().next()?.primitives().nth(primitive)?;
    let a = match which {
        Attribute::Position => part.get(&gltf::Semantic::Positions),
        Attribute::Normal => part.get(&gltf::Semantic::Normals),
        Attribute::Uv => part.get(&gltf::Semantic::TexCoords(0)),
        Attribute::Indices => part.indices(),
    }?;
    let view = a.view().map(
        |v| ViewLayout { offset: v.offset(), length: v.length(), stride: v.stride() },
    );
    let (component, size) = (a.data_type().as_gl_enum(), a.size());
    Some(AccessorLayout { index: a.index(), component, size, count: a.count(), offset: a.offset(), view })
}

/// `gltf::Accessor::sparse`: the layout of the substituted items.
#[verifier::external_body]
pub(crate) fn sparse_layout(doc: &gltf::Gltf, accessor: usize) -> (r: Option<SparseLayout>)
    requires
        validated(*doc),
    ensures
        r == gltf_sparse(*doc, accessor as int),
{
    let s = doc.accessors().nth(accessor)?.sparse()?;
    let (i, v) = (s.indices(), s.values());
    let (at, of) = (i.view(), v.view());
    let index_view = ViewLayout { offset: at.offset(), length: at.length(), stride: at.stride() };
    let value_view = ViewLayout { offset: of.offset(), length: of.length(), stride: of.stride() };
    Some(
        SparseLayout {
            count: s.count(), index_size: i.index_type().size(), index_offset: i.offset(),
            index_view, value_offset: v.offset(), value_view,
        },
    )
}

/// `gltf::mesh::Reader::read_positions` on the document's blob. The bits of
/// each number are kept. Items that stand one behind the other in the blob are
/// read from there.
#[verifier::external_body]
pub(crate) fn read_positions(doc: &gltf::Gltf, primitive: usize) -> (r: Option<Vec<Bits3>>)
    requires
        validated(*doc),
        gltf_meshes(*doc) >= 1,
        primitive < gltf_primitives(*doc),
        clean(*doc, primitive as int, Attribute::Position),
    ensures
        match r {
            Some(items) => gltf_positions(*doc, primitive as int) == Some(items@),
            None => gltf_positions(*doc, primitive as int) is None,
        },
        reads_packed3(*doc, primitive as int, Attribute::Position, items(r)),
{
    let part = doc.meshes().next()?.primitives().nth(primitive)?;
    let reader = part.reader(|_| doc.blob.as_deref());
    Some(reader.read_positions()?.map(bytemuck::cast).collect())
}

/// `gltf::mesh::Reader::read_normals` on the document's blob. The bits of each
/// number are kept. Items that stand one behind the other in the blob are read
/// from there.
#[verifier::external_body]
pub(crate) fn read_normals(doc: &gltf::Gltf, primitive: usize) -> (r: Option<Vec<Bits3>>)
    requires
        validated(*doc),
        gltf_meshes(*doc) >= 1,
        primitive < gltf_primitives(*doc),
        clean(*doc, primitive as int, Attribute::Normal),
    ensures
        match r {
            Some(items) => gltf_normals(*doc, primitive as int) == Some(items@),
            None => gltf_normals(*doc, primitive as int) is None,
        },
        reads_packed3(*doc, primitive as int, Attribute::Normal, items(r)),
{
    let part = doc.meshes().next()?.primitives().nth(primitive)?;
    let reader = part.reader(|_| doc.blob.as_deref());
    Some(reader.read_normals()?.map(bytemuck::cast).collect())
}

/// `gltf::mesh::Reader::read_tex_coords` for set 0 on the document's blob, as
/// single-precision numbers whose bits are kept. Such numbers that stand one
/// behind the other in the blob are read from there.
#[verifier::external_body]
pub(crate) fn read_uvs(doc: &gltf::Gltf, primitive: usize) -> (r: Option<Vec<[u32; 2]>>)
    requires
        validated(*doc),
        gltf_meshes(*doc) >= 1,
        primitive < gltf_primitives(*doc),
        clean(*doc, primitive as int, Attribute::Uv),
    ensures
        match r {
            Some(items) => gltf_uvs(*doc, primitive as int) == Some(items@),
            None => gltf_uvs(*doc, primitive as int) is None,
        },
        reads_packed2(*doc, primitive as int, items(r)),
{
    let part = doc.meshes().next()?.primitives().nth(primitive)?;
    let reader = part.reader(|_| doc.blob.as_deref());
    Some(reader.read_tex_coords(0)?.into_f32().map(bytemuck::cast).collect())
}

/// `gltf::mesh::Reader::read_indices` on the document's blob, widened. Indices of
/// four bytes that stand one behind the other in the blob are read from there.
#[verifier::external_body]
pub(crate) fn read_indices(doc: &gltf::Gltf, primitive: usize) -> (r: Option<Vec<u32>>)
    requires
        validated(*doc),
        gltf_meshes(*doc) >= 1,
        primitive < gltf_primitives(*doc),
        clean(*doc, primitive as int, Attribute::Indices),
    ensures
        match r {
            Some(items) => gltf_indices(*doc, primitive as int) == Some(items@),
            None => gltf_indices(*doc, primitive as int) is None,
        },
        reads_packed_indices(*doc, primitive as int, items(r)),
{
    let part = doc.meshes().next()?.primitives().nth(primitive)?;
    let reader = part.reader(|_| doc.blob.as_deref());
    Some(reader.read_indices()?.into_u32().collect())
}

/// `gltf::Material::name` of the primitive's material.
#[verifier::external_body]
pub(crate) fn material_name(doc: &gltf::Gltf, primitive: usize) -> (r: Option<String>)
    requires
        validated(*doc),
        gltf_meshes(*doc) >= 1,
        primitive < gltf_primitives(*doc),
    ensures
        match r {
            Some(name) => gltf_material_name(*doc, primitive as int) == Some(name@),
            None => gltf_material_name(*doc, primitive as int) is None,
        },
{
    let part = doc.meshes().next()?.primitives().nth(primitive)?;
    part.material().name().map(|name| name.to_owned())
}

/// Whether the items can be walked.
fn is_walkable(count: usize, offset: usize, view: &ViewLayout, item: usize) -> (r: bool)
    ensures
        r == walkable(count, offset, *view, item as int),
{
    let stride = match view.stride {
        Some(stride) => stride,
        None => item,
    };
    if count == 0 || stride < item {
        return false;
    }
    let span = match stride.checked_mul(count - 1) {
        Some(span) => span,
        None => {
            return false;
        },
    };
    let last = match offset.checked_add(span) {
        Some(last) => last,
        None => {
            return false;
        },
    };
    last.checked_add(item).is_some() && view.offset.checked_add(view.length).is_some()
}

/// Whether reading an attribute does not panic.
pub(crate) fn is_clean(doc: &gltf::Gltf, primitive: usize, which: Attribute) -> (r: bool)
    requires
        validated(*doc),
        gltf_meshes(*doc) >= 1,
        primitive < gltf_primitives(*doc),
    ensures
        r == clean(*doc, primitive as int, which),
{
    let layout = match accessor_layout(doc, primitive, which) {
        Some(layout) => layout,
        None => {
            return true;
        },
    };
    let c = layout.component;
    let item: usize = match which {
        Attribute::Position | Attribute::Normal => 12,
        Attribute::Uv => if c == UNSIGNED_BYTE {
            2
        } else if c == UNSIGNED_SHORT {
            4
        } else if c == FLOAT {
            8
        } else {
            return false;
        },
        Attribute::Indices => if c == UNSIGNED_BYTE {
            1
        } else if c == UNSIGNED_SHORT {
            2
        } else if c == UNSIGNED_INT {
            4
        } else {
            return false;
        },
    };
    let sparse = sparse_layout(doc, layout.index);
    let base_ok = match &layout.view {
        Some(view) => is_walkable(layout.count, layout.offset, view, item),
        None => true,
    };
    base_ok && match &sparse {
        Some(s) => layout.count as u64 <= u32::MAX as u64 && is_walkable(
            s.count,
            s.index_offset,
            &s.index_view,
            s.index_size,
        ) && is_walkable(s.count, s.value_offset, &s.value_view, item),
        None => layout.size == item,
    }
}

/// Whether the accessors are there.
fn all_there(named: &Vec<Option<usize>>, accessors: usize) -> (r: bool)
    ensures
        r == forall|i: int|
            0 <= i < named@.len() ==> is_there(#[trigger] named@[i], accessors as nat),
{
    let mut i: usize = 0;
    while i < named.len()
        invariant
            i <= named@.len(),
            forall|j: int| 0 <= j < i ==> is_there(#[trigger] named@[j], accessors as nat),
        decreases named@.len() - i,
    {
        match named[i] {
            Some(index) => if index >= accessors {
                assert(!is_there(named@[i as int], accessors as nat));
                return false;
            },
            None => {},
        }
        i += 1;
    }
    true
}

/// Whether every accessor that a primitive names for its positions is there.
fn has_positions(doc: &gltf::Gltf) -> (r: bool)
    ensures
        r == positions_are_there(*doc),
{
    let accessors = accessor_count(doc);
    let named = position_accessors(doc);
    let ghost shown = gltf_position_accessors(*doc);
    let mut m: usize = 0;
    while m < named.len()
        invariant
            m <= named@.len() == shown.len(),
            accessors == gltf_accessors(*doc),
            shown == gltf_position_accessors(*doc),
            forall|k: int| 0 <= k < named@.len() ==> (#[trigger] named@[k])@ == shown[k],
            forall|k: int, i: int|
                0 <= k < m && 0 <= i < shown[k].len() ==> is_there(
                    #[trigger] shown[k][i],
                    accessors as nat,
                ),
        decreases named@.len() - m,
    {
        if !all_there(&named[m], accessors) {
            proof {
                let bad = choose|i: int|
                    0 <= i < named@[m as int]@.len() && !is_there(
                        #[trigger] named@[m as int]@[i],
                        accessors as nat,
                    );
                assert(!is_there(shown[m as int][bad], accessors as nat));
            }
            return false;
        }
        assert forall|i: int| 0 <= i < shown[m as int].len() implies is_there(
            #[trigger] shown[m as int][i],
            accessors as nat,
        ) by {
            assert(named@[m as int]@[i] == shown[m as int][i]);
        }
        m += 1;
    }
    true
}

/// Whether bytes can be parsed and validated.
pub(crate) fn is_parsable(bytes: &[u8]) -> (r: bool)
    ensures
        r == parsable(bytes@),
        forall|parts: GlbParts| bytes@ == #[trigger] glb(parts) && is_sound(parts) ==> r,
{
    proof {
        assert forall|parts: GlbParts|
            bytes@ == #[trigger] glb(parts) && is_sound(parts) implies sane_header(bytes@) by {
            law_glb_is_well_framed(parts);
        }
    }
    if !has_sane_header(bytes) {
        return false;
    }
    match load_gltf(bytes) {
        Ok(doc) => has_positions(&doc),
        Err(_) => true,
    }
}

/// Whether a binary header, if there is one, counts at least itself.
fn has_sane_header(bytes: &[u8]) -> (r: bool)
    ensures
        r == sane_header(bytes@),
{
    if bytes.len() >= 12 && bytes[0] == 0x67 && bytes[1] == 0x6c && bytes[2] == 0x54 && bytes[3]
        == 0x46 {
        bytes[11] > 0 || bytes[10] > 0 || bytes[9] > 0 || bytes[8] >= 12
    } else {
        true
    }
}

} // verus!
