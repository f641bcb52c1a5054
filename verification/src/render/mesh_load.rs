//! Loading a mesh from the bytes of a binary glTF file.

use super::float_bits::{is_nan, Bits3};
use super::glb::{
    encode_glb_u32, glb, is_sound, law_chunks_hold_the_mesh, law_written_meshes_load_back, lemma_chunk_size,
    parts32, written, GlbParts,
};
use super::gltf_file::{
    animation_count, clean, gltf_animations, gltf_blob, gltf_indices, gltf_material_name,
    gltf_meshes, gltf_normals, gltf_parse, gltf_positions, gltf_primitives, gltf_skins, gltf_uvs,
    has_blob, is_clean, is_parsable, material_name, mesh_count, parsable, parse_gltf,
    clean_layout, describes, gltf_accessor, gltf_sparse, primitive_count, read_indices, read_normals, read_positions, read_uvs,
    reads_packed2, reads_packed3, reads_packed_indices, skin_count, validated, walkable, written_layout,
    Attribute, ViewLayout,
};
use super::mesh::{
    box_around, box_around_all, check_file, gltf_frame, is_complete, is_made_of, is_point, decoded,
    file_fault, has_coordinate, law_box_is_the_smallest, lemma_decoded, lemma_decoded_len,
    lemma_fault_stays, mesh_outcome, primitive_fault, repacked, DecodedMesh,
    MeshBuilder, MeshFault, MeshLoadError, MeshView, PosNormalUv, PrimitiveView, RawPrimitive,
    RawView,
};
use super::mesh_primitives::PrimitiveMesh;
use vstd::prelude::*;

verus! {

/// The vertex data of a primitive of the document's first mesh.
pub open spec fn raw_of(doc: gltf::Gltf, primitive: int) -> RawView {
    RawView {
        positions: gltf_positions(doc, primitive),
        normals: gltf_normals(doc, primitive),
        uvs: gltf_uvs(doc, primitive),
        indices: gltf_indices(doc, primitive),
        material_name: gltf_material_name(doc, primitive),
    }
}

/// The vertex data of all primitives of the document's first mesh.
pub open spec fn raws_of(doc: gltf::Gltf) -> Seq<RawView> {
    Seq::new(gltf_primitives(doc), |i: int| raw_of(doc, i))
}

/// What is wrong with the document as a whole, if anything.
pub open spec fn document_fault(doc: gltf::Gltf) -> Option<MeshFault> {
    file_fault(
        gltf_blob(doc) is Some,
        gltf_skins(doc),
        gltf_animations(doc),
        gltf_meshes(doc),
        gltf_primitives(doc),
    )
}

/// What a document decodes to.
pub open spec fn document_outcome(doc: gltf::Gltf) -> Result<MeshView, MeshFault> {
    mesh_outcome(document_fault(doc), raws_of(doc))
}

/// Every attribute of a primitive that is read can be read: an attribute
/// behind a faulty one is not.
pub open spec fn clean_primitive(doc: gltf::Gltf, i: int) -> bool {
    &&& clean(doc, i, Attribute::Position)
    &&& gltf_positions(doc, i) matches Some(positions) ==> positions.len() > 0 ==> {
        &&& clean(doc, i, Attribute::Normal)
        &&& gltf_normals(doc, i) matches Some(normals) ==> normals.len() == positions.len() ==> {
            &&& clean(doc, i, Attribute::Uv)
            &&& gltf_uvs(doc, i) matches Some(uvs) ==> uvs.len() == positions.len() ==> clean(
                doc,
                i,
                Attribute::Indices,
            )
        }
    }
}

/// Every primitive from `i` on that is read can be read: a primitive behind a
/// faulty one is not.
pub open spec fn clean_from(doc: gltf::Gltf, i: int) -> bool
    decreases gltf_primitives(doc) - i,
{
    i < gltf_primitives(doc) ==> {
        &&& clean_primitive(doc, i)
        &&& primitive_fault(raw_of(doc, i)) is None ==> clean_from(doc, i + 1)
    }
}

/// A document that can be decoded without running into a malformed accessor.
pub open spec fn readable(doc: gltf::Gltf) -> bool {
    document_fault(doc) is None ==> clean_from(doc, 0)
}

/// Bytes that can be decoded, to a mesh or to an error.
pub open spec fn decodable(bytes: Seq<u8>) -> bool {
    &&& parsable(bytes)
    &&& gltf_parse(bytes) matches Ok(doc) ==> readable(doc)
}

/// What some bytes decode to.
pub open spec fn gltf_outcome(bytes: Seq<u8>) -> Result<MeshView, MeshFault> {
    match gltf_parse(bytes) {
        Ok(doc) => document_outcome(doc),
        Err(e) => Err(MeshFault::Parse(e)),
    }
}

/// What is packed in the blob was read from there, for each attribute of a
/// primitive up to a faulty one.
pub open spec fn is_read_from_blob(doc: gltf::Gltf, i: int) -> bool {
    &&& reads_packed3(doc, i, Attribute::Position, gltf_positions(doc, i))
    &&& gltf_positions(doc, i) matches Some(positions) ==> positions.len() > 0 ==> {
        &&& reads_packed3(doc, i, Attribute::Normal, gltf_normals(doc, i))
        &&& gltf_normals(doc, i) matches Some(normals) ==> normals.len() == positions.len() ==> {
            &&& reads_packed2(doc, i, gltf_uvs(doc, i))
            &&& gltf_uvs(doc, i) matches Some(uvs) ==> uvs.len() == positions.len()
                ==> reads_packed_indices(doc, i, gltf_indices(doc, i))
        }
    }
}

/// Reads the vertex data of a primitive, up to a faulty attribute.
fn read_primitive(doc: &gltf::Gltf, i: usize) -> (r: RawPrimitive)
    requires
        validated(*doc),
        gltf_meshes(*doc) >= 1,
        i < gltf_primitives(*doc),
        clean_primitive(*doc, i as int),
    ensures
        primitive_fault(r@) == primitive_fault(raw_of(*doc, i as int)),
        primitive_fault(r@) is None ==> r@ == raw_of(*doc, i as int),
        is_read_from_blob(*doc, i as int),
{
    let mut raw = RawPrimitive {
        positions: read_positions(doc, i),
        normals: None,
        uvs: None,
        indices: None,
        material_name: None,
    };
    let n = match &raw.positions {
        Some(positions) => positions.len(),
        None => 0,
    };
    if n == 0 {
        return raw;
    }
    raw.normals = read_normals(doc, i);
    let matching = match &raw.normals {
        Some(normals) => normals.len() == n,
        None => false,
    };
    if !matching {
        return raw;
    }
    raw.uvs = read_uvs(doc, i);
    let matching = match &raw.uvs {
        Some(uvs) => uvs.len() == n,
        None => false,
    };
    if !matching {
        return raw;
    }
    raw.indices = read_indices(doc, i);
    raw.material_name = material_name(doc, i);
    raw
}

/// Whether every attribute of a primitive that would be read can be read.
fn is_clean_primitive(doc: &gltf::Gltf, i: usize) -> (r: bool)
    requires
        validated(*doc),
        gltf_meshes(*doc) >= 1,
        i < gltf_primitives(*doc),
    ensures
        r == clean_primitive(*doc, i as int),
{
    if !is_clean(doc, i, Attribute::Position) {
        return false;
    }
    let n = match read_positions(doc, i) {
        Some(positions) => positions.len(),
        None => 0,
    };
    if n == 0 {
        return true;
    }
    if !is_clean(doc, i, Attribute::Normal) {
        return false;
    }
    match read_normals(doc, i) {
        Some(normals) => if normals.len() != n {
            return true;
        },
        None => {
            return true;
        },
    }
    if !is_clean(doc, i, Attribute::Uv) {
        return false;
    }
    match read_uvs(doc, i) {
        Some(uvs) => if uvs.len() != n {
            return true;
        },
        None => {
            return true;
        },
    }
    is_clean(doc, i, Attribute::Indices)
}

/// The number of primitives of a document with exactly one mesh, else zero.
fn count_primitives(doc: &gltf::Gltf, meshes: usize) -> (r: usize)
    requires
        validated(*doc),
        meshes == gltf_meshes(*doc),
    ensures
        meshes == 1 ==> r == gltf_primitives(*doc),
{
    if meshes == 1 {
        primitive_count(doc)
    } else {
        0
    }
}

/// Looks for a fault of the document as a whole.
fn check_document(doc: &gltf::Gltf) -> (r: Option<MeshLoadError>)
    requires
        validated(*doc),
    ensures
        match r {
            Some(e) => document_fault(*doc) == Some(e@),
            None => document_fault(*doc) is None,
        },
{
    let meshes = mesh_count(doc);
    check_file(
        has_blob(doc),
        skin_count(doc),
        animation_count(doc),
        meshes,
        count_primitives(doc, meshes),
    )
}

/// Whether a document can be decoded without running into a malformed
/// accessor.
fn is_readable(doc: &gltf::Gltf) -> (r: bool)
    requires
        validated(*doc),
    ensures
        r == readable(*doc),
{
    match check_document(doc) {
        Some(_) => {
            return true;
        },
        None => {},
    }
    let n = primitive_count(doc);
    let mut i: usize = 0;
    while i < n
        invariant
            i <= n == gltf_primitives(*doc),
            validated(*doc),
            gltf_meshes(*doc) >= 1,
            document_fault(*doc) is None,
            clean_from(*doc, 0) == clean_from(*doc, i as int),
        decreases n - i,
    {
        if !is_clean_primitive(doc, i) {
            return false;
        }
        let raw = read_primitive(doc, i);
        if super::mesh::decode_primitive(raw).is_err() {
            return true;
        }
        i += 1;
    }
    true
}

/// Decodes a parsed document.
fn decode_document(doc: &gltf::Gltf) -> (r: Result<DecodedMesh, MeshLoadError>)
    requires
        validated(*doc),
        readable(*doc),
    ensures
        match r {
            Ok(mesh) => document_outcome(*doc) == Ok::<MeshView, MeshFault>(mesh@),
            Err(e) => document_outcome(*doc) == Err::<MeshView, MeshFault>(e@),
        },
        document_fault(*doc) is None ==> is_read_from_blob(*doc, 0),
{
    match check_document(doc) {
        Some(e) => {
            return Err(e);
        },
        None => {},
    }
    let ghost raws = raws_of(*doc);
    let n = primitive_count(doc);
    let mut builder = MeshBuilder::new();
    let mut i: usize = 0;
    let ghost mut done: Seq<PrimitiveView> = Seq::empty();
    while i < n
        invariant
            i <= n == gltf_primitives(*doc),
            n > 0,
            validated(*doc),
            gltf_meshes(*doc) >= 1,
            document_fault(*doc) is None,
            clean_from(*doc, i as int),
            raws == raws_of(*doc),
            i > 0 ==> is_read_from_blob(*doc, 0),
            builder.holds(done),
            decoded(raws.take(i as int)) == Ok::<Seq<PrimitiveView>, MeshFault>(done),
        decreases n - i,
    {
        let raw = read_primitive(doc, i);
        assert(raws.take(i + 1).drop_last() =~= raws.take(i as int));
        assert(raws.take(i + 1).last() == raw_of(*doc, i as int));
        match builder.add(raw, Ghost(done)) {
            Ok(more) => {
                builder = more;
                proof {
                    done = done.push(repacked(raw@));
                }
            },
            Err(e) => {
                proof {
                    lemma_fault_stays(raws, i + 1);
                }
                return Err(e);
            },
        }
        i += 1;
    }
    proof {
        assert(raws.take(i as int) =~= raws);
        lemma_decoded_len(raws);
    }
    Ok(builder.finish(Ghost(done)))
}

/// No coordinate of the vertices is a NaN.
pub open spec fn is_numeric(vertices: Seq<PosNormalUv>) -> bool {
    forall|i: int|
        0 <= i < vertices.len() ==> {
            &&& is_point((#[trigger] vertices[i]).position)
            &&& is_point(vertices[i].normal)
            &&& !is_nan(vertices[i].uv[0]) && !is_nan(vertices[i].uv[1])
        }
}

/// The bytes are a sound file that holds the mesh, which has vertices and indices
/// and is numeric.
pub open spec fn is_file_of(
    bytes: Seq<u8>,
    vertices: Seq<PosNormalUv>,
    indices: Seq<u32>,
) -> bool {
    &&& vertices.len() > 0
    &&& indices.len() > 0
    &&& is_numeric(vertices)
    &&& exists|label: Seq<char>, pos_min: Seq<char>, pos_max: Seq<char>|
        {
            &&& bytes == glb(#[trigger] parts32(label, vertices, indices, pos_min, pos_max))
            &&& is_sound(parts32(label, vertices, indices, pos_min, pos_max))
        }
}

/// The mesh with the given vertices and indices.
pub open spec fn whole_mesh(vertices: Seq<PosNormalUv>, indices: Seq<u32>) -> MeshView {
    MeshView {
        primitives: seq![PrimitiveView { vertices, indices, material_name: None }],
        bounds: box_around(vertices),
    }
}

proof fn lemma_tight_is_walkable(count: usize, view: ViewLayout, item: int)
    requires
        count >= 1,
        view.stride is None,
        item * count <= usize::MAX,
        view.offset + view.length <= usize::MAX,
    ensures
        walkable(count, 0, view, item),
{
    assert(item * (count - 1) + item == item * count) by (nonlinear_arith);
}

/// The parts of a file that holds a mesh.
proof fn lemma_parts_of(bytes: Seq<u8>, vertices: Seq<PosNormalUv>, indices: Seq<u32>) -> (parts:
    GlbParts)
    requires
        is_file_of(bytes, vertices, indices),
    ensures
        bytes == glb(parts),
        is_sound(parts),
        parts.vertices.len() > 0,
        parts.indices > 0,
{
    let (label, pos_min, pos_max) = choose|
        label: Seq<char>,
        pos_min: Seq<char>,
        pos_max: Seq<char>,
    |
        {
            &&& bytes == glb(#[trigger] parts32(label, vertices, indices, pos_min, pos_max))
            &&& is_sound(parts32(label, vertices, indices, pos_min, pos_max))
        };
    parts32(label, vertices, indices, pos_min, pos_max)
}

/// Every accessor of a sound file that holds a mesh can be read.
proof fn lemma_written_is_readable(doc: gltf::Gltf, parts: GlbParts)
    requires
        describes(doc, parts),
        is_sound(parts),
        parts.vertices.len() > 0,
        parts.indices > 0,
    ensures
        document_fault(doc) is None,
        readable(doc),
{
    lemma_chunk_size(parts);
    assert forall|which: Attribute| clean(doc, 0, which) by {
        assert(gltf_accessor(doc, 0, which) == Some(written_layout(parts, which)));
        let layout = written_layout(parts, which);
        assert(gltf_sparse(doc, layout.index as int) is None);
        lemma_tight_is_walkable(layout.count, layout.view->0, layout.size as int);
        assert(clean_layout(which, layout, None));
    }
    assert(clean_from(doc, 1));
    assert(clean_from(doc, 0));
}

/// The vertex data of a sound file that holds a mesh is read as it was written.
proof fn lemma_written_is_read(
    doc: gltf::Gltf,
    label: Seq<char>,
    vertices: Seq<PosNormalUv>,
    indices: Seq<u32>,
    pos_min: Seq<char>,
    pos_max: Seq<char>,
)
    requires
        describes(doc, parts32(label, vertices, indices, pos_min, pos_max)),
        is_sound(parts32(label, vertices, indices, pos_min, pos_max)),
        vertices.len() > 0,
        indices.len() > 0,
        is_numeric(vertices),
        is_read_from_blob(doc, 0),
    ensures
        raw_of(doc, 0) == written(vertices, indices),
{
    let parts = parts32(label, vertices, indices, pos_min, pos_max);
    let n = vertices.len();
    lemma_chunk_size(parts);
    law_chunks_hold_the_mesh(label, vertices, indices, pos_min, pos_max);
    assert(gltf_accessor(doc, 0, Attribute::Position) == Some(
        written_layout(parts, Attribute::Position),
    ));
    assert(gltf_accessor(doc, 0, Attribute::Normal) == Some(
        written_layout(parts, Attribute::Normal),
    ));
    assert(gltf_accessor(doc, 0, Attribute::Uv) == Some(written_layout(parts, Attribute::Uv)));
    assert(gltf_accessor(doc, 0, Attribute::Indices) == Some(
        written_layout(parts, Attribute::Indices),
    ));
    assert(gltf_sparse(doc, 0) is None && gltf_sparse(doc, 1) is None && gltf_sparse(doc, 2) is None
        && gltf_sparse(doc, 3) is None);
    let back = written(vertices, indices);
    let positions = gltf_positions(doc, 0)->0;
    assert(positions.len() == n);
    assert forall|k: int| 0 <= k < n implies positions[k] == back.positions->0[k] by {
        lemma_numeric_frame(vertices[k].position);
        let there = gltf_frame(vertices[k].position);
        assert(positions[k][0] == there[0]);
        assert(positions[k][1] == there[1]);
        assert(positions[k][2] == there[2]);
        assert(positions[k] =~= there);
    }
    assert(positions =~= back.positions->0);
    let normals = gltf_normals(doc, 0)->0;
    assert(normals.len() == n);
    assert forall|k: int| 0 <= k < n implies normals[k] == back.normals->0[k] by {
        lemma_numeric_frame(vertices[k].normal);
        let there = gltf_frame(vertices[k].normal);
        assert(normals[k][0] == there[0]);
        assert(normals[k][1] == there[1]);
        assert(normals[k][2] == there[2]);
        assert(normals[k] =~= there);
    }
    assert(normals =~= back.normals->0);
    let uvs = gltf_uvs(doc, 0)->0;
    assert(uvs.len() == n);
    assert forall|k: int| 0 <= k < n implies uvs[k] == back.uvs->0[k] by {
        assert(uvs[k][0] == vertices[k].uv[0]);
        assert(uvs[k][1] == vertices[k].uv[1]);
        assert(uvs[k] =~= vertices[k].uv);
    }
    assert(uvs =~= back.uvs->0);
    let read = gltf_indices(doc, 0)->0;
    assert(read =~= indices);
}

/// A point is still one in glTF's frame.
proof fn lemma_numeric_frame(v: Bits3)
    requires
        is_point(v),
    ensures
        is_point(gltf_frame(v)),
{
    let b = v[1];
    assert(((0x7f80_0000u32 < b && b < 0x8000_0000u32) || 0xff80_0000u32 < b) == ((0x7f80_0000u32
        < (b ^ 0x8000_0000u32) && (b ^ 0x8000_0000u32) < 0x8000_0000u32) || 0xff80_0000u32 < (b
        ^ 0x8000_0000u32))) by (bit_vector);
}

/// Decodes the bytes of a binary glTF file. A mesh that was written to a sound
/// file comes back as it was.
pub fn decode_gltf_mesh(bytes: &[u8]) -> (r: Result<DecodedMesh, MeshLoadError>)
    requires
        decodable(bytes@),
    ensures
        match r {
            Ok(mesh) => gltf_outcome(bytes@) == Ok::<MeshView, MeshFault>(mesh@),
            Err(e) => gltf_outcome(bytes@) == Err::<MeshView, MeshFault>(e@),
        },
        forall|vertices: Seq<PosNormalUv>, indices: Seq<u32>| #[trigger]
            is_file_of(bytes@, vertices, indices) ==> (r matches Ok(mesh) && mesh@ == whole_mesh(
                vertices,
                indices,
            )),
{
    match parse_gltf(bytes) {
        Ok(doc) => {
            assert(validated(doc));
            let r = decode_document(&doc);
            proof {
                assert forall|vertices: Seq<PosNormalUv>, indices: Seq<u32>| #[trigger]
                    is_file_of(bytes@, vertices, indices) implies document_outcome(doc) == Ok::<
                    MeshView,
                    MeshFault,
                >(whole_mesh(vertices, indices)) by {
                    let (label, pos_min, pos_max) = choose|
                        label: Seq<char>,
                        pos_min: Seq<char>,
                        pos_max: Seq<char>,
                    |
                        {
                            &&& bytes@ == glb(
                                #[trigger] parts32(label, vertices, indices, pos_min, pos_max),
                            )
                            &&& is_sound(parts32(label, vertices, indices, pos_min, pos_max))
                        };
                    let parts = parts32(label, vertices, indices, pos_min, pos_max);
                    assert(bytes@ == glb(parts));
                    lemma_written_is_readable(doc, parts);
                    lemma_written_is_read(doc, label, vertices, indices, pos_min, pos_max);
                    lemma_reads_back(bytes@, vertices, indices);
                }
            }
            r
        },
        Err(e) => Err(MeshLoadError::Parse(e)),
    }
}

/// Decodes the bytes of a binary glTF file, unless its header or an accessor
/// that would be read is malformed, or the accessor of some positions is not
/// there.
pub fn try_decode_gltf_mesh(bytes: &[u8]) -> (r: Option<Result<DecodedMesh, MeshLoadError>>)
    ensures
        r is Some <==> decodable(bytes@),
        match r {
            Some(Ok(mesh)) => gltf_outcome(bytes@) == Ok::<MeshView, MeshFault>(mesh@),
            Some(Err(e)) => gltf_outcome(bytes@) == Err::<MeshView, MeshFault>(e@),
            None => true,
        },
        forall|vertices: Seq<PosNormalUv>, indices: Seq<u32>| #[trigger]
            is_file_of(bytes@, vertices, indices) ==> (r matches Some(Ok(mesh)) && mesh@
                == whole_mesh(vertices, indices)),
{
    proof {
        assert forall|vertices: Seq<PosNormalUv>, indices: Seq<u32>| #[trigger]
            is_file_of(bytes@, vertices, indices) implies exists|parts: GlbParts|
            bytes@ == #[trigger] glb(parts) && is_sound(parts) by {
            let parts = lemma_parts_of(bytes@, vertices, indices);
            assert(bytes@ == glb(parts));
        }
    }
    if !is_parsable(bytes) {
        return None;
    }
    match parse_gltf(bytes) {
        Ok(doc) => {
            assert(validated(doc));
            proof {
                assert forall|vertices: Seq<PosNormalUv>, indices: Seq<u32>| #[trigger]
                    is_file_of(bytes@, vertices, indices) implies readable(doc) by {
                    let parts = lemma_parts_of(bytes@, vertices, indices);
                    lemma_written_is_readable(doc, parts);
                }
            }
            if !is_readable(&doc) {
                return None;
            }
        },
        Err(_) => {},
    }
    Some(decode_gltf_mesh(bytes))
}

/// The bytes are read as what was written for a mesh: one mesh with one
/// primitive, whose vertex data is that of the mesh.
pub open spec fn reads_back(
    bytes: Seq<u8>,
    vertices: Seq<PosNormalUv>,
    indices: Seq<u32>,
) -> bool {
    &&& gltf_parse(bytes) matches Ok(doc)
    &&& gltf_blob(doc) is Some
    &&& gltf_skins(doc) == 0
    &&& gltf_animations(doc) == 0
    &&& gltf_meshes(doc) == 1
    &&& gltf_primitives(doc) == 1
    &&& raw_of(doc, 0) == written(vertices, indices)
}

/// Bytes that are read as what was written decode to the mesh.
proof fn lemma_reads_back(bytes: Seq<u8>, vertices: Seq<PosNormalUv>, indices: Seq<u32>)
    requires
        vertices.len() > 0,
        reads_back(bytes, vertices, indices),
    ensures
        gltf_outcome(bytes) == Ok::<MeshView, MeshFault>(whole_mesh(vertices, indices)),
{
    let doc = gltf_parse(bytes)->Ok_0;
    law_written_meshes_load_back(vertices, indices);
    let raws = raws_of(doc);
    assert(raws =~= seq![written(vertices, indices)]);
    assert(raws.drop_last() =~= Seq::<RawView>::empty());
    let primitive = PrimitiveView { vertices, indices, material_name: None };
    assert(repacked(written(vertices, indices)) == primitive);
    assert(decoded(raws.drop_last()) == Ok::<Seq<PrimitiveView>, MeshFault>(Seq::empty()));
    assert(Seq::<PrimitiveView>::empty().push(primitive) =~= seq![primitive]);
}

/// A mesh that is written to a file and loaded again is the same mesh: one
/// primitive with the mesh's vertices and indices and no material name, and the
/// smallest box around the vertices. The mesh has vertices and indices and no
/// NaN, the label needs no escape in JSON, and the corners are numbers.
pub proof fn law_files_give_meshes_back(
    label: &str,
    mesh: PrimitiveMesh,
    pos_min: &str,
    pos_max: &str,
    file: Vec<u8>,
    bytes: &[u8],
    loaded: Option<Result<DecodedMesh, MeshLoadError>>,
)
    requires
        mesh.vertices@.len() > 0,
        mesh.indices@.len() > 0,
        is_numeric(mesh.vertices@),
        is_sound(parts32(label@, mesh.vertices@, mesh.indices@, pos_min@, pos_max@)),
        call_ensures(encode_glb_u32, (label, &mesh, pos_min, pos_max), file),
        bytes@ == file@,
        call_ensures(try_decode_gltf_mesh, (bytes,), loaded),
    ensures
        decodable(bytes@),
        loaded matches Some(Ok(back)) && back@ == whole_mesh(mesh.vertices@, mesh.indices@),
        forall|axis: int|
            0 <= axis < 3 ==> has_coordinate(
                mesh.vertices@,
                axis,
                #[trigger] box_around(mesh.vertices@).min[axis],
            ),
        forall|axis: int|
            0 <= axis < 3 ==> has_coordinate(
                mesh.vertices@,
                axis,
                #[trigger] box_around(mesh.vertices@).max[axis],
            ),
{
    let vertices = mesh.vertices@;
    let indices = mesh.indices@;
    assert(file@ == glb(parts32(label@, vertices, indices, pos_min@, pos_max@)));
    assert(is_file_of(bytes@, vertices, indices));
    assert forall|axis: int| 0 <= axis < 3 implies has_coordinate(
        vertices,
        axis,
        #[trigger] box_around(vertices).min[axis],
    ) by {
        law_box_is_the_smallest(vertices, axis);
    }
    assert forall|axis: int| 0 <= axis < 3 implies has_coordinate(
        vertices,
        axis,
        #[trigger] box_around(vertices).max[axis],
    ) by {
        law_box_is_the_smallest(vertices, axis);
    }
}

/// The vertex data that the document has for the primitive, and its material.
pub open spec fn is_primitive_of(doc: gltf::Gltf, k: int, primitive: PrimitiveView) -> bool {
    is_made_of(
        primitive,
        RawView {
            positions: gltf_positions(doc, k),
            normals: gltf_normals(doc, k),
            uvs: gltf_uvs(doc, k),
            indices: gltf_indices(doc, k),
            material_name: gltf_material_name(doc, k),
        },
    )
}

/// A loaded mesh holds what its document holds, primitive by primitive, in the
/// bounds of all of them; only a document with its bytes, one mesh, neither
/// skins nor animations, and one or more primitives is loaded. What is no
/// document is told as such.
pub proof fn law_loaded_meshes_hold_their_document(
    bytes: &[u8],
    r: Option<Result<DecodedMesh, MeshLoadError>>,
)
    requires
        call_ensures(try_decode_gltf_mesh, (bytes,), r),
    ensures
        r matches Some(Ok(mesh)) ==> {
            &&& gltf_parse(bytes@) matches Ok(doc) && {
                &&& gltf_blob(doc) is Some
                &&& gltf_skins(doc) == 0 && gltf_animations(doc) == 0 && gltf_meshes(doc) == 1
                &&& gltf_primitives(doc) > 0
                &&& mesh.primitives@.len() == gltf_primitives(doc)
                &&& forall|k: int|
                    0 <= k < mesh.primitives@.len() ==> is_primitive_of(
                        doc,
                        k,
                        (#[trigger] mesh.primitives@[k])@,
                    )
            }
            &&& mesh.bounds == box_around_all(mesh@.primitives)
        },
        r is Some && gltf_parse(bytes@) is Err ==> (r matches Some(Err(MeshLoadError::Parse(e)))
            && gltf_parse(bytes@) == Err::<gltf::Gltf, gltf::Error>(e)),
        r is Some && gltf_parse(bytes@) is Ok ==> !(r matches Some(Err(MeshLoadError::Parse(_)))),
{
    if let Ok(doc) = gltf_parse(bytes@) {
        let raws = raws_of(doc);
        lemma_decoded(raws);
        match r {
            Some(Ok(mesh)) => {
                let done = mesh@.primitives;
                assert forall|k: int| 0 <= k < mesh.primitives@.len() implies is_primitive_of(
                    doc,
                    k,
                    (#[trigger] mesh.primitives@[k])@,
                ) by {
                    assert(done[k] == mesh.primitives@[k]@);
                    assert(is_made_of(done[k], raws[k]));
                }
            },
            Some(Err(e)) => {
                if document_fault(doc) is None {
                    let k = choose|k: int|
                        #![trigger raws[k]]
                        0 <= k < raws.len() && primitive_fault(raws[k]) == Some(e@)
                            && forall|i: int| 0 <= i < k ==> is_complete(#[trigger] raws[i]);
                    assert(primitive_fault(raws[k]) == Some(e@));
                }
            },
            None => {},
        }
    }
}

} // verus!
