//! Writing meshes as binary glTF.
//!
//! A file holds one mesh with one primitive. Its buffer is four views one
//! behind the other: positions, normals, texture coordinates, indices. The
//! JSON chunk and the binary chunk are both padded to four bytes.

use super::float_bits::{lower_corner, max3, min3, upper_corner, Bits3};
use super::gltf_file::{le_number, UNSIGNED_INT, UNSIGNED_SHORT};
use super::mesh::{
    encloses, gltf_frame, is_point, law_frames_are_inverse, primitive_fault, repacked,
    z_up_to_y_up, Aabb, PosNormalUv, RawView,
};
use super::mesh_primitives::PrimitiveMesh;
use crate::digits::{decimal, push_decimal};
use vstd::prelude::*;
use vstd::utf8::encode_utf8;

verus! {

/// Four bytes, lowest first.
pub open spec fn le32(n: int) -> Seq<u8> {
    seq![
        (n % 0x100) as u8,
        (n / 0x100 % 0x100) as u8,
        (n / 0x1_0000 % 0x100) as u8,
        (n / 0x100_0000 % 0x100) as u8,
    ]
}

/// Two bytes, lowest first.
pub open spec fn le16(n: int) -> Seq<u8> {
    seq![(n % 0x100) as u8, (n / 0x100 % 0x100) as u8]
}

/// The bytes of three coordinates.
pub open spec fn bytes3(v: Bits3) -> Seq<u8> {
    le32(v[0] as int) + le32(v[1] as int) + le32(v[2] as int)
}

/// The bytes of two coordinates.
pub open spec fn bytes2(v: [u32; 2]) -> Seq<u8> {
    le32(v[0] as int) + le32(v[1] as int)
}

/// Every position, in glTF's frame.
pub open spec fn position_bytes(vertices: Seq<PosNormalUv>) -> Seq<u8>
    decreases vertices.len(),
{
    if vertices.len() == 0 {
        Seq::empty()
    } else {
        position_bytes(vertices.drop_last()) + bytes3(gltf_frame(vertices.last().position))
    }
}

/// Every normal, in glTF's frame.
pub open spec fn normal_bytes(vertices: Seq<PosNormalUv>) -> Seq<u8>
    decreases vertices.len(),
{
    if vertices.len() == 0 {
        Seq::empty()
    } else {
        normal_bytes(vertices.drop_last()) + bytes3(gltf_frame(vertices.last().normal))
    }
}

/// Every pair of texture coordinates.
pub open spec fn uv_bytes(vertices: Seq<PosNormalUv>) -> Seq<u8>
    decreases vertices.len(),
{
    if vertices.len() == 0 {
        Seq::empty()
    } else {
        uv_bytes(vertices.drop_last()) + bytes2(vertices.last().uv)
    }
}

/// Every index in four bytes.
pub open spec fn index_bytes32(indices: Seq<u32>) -> Seq<u8>
    decreases indices.len(),
{
    if indices.len() == 0 {
        Seq::empty()
    } else {
        index_bytes32(indices.drop_last()) + le32(indices.last() as int)
    }
}

/// Every index in two bytes.
pub open spec fn index_bytes16(indices: Seq<u32>) -> Seq<u8>
    decreases indices.len(),
{
    if indices.len() == 0 {
        Seq::empty()
    } else {
        index_bytes16(indices.drop_last()) + le16(indices.last() as int)
    }
}

/// How many bytes are missing to a multiple of four.
pub open spec fn padding(len: int) -> int {
    (4 - len % 4) % 4
}

/// `body` filled up to a multiple of four bytes.
#[verifier::opaque]
pub open spec fn padded(body: Seq<u8>, fill: u8) -> Seq<u8> {
    body + Seq::new(padding(body.len() as int) as nat, |k: int| fill)
}

/// The binary chunk before padding.
pub open spec fn buffer(vertices: Seq<PosNormalUv>, index_bytes: Seq<u8>) -> Seq<u8> {
    position_bytes(vertices) + normal_bytes(vertices) + uv_bytes(vertices) + index_bytes
}

/// Asset, scene, node and mesh entries.
#[verifier::opaque]
pub open spec fn json_head(label: Seq<char>) -> Seq<char> {
    "{\"asset\":{\"version\":\"2.0\",\"generator\":\"currawong gen_test_assets\"},\"scene\":0,\"scenes\":[{\"nodes\":[0]}],\"nodes\":[{\"mesh\":0,\"name\":\""@
        + label + "\"}],\"meshes\":[{\"name\":\""@ + label
        + "\",\"primitives\":[{\"attributes\":{\"POSITION\":0,\"NORMAL\":1,\"TEXCOORD_0\":2},\"indices\":3,\"mode\":4}]}],"@
}

/// The four accessors.
#[verifier::opaque]
pub open spec fn json_accessors(
    vertices: nat,
    indices: nat,
    component: nat,
    pos_min: Seq<char>,
    pos_max: Seq<char>,
) -> Seq<char> {
    "\"accessors\":[{\"bufferView\":0,\"componentType\":5126,\"count\":"@ + decimal(vertices)
        + ",\"type\":\"VEC3\",\"min\":"@ + pos_min + ",\"max\":"@ + pos_max
        + "},{\"bufferView\":1,\"componentType\":5126,\"count\":"@ + decimal(vertices)
        + ",\"type\":\"VEC3\"},{\"bufferView\":2,\"componentType\":5126,\"count\":"@ + decimal(
        vertices,
    ) + ",\"type\":\"VEC2\"},{\"bufferView\":3,\"componentType\":"@ + decimal(component)
        + ",\"count\":"@ + decimal(indices) + ",\"type\":\"SCALAR\"}],"@
}

/// One buffer view.
pub open spec fn json_view(offset: nat, length: nat) -> Seq<char> {
    "{\"buffer\":0,\"byteOffset\":"@ + decimal(offset) + ",\"byteLength\":"@ + decimal(length)
        + "}"@
}

/// The four buffer views and the buffer.
#[verifier::opaque]
pub open spec fn json_buffers(positions: nat, normals: nat, uvs: nat, indices: nat) -> Seq<char> {
    "\"bufferViews\":["@ + json_view(0, positions) + ","@ + json_view(positions, normals) + ","@
        + json_view(positions + normals, uvs) + ","@ + json_view(
        positions + normals + uvs,
        indices,
    ) + "],\"buffers\":[{\"byteLength\":"@ + decimal(positions + normals + uvs + indices) + "}]}"@
}

/// What one file is made of.
pub struct GlbParts {
    pub label: Seq<char>,
    pub vertices: Seq<PosNormalUv>,
    pub indices: nat,
    pub component: nat,
    pub index_bytes: Seq<u8>,
    pub pos_min: Seq<char>,
    pub pos_max: Seq<char>,
}

/// The JSON text.
pub open spec fn glb_json(parts: GlbParts) -> Seq<char> {
    json_head(parts.label) + json_accessors(
        parts.vertices.len(),
        parts.indices,
        parts.component,
        parts.pos_min,
        parts.pos_max,
    ) + json_buffers(
        12 * parts.vertices.len(),
        12 * parts.vertices.len(),
        8 * parts.vertices.len(),
        parts.index_bytes.len(),
    )
}

/// The padded JSON chunk.
#[verifier::opaque]
pub open spec fn json_chunk(parts: GlbParts) -> Seq<u8> {
    padded(encode_utf8(glb_json(parts)), 0x20)
}

/// The padded binary chunk.
#[verifier::opaque]
pub open spec fn bin_chunk(parts: GlbParts) -> Seq<u8> {
    padded(buffer(parts.vertices, parts.index_bytes), 0)
}

/// The size of the file.
pub open spec fn glb_size(parts: GlbParts) -> int {
    12 + 8 + json_chunk(parts).len() as int + 8 + bin_chunk(parts).len() as int
}

/// The word `glTF`.
pub open spec fn magic() -> Seq<u8> {
    seq![0x67u8, 0x6c, 0x54, 0x46]
}

/// Header and chunks, one behind the other.
#[verifier::opaque]
pub open spec fn framed(size: int, json: Seq<u8>, bin: Seq<u8>) -> Seq<u8> {
    magic() + le32(2) + le32(size) + le32(json.len() as int) + seq![0x4au8, 0x53, 0x4f, 0x4e] + json
        + le32(bin.len() as int) + seq![0x42u8, 0x49, 0x4e, 0] + bin
}

/// The file.
pub open spec fn glb(parts: GlbParts) -> Seq<u8> {
    framed(glb_size(parts), json_chunk(parts), bin_chunk(parts))
}

fn push_le32(out: &mut Vec<u8>, n: u32)
    ensures
        final(out)@ == old(out)@ + le32(n as int),
{
    out.push((n % 0x100) as u8);
    out.push((n / 0x100 % 0x100) as u8);
    out.push((n / 0x1_0000 % 0x100) as u8);
    out.push((n / 0x100_0000 % 0x100) as u8);
    assert(out@ =~= old(out)@ + le32(n as int));
}

fn push_le16(out: &mut Vec<u8>, n: u32)
    ensures
        final(out)@ == old(out)@ + le16(n as int),
{
    out.push((n % 0x100) as u8);
    out.push((n / 0x100 % 0x100) as u8);
    assert(out@ =~= old(out)@ + le16(n as int));
}

fn push_bytes3(out: &mut Vec<u8>, v: Bits3)
    ensures
        final(out)@ == old(out)@ + bytes3(v),
{
    push_le32(out, v[0]);
    push_le32(out, v[1]);
    push_le32(out, v[2]);
    assert(out@ =~= old(out)@ + bytes3(v));
}

/// Appends `more` to `out`.
fn push_all(out: &mut Vec<u8>, more: &[u8])
    ensures
        final(out)@ == old(out)@ + more@,
{
    let ghost before = out@;
    let mut i: usize = 0;
    while i < more.len()
        invariant
            i <= more@.len(),
            out@ == before + more@.take(i as int),
        decreases more@.len() - i,
    {
        out.push(more[i]);
        i += 1;
        assert(more@.take(i as int) =~= more@.take(i - 1).push(more@[i - 1]));
        assert(out@ =~= before + more@.take(i as int));
    }
    assert(more@.take(i as int) =~= more@);
}

/// Fills `out` up to a multiple of four bytes.
fn pad(out: &mut Vec<u8>, fill: u8)
    ensures
        final(out)@ == padded(old(out)@, fill),
{
    let ghost before = out@;
    let missing = (4 - out.len() % 4) % 4;
    let mut i: usize = 0;
    while i < missing
        invariant
            i <= missing,
            out@ == before + Seq::new(i as nat, |k: int| fill),
        decreases missing - i,
    {
        out.push(fill);
        i += 1;
        assert(out@ =~= before + Seq::new(i as nat, |k: int| fill));
    }
    proof {
        reveal(padded);
        assert(out@ =~= padded(before, fill));
    }
}

fn encode_positions(vertices: &Vec<PosNormalUv>) -> (r: Vec<u8>)
    ensures
        r@ == position_bytes(vertices@),
{
    let mut out: Vec<u8> = Vec::new();
    let mut i: usize = 0;
    while i < vertices.len()
        invariant
            i <= vertices@.len(),
            out@ == position_bytes(vertices@.take(i as int)),
        decreases vertices@.len() - i,
    {
        push_bytes3(&mut out, z_up_to_y_up(vertices[i].position));
        i += 1;
        assert(vertices@.take(i as int).drop_last() =~= vertices@.take(i - 1));
    }
    assert(vertices@.take(i as int) =~= vertices@);
    out
}

fn encode_normals(vertices: &Vec<PosNormalUv>) -> (r: Vec<u8>)
    ensures
        r@ == normal_bytes(vertices@),
{
    let mut out: Vec<u8> = Vec::new();
    let mut i: usize = 0;
    while i < vertices.len()
        invariant
            i <= vertices@.len(),
            out@ == normal_bytes(vertices@.take(i as int)),
        decreases vertices@.len() - i,
    {
        push_bytes3(&mut out, z_up_to_y_up(vertices[i].normal));
        i += 1;
        assert(vertices@.take(i as int).drop_last() =~= vertices@.take(i - 1));
    }
    assert(vertices@.take(i as int) =~= vertices@);
    out
}

fn encode_uvs(vertices: &Vec<PosNormalUv>) -> (r: Vec<u8>)
    ensures
        r@ == uv_bytes(vertices@),
{
    let mut out: Vec<u8> = Vec::new();
    let mut i: usize = 0;
    while i < vertices.len()
        invariant
            i <= vertices@.len(),
            out@ == uv_bytes(vertices@.take(i as int)),
        decreases vertices@.len() - i,
    {
        let ghost before = out@;
        let uv = vertices[i].uv;
        push_le32(&mut out, uv[0]);
        push_le32(&mut out, uv[1]);
        i += 1;
        assert(vertices@.take(i as int).drop_last() =~= vertices@.take(i - 1));
        assert(out@ =~= before + bytes2(uv));
    }
    assert(vertices@.take(i as int) =~= vertices@);
    out
}

/// Every index in four bytes.
fn encode_indices32(indices: &Vec<u32>) -> (r: Vec<u8>)
    ensures
        r@ == index_bytes32(indices@),
{
    let mut out: Vec<u8> = Vec::new();
    let mut i: usize = 0;
    while i < indices.len()
        invariant
            i <= indices@.len(),
            out@ == index_bytes32(indices@.take(i as int)),
        decreases indices@.len() - i,
    {
        push_le32(&mut out, indices[i]);
        i += 1;
        assert(indices@.take(i as int).drop_last() =~= indices@.take(i - 1));
    }
    assert(indices@.take(i as int) =~= indices@);
    out
}

/// Every index in two bytes.
fn encode_indices16(indices: &Vec<u32>) -> (r: Vec<u8>)
    ensures
        r@ == index_bytes16(indices@),
{
    let mut out: Vec<u8> = Vec::new();
    let mut i: usize = 0;
    while i < indices.len()
        invariant
            i <= indices@.len(),
            out@ == index_bytes16(indices@.take(i as int)),
        decreases indices@.len() - i,
    {
        push_le16(&mut out, indices[i]);
        i += 1;
        assert(indices@.take(i as int).drop_last() =~= indices@.take(i - 1));
    }
    assert(indices@.take(i as int) =~= indices@);
    out
}

/// Appends one buffer view.
fn push_view(out: &mut String, offset: usize, length: usize)
    ensures
        final(out)@ == old(out)@ + json_view(offset as nat, length as nat),
{
    out.append("{\"buffer\":0,\"byteOffset\":");
    push_decimal(out, offset as u64);
    out.append(",\"byteLength\":");
    push_decimal(out, length as u64);
    out.append("}");
    assert(out@ =~= old(out)@ + json_view(offset as nat, length as nat));
}

/// Appends the asset, scene, node and mesh entries.
fn push_head(out: &mut String, label: &str)
    ensures
        final(out)@ == old(out)@ + json_head(label@),
{
    out.append(
        "{\"asset\":{\"version\":\"2.0\",\"generator\":\"currawong gen_test_assets\"},\"scene\":0,\"scenes\":[{\"nodes\":[0]}],\"nodes\":[{\"mesh\":0,\"name\":\"",
    );
    out.append(label);
    out.append("\"}],\"meshes\":[{\"name\":\"");
    out.append(label);
    out.append(
        "\",\"primitives\":[{\"attributes\":{\"POSITION\":0,\"NORMAL\":1,\"TEXCOORD_0\":2},\"indices\":3,\"mode\":4}]}],",
    );
    proof {
        reveal(json_head);
        assert(out@ =~= old(out)@ + json_head(label@));
    }
}

/// Appends the accessors.
fn push_accessors(
    out: &mut String,
    vertices: usize,
    indices: usize,
    component: u32,
    pos_min: &str,
    pos_max: &str,
)
    ensures
        final(out)@ == old(out)@ + json_accessors(
            vertices as nat,
            indices as nat,
            component as nat,
            pos_min@,
            pos_max@,
        ),
{
    let ghost before = out@;
    out.append("\"accessors\":[{\"bufferView\":0,\"componentType\":5126,\"count\":");
    push_decimal(out, vertices as u64);
    out.append(",\"type\":\"VEC3\",\"min\":");
    out.append(pos_min);
    out.append(",\"max\":");
    out.append(pos_max);
    out.append("},{\"bufferView\":1,\"componentType\":5126,\"count\":");
    push_decimal(out, vertices as u64);
    out.append(",\"type\":\"VEC3\"},{\"bufferView\":2,\"componentType\":5126,\"count\":");
    push_decimal(out, vertices as u64);
    out.append(",\"type\":\"VEC2\"},{\"bufferView\":3,\"componentType\":");
    push_decimal(out, component as u64);
    out.append(",\"count\":");
    push_decimal(out, indices as u64);
    out.append(",\"type\":\"SCALAR\"}],");
    proof {
        reveal(json_accessors);
        assert(out@ =~= before + json_accessors(
            vertices as nat,
            indices as nat,
            component as nat,
            pos_min@,
            pos_max@,
        ));
    }
}

/// Appends the buffer views and the buffer.
fn push_buffers(out: &mut String, positions: usize, normals: usize, uvs: usize, indices: usize)
    requires
        positions + normals + uvs + indices <= usize::MAX,
    ensures
        final(out)@ == old(out)@ + json_buffers(
            positions as nat,
            normals as nat,
            uvs as nat,
            indices as nat,
        ),
{
    let ghost before = out@;
    out.append("\"bufferViews\":[");
    push_view(out, 0, positions);
    out.append(",");
    push_view(out, positions, normals);
    out.append(",");
    push_view(out, positions + normals, uvs);
    out.append(",");
    push_view(out, positions + normals + uvs, indices);
    out.append("],\"buffers\":[{\"byteLength\":");
    push_decimal(out, (positions + normals + uvs + indices) as u64);
    out.append("}]}");
    proof {
        reveal(json_buffers);
        assert(out@ =~= before + json_buffers(
            positions as nat,
            normals as nat,
            uvs as nat,
            indices as nat,
        ));
    }
}

proof fn lemma_attribute_sizes(vertices: Seq<PosNormalUv>)
    ensures
        position_bytes(vertices).len() == 12 * vertices.len(),
        normal_bytes(vertices).len() == 12 * vertices.len(),
        uv_bytes(vertices).len() == 8 * vertices.len(),
    decreases vertices.len(),
{
    if vertices.len() > 0 {
        lemma_attribute_sizes(vertices.drop_last());
    }
}

/// Writes a mesh whose index bytes and position bounds are given.
pub fn encode_glb_inner(
    label: &str,
    mesh: &PrimitiveMesh,
    index_component_type: u32,
    index_bytes: &[u8],
    pos_min: &str,
    pos_max: &str,
) -> (r: Vec<u8>)
    requires
        glb_size(
            (GlbParts {
                label: label@,
                vertices: mesh.vertices@,
                indices: mesh.indices@.len(),
                component: index_component_type as nat,
                index_bytes: index_bytes@,
                pos_min: pos_min@,
                pos_max: pos_max@,
            }),
        ) <= u32::MAX,
    ensures
        r@ == glb(
            (GlbParts {
                label: label@,
                vertices: mesh.vertices@,
                indices: mesh.indices@.len(),
                component: index_component_type as nat,
                index_bytes: index_bytes@,
                pos_min: pos_min@,
                pos_max: pos_max@,
            }),
        ),
{
    let ghost parts = GlbParts {
        label: label@,
        vertices: mesh.vertices@,
        indices: mesh.indices@.len(),
        component: index_component_type as nat,
        index_bytes: index_bytes@,
        pos_min: pos_min@,
        pos_max: pos_max@,
    };
    proof {
        lemma_attribute_sizes(mesh.vertices@);
        reveal(padded);
        reveal(json_chunk);
        reveal(bin_chunk);
    }
    let positions = encode_positions(&mesh.vertices);
    let normals = encode_normals(&mesh.vertices);
    let uvs = encode_uvs(&mesh.vertices);
    let mut json = String::new();
    push_head(&mut json, label);
    push_accessors(
        &mut json,
        mesh.vertices.len(),
        mesh.indices.len(),
        index_component_type,
        pos_min,
        pos_max,
    );
    push_buffers(&mut json, positions.len(), normals.len(), uvs.len(), index_bytes.len());
    assert(json@ =~= glb_json(parts));
    let mut json_bytes: Vec<u8> = Vec::new();
    push_all(&mut json_bytes, json.as_str().as_bytes());
    assert(json_bytes@ =~= encode_utf8(glb_json(parts)));
    pad(&mut json_bytes, 0x20);
    let mut bin: Vec<u8> = Vec::new();
    push_all(&mut bin, positions.as_slice());
    push_all(&mut bin, normals.as_slice());
    push_all(&mut bin, uvs.as_slice());
    push_all(&mut bin, index_bytes);
    assert(bin@ =~= buffer(mesh.vertices@, index_bytes@));
    pad(&mut bin, 0);
    let total = 12 + 8 + json_bytes.len() + 8 + bin.len();
    let mut out: Vec<u8> = Vec::new();
    out.push(0x67);
    out.push(0x6c);
    out.push(0x54);
    out.push(0x46);
    assert(out@ =~= magic());
    push_le32(&mut out, 2);
    push_le32(&mut out, total as u32);
    push_le32(&mut out, json_bytes.len() as u32);
    let ghost before = out@;
    out.push(0x4a);
    out.push(0x53);
    out.push(0x4f);
    out.push(0x4e);
    assert(out@ =~= before + seq![0x4au8, 0x53, 0x4f, 0x4e]);
    push_all(&mut out, json_bytes.as_slice());
    push_le32(&mut out, bin.len() as u32);
    let ghost before = out@;
    out.push(0x42);
    out.push(0x49);
    out.push(0x4e);
    out.push(0);
    assert(out@ =~= before + seq![0x42u8, 0x49, 0x4e, 0]);
    push_all(&mut out, bin.as_slice());
    proof {
        reveal(framed);
    }
    out
}

/// The parts of a file with four-byte indices.
pub open spec fn parts32(
    label: Seq<char>,
    vertices: Seq<PosNormalUv>,
    indices: Seq<u32>,
    pos_min: Seq<char>,
    pos_max: Seq<char>,
) -> GlbParts {
    GlbParts {
        label,
        vertices,
        indices: indices.len(),
        component: UNSIGNED_INT as nat,
        index_bytes: index_bytes32(indices),
        pos_min,
        pos_max,
    }
}

/// The parts of the unit cube's file, with two-byte indices.
pub open spec fn cube_parts(vertices: Seq<PosNormalUv>, indices: Seq<u32>) -> GlbParts {
    GlbParts {
        label: "cube"@,
        vertices,
        indices: indices.len(),
        component: UNSIGNED_SHORT as nat,
        index_bytes: index_bytes16(indices),
        pos_min: "[-0.500000,-0.500000,-0.500000]"@,
        pos_max: "[0.500000,0.500000,0.500000]"@,
    }
}

/// The box around the positions as they are written.
pub open spec fn written_box(vertices: Seq<PosNormalUv>) -> Aabb
    decreases vertices.len(),
{
    if vertices.len() <= 1 {
        let p = gltf_frame(vertices[0].position);
        Aabb { min: p, max: p }
    } else {
        let front = written_box(vertices.drop_last());
        let p = gltf_frame(vertices.last().position);
        Aabb { min: min3(front.min, p), max: max3(front.max, p) }
    }
}

/// The corners of the box around the positions as they are written.
pub fn position_bounds(mesh: &PrimitiveMesh) -> (r: (Bits3, Bits3))
    requires
        mesh.vertices@.len() > 0,
    ensures
        written_box(mesh.vertices@) == (Aabb { min: r.0, max: r.1 }),
{
    let vertices = &mesh.vertices;
    let mut min = z_up_to_y_up(vertices[0].position);
    let mut max = min;
    let mut i: usize = 1;
    assert(vertices@.take(1)[0] == vertices@[0]);
    while i < vertices.len()
        invariant
            1 <= i <= vertices@.len(),
            written_box(vertices@.take(i as int)) == (Aabb { min, max }),
        decreases vertices@.len() - i,
    {
        let p = z_up_to_y_up(vertices[i].position);
        min = lower_corner(min, p);
        max = upper_corner(max, p);
        assert(vertices@.take(i + 1).drop_last() =~= vertices@.take(i as int));
        i += 1;
    }
    assert(vertices@.take(i as int) =~= vertices@);
    (min, max)
}

/// All characters are digits, and there is one.
pub open spec fn is_digits(text: Seq<char>) -> bool {
    text.len() > 0 && forall|i: int| 0 <= i < text.len() ==> '0' <= #[trigger] text[i] <= '9'
}

/// A number in decimal notation with a fraction, as JSON writes it.
pub open spec fn is_decimal_number(text: Seq<char>) -> bool {
    exists|whole: Seq<char>, fraction: Seq<char>|
        {
            &&& #[trigger] is_digits(whole) && whole.len() <= 40 && (whole.len() > 1 ==> whole[0]
                != '0')
            &&& #[trigger] is_digits(fraction) && fraction.len() <= 40
            &&& text == whole + "."@ + fraction || text == "-"@ + whole + "."@ + fraction
        }
}

/// Three numbers as a JSON array.
pub open spec fn is_corner(text: Seq<char>) -> bool {
    exists|x: Seq<char>, y: Seq<char>, z: Seq<char>|
        {
            &&& #[trigger] is_decimal_number(x)
            &&& #[trigger] is_decimal_number(y)
            &&& #[trigger] is_decimal_number(z)
            &&& text == "["@ + x + ","@ + y + ","@ + z + "]"@
        }
}

/// A text that stands in a JSON string as it is.
pub open spec fn is_plain(text: Seq<char>) -> bool {
    forall|i: int|
        0 <= i < text.len() ==> #[trigger] text[i] as u32 >= 0x20 && text[i] != '"' && text[i]
            != '\\'
}

/// A file with four-byte indices that is well formed: its lengths fit, and its
/// label and corners are what they have to be in JSON.
pub open spec fn is_sound(parts: GlbParts) -> bool {
    &&& glb_size(parts) <= u32::MAX
    &&& is_plain(parts.label)
    &&& is_corner(parts.pos_min)
    &&& is_corner(parts.pos_max)
    &&& parts.component == UNSIGNED_INT
    &&& parts.index_bytes.len() == 4 * parts.indices
}

/// Writes a mesh with four-byte indices. `pos_min` and `pos_max` are the
/// corners of the box around its positions, as JSON arrays.
pub fn encode_glb_u32(label: &str, mesh: &PrimitiveMesh, pos_min: &str, pos_max: &str) -> (r: Vec<
    u8,
>)
    requires
        glb_size(parts32(label@, mesh.vertices@, mesh.indices@, pos_min@, pos_max@)) <= u32::MAX,
    ensures
        r@ == glb(parts32(label@, mesh.vertices@, mesh.indices@, pos_min@, pos_max@)),
{
    let index_bytes = encode_indices32(&mesh.indices);
    encode_glb_inner(label, mesh, UNSIGNED_INT, index_bytes.as_slice(), pos_min, pos_max)
}

/// Writes the unit cube, whose indices fit in two bytes.
pub fn encode_unit_cube_glb(mesh: &PrimitiveMesh) -> (r: Vec<u8>)
    requires
        forall|k: int| 0 <= k < mesh.indices@.len() ==> #[trigger] mesh.indices@[k] <= u16::MAX,
        glb_size(cube_parts(mesh.vertices@, mesh.indices@)) <= u32::MAX,
    ensures
        r@ == glb(cube_parts(mesh.vertices@, mesh.indices@)),
{
    let index_bytes = encode_indices16(&mesh.indices);
    encode_glb_inner(
        "cube",
        mesh,
        UNSIGNED_SHORT,
        index_bytes.as_slice(),
        "[-0.500000,-0.500000,-0.500000]",
        "[0.500000,0.500000,0.500000]",
    )
}

proof fn lemma_le32(n: int)
    requires
        0 <= n <= u32::MAX,
    ensures
        le_number(le32(n), 0) == n,
{
}

/// A number stays readable inside a longer text of bytes.
proof fn lemma_le_inside(a: Seq<u8>, n: int, b: Seq<u8>)
    requires
        0 <= n <= u32::MAX,
    ensures
        le_number(a + le32(n) + b, a.len() as int) == n,
{
    lemma_le32(n);
    let whole = a + le32(n) + b;
    let at = a.len() as int;
    assert(whole[at] == le32(n)[0]);
    assert(whole[at + 1] == le32(n)[1]);
    assert(whole[at + 2] == le32(n)[2]);
    assert(whole[at + 3] == le32(n)[3]);
}

/// A file is framed as the format asks: the header's length is the length of
/// the file, each chunk's length is the length of the chunk, and all of them
/// are multiples of four.
#[verifier::spinoff_prover]
pub proof fn law_glb_is_well_framed(parts: GlbParts)
    requires
        glb_size(parts) <= u32::MAX,
    ensures
        glb(parts).len() == glb_size(parts),
        glb_size(parts) % 4 == 0,
        le_number(glb(parts), 8) == glb_size(parts),
        le_number(glb(parts), 12) == json_chunk(parts).len(),
        json_chunk(parts).len() % 4 == 0,
        glb(parts).subrange(20, 20 + json_chunk(parts).len() as int) == json_chunk(parts),
        le_number(glb(parts), 20 + json_chunk(parts).len() as int) == bin_chunk(parts).len(),
        bin_chunk(parts).len() % 4 == 0,
        glb(parts).skip(28 + json_chunk(parts).len() as int) == bin_chunk(parts),
{
    assert(json_chunk(parts).len() % 4 == 0) by {
        reveal(json_chunk);
        lemma_padded(encode_utf8(glb_json(parts)), 0x20);
    }
    assert(bin_chunk(parts).len() % 4 == 0) by {
        reveal(bin_chunk);
        lemma_padded(buffer(parts.vertices, parts.index_bytes), 0);
    }
    lemma_framed(glb_size(parts), json_chunk(parts), bin_chunk(parts));
}

proof fn lemma_padded(body: Seq<u8>, fill: u8)
    ensures
        padded(body, fill).len() % 4 == 0,
{
    reveal(padded);
}

proof fn lemma_framed(size: int, json: Seq<u8>, bin: Seq<u8>)
    requires
        0 <= size <= u32::MAX,
        json.len() <= u32::MAX,
        bin.len() <= u32::MAX,
    ensures
        framed(size, json, bin).len() == 28 + json.len() + bin.len(),
        le_number(framed(size, json, bin), 8) == size,
        le_number(framed(size, json, bin), 12) == json.len(),
        framed(size, json, bin).subrange(20, 20 + json.len() as int) == json,
        le_number(framed(size, json, bin), 20 + json.len() as int) == bin.len(),
        framed(size, json, bin).skip(28 + json.len() as int) == bin,
{
    reveal(framed);
    let tag = seq![0x4au8, 0x53, 0x4f, 0x4e];
    let end = seq![0x42u8, 0x49, 0x4e, 0];
    let whole = framed(size, json, bin);
    let jl = le32(json.len() as int);
    let bl = le32(bin.len() as int);
    let head = magic() + le32(2);
    assert(head.len() == 8);
    let rest1 = jl + tag + json + bl + end + bin;
    lemma_le_inside(head, size, rest1);
    assert(whole =~= head + le32(size) + rest1);
    let head2 = head + le32(size);
    let rest2 = tag + json + bl + end + bin;
    lemma_le_inside(head2, json.len() as int, rest2);
    assert(whole =~= head2 + jl + rest2);
    let head3 = head2 + jl + tag + json;
    lemma_le_inside(head3, bin.len() as int, end + bin);
    assert(whole =~= head3 + bl + (end + bin));
    assert(whole.subrange(20, 20 + json.len() as int) =~= json);
    assert(whole.skip(28 + json.len() as int) =~= bin);
}

/// The attributes can be read back from their buffer views: each vertex's
/// coordinates stand, in glTF's frame, where the views say.
pub proof fn law_views_hold_the_attributes(vertices: Seq<PosNormalUv>, k: int, c: int)
    requires
        0 <= k < vertices.len(),
        0 <= c < 3,
    ensures
        le_number(position_bytes(vertices), 12 * k + 4 * c) == gltf_frame(vertices[k].position)[c],
        le_number(normal_bytes(vertices), 12 * k + 4 * c) == gltf_frame(vertices[k].normal)[c],
        c < 2 ==> le_number(uv_bytes(vertices), 8 * k + 4 * c) == vertices[k].uv[c],
    decreases vertices.len(),
{
    let front = vertices.drop_last();
    let last = vertices.last();
    lemma_attribute_sizes(front);
    let p = gltf_frame(last.position);
    let n = gltf_frame(last.normal);
    if k < front.len() {
        law_views_hold_the_attributes(front, k, c);
        assert(front[k] == vertices[k]);
        let a = position_bytes(front);
        let b = normal_bytes(front);
        let d = uv_bytes(front);
        let i = 12 * k + 4 * c;
        assert forall|j: int| 0 <= j < 4 implies #[trigger] position_bytes(vertices)[i + j] == a[i
            + j] by {}
        assert(position_bytes(vertices)[i + 0] == a[i + 0]);
        assert(position_bytes(vertices)[i + 1] == a[i + 1]);
        assert(position_bytes(vertices)[i + 2] == a[i + 2]);
        assert(position_bytes(vertices)[i + 3] == a[i + 3]);
        assert(normal_bytes(vertices)[i] == b[i]);
        assert(normal_bytes(vertices)[i + 1] == b[i + 1]);
        assert(normal_bytes(vertices)[i + 2] == b[i + 2]);
        assert(normal_bytes(vertices)[i + 3] == b[i + 3]);
        if c < 2 {
            let u = 8 * k + 4 * c;
            assert(uv_bytes(vertices)[u] == d[u]);
            assert(uv_bytes(vertices)[u + 1] == d[u + 1]);
            assert(uv_bytes(vertices)[u + 2] == d[u + 2]);
            assert(uv_bytes(vertices)[u + 3] == d[u + 3]);
        }
    } else {
        lemma_bytes3(position_bytes(front), p, c);
        lemma_bytes3(normal_bytes(front), n, c);
        if c < 2 {
            lemma_bytes2(uv_bytes(front), last.uv, c);
        }
    }
}

proof fn lemma_bytes3(before: Seq<u8>, v: Bits3, c: int)
    requires
        0 <= c < 3,
    ensures
        le_number(before + bytes3(v), before.len() + 4 * c) == v[c],
{
    let whole = before + bytes3(v);
    if c == 0 {
        lemma_le_inside(before, v[0] as int, le32(v[1] as int) + le32(v[2] as int));
        assert(whole =~= before + le32(v[0] as int) + (le32(v[1] as int) + le32(v[2] as int)));
    } else if c == 1 {
        lemma_le_inside(before + le32(v[0] as int), v[1] as int, le32(v[2] as int));
        assert(whole =~= before + le32(v[0] as int) + le32(v[1] as int) + le32(v[2] as int));
    } else {
        lemma_le_inside(
            before + le32(v[0] as int) + le32(v[1] as int),
            v[2] as int,
            Seq::<u8>::empty(),
        );
        assert(whole =~= before + le32(v[0] as int) + le32(v[1] as int) + le32(v[2] as int)
            + Seq::<u8>::empty());
    }
}

proof fn lemma_bytes2(before: Seq<u8>, v: [u32; 2], c: int)
    requires
        0 <= c < 2,
    ensures
        le_number(before + bytes2(v), before.len() + 4 * c) == v[c],
{
    let whole = before + bytes2(v);
    if c == 0 {
        lemma_le_inside(before, v[0] as int, le32(v[1] as int));
        assert(whole =~= before + le32(v[0] as int) + le32(v[1] as int));
    } else {
        lemma_le_inside(before + le32(v[0] as int), v[1] as int, Seq::<u8>::empty());
        assert(whole =~= before + le32(v[0] as int) + le32(v[1] as int) + Seq::<u8>::empty());
    }
}

/// A number stays readable where its bytes stand in a longer sequence.
proof fn lemma_le_part(whole: Seq<u8>, part: Seq<u8>, from: int, at: int)
    requires
        0 <= from,
        from + part.len() <= whole.len(),
        part == whole.subrange(from, from + part.len()),
        0 <= at,
        at + 4 <= part.len(),
    ensures
        le_number(whole, from + at) == le_number(part, at),
{
    assert(part[at] == whole[from + at]);
    assert(part[at + 1] == whole[from + at + 1]);
    assert(part[at + 2] == whole[from + at + 2]);
    assert(part[at + 3] == whole[from + at + 3]);
}

/// Indices in four bytes each can be read back.
proof fn lemma_index_bytes(indices: Seq<u32>, k: int)
    requires
        0 <= k < indices.len(),
    ensures
        index_bytes32(indices).len() == 4 * indices.len(),
        le_number(index_bytes32(indices), 4 * k) == indices[k],
    decreases indices.len(),
{
    let front = indices.drop_last();
    lemma_index_size(indices);
    lemma_index_size(front);
    let bytes = index_bytes32(indices);
    if k < front.len() {
        lemma_index_bytes(front, k);
        assert(index_bytes32(front) =~= bytes.subrange(0, index_bytes32(front).len() as int));
        lemma_le_part(bytes, index_bytes32(front), 0, 4 * k);
    } else {
        let last = indices.last() as int;
        lemma_le_inside(index_bytes32(front), last, Seq::<u8>::empty());
        assert(bytes =~= index_bytes32(front) + le32(last) + Seq::<u8>::empty());
    }
}

proof fn lemma_index_size(indices: Seq<u32>)
    ensures
        index_bytes32(indices).len() == 4 * indices.len(),
    decreases indices.len(),
{
    if indices.len() > 0 {
        lemma_index_size(indices.drop_last());
    }
}

/// The views of a file lie in its binary chunk, one behind the other.
pub(crate) proof fn lemma_chunk_size(parts: GlbParts)
    ensures
        bin_chunk(parts).len() >= 32 * parts.vertices.len() + parts.index_bytes.len(),
        glb_size(parts) >= 32 * parts.vertices.len() + parts.index_bytes.len(),
{
    lemma_attribute_sizes(parts.vertices);
    reveal(bin_chunk);
    reveal(padded);
}

/// The binary chunk of a file holds the mesh: coordinates in glTF's frame and
/// indices stand where the views say.
pub proof fn law_chunks_hold_the_mesh(
    label: Seq<char>,
    vertices: Seq<PosNormalUv>,
    indices: Seq<u32>,
    pos_min: Seq<char>,
    pos_max: Seq<char>,
)
    ensures
        ({
            let chunk = bin_chunk(parts32(label, vertices, indices, pos_min, pos_max));
            let n = vertices.len() as int;
            &&& forall|k: int, c: int|
                0 <= k < n && 0 <= c < 3 ==> le_number(chunk, 12 * k + 4 * c)
                    == #[trigger] gltf_frame(vertices[k].position)[c]
            &&& forall|k: int, c: int|
                0 <= k < n && 0 <= c < 3 ==> le_number(chunk, 12 * n + 12 * k + 4 * c)
                    == #[trigger] gltf_frame(vertices[k].normal)[c]
            &&& forall|k: int, c: int|
                0 <= k < n && 0 <= c < 2 ==> le_number(chunk, 24 * n + 8 * k + 4 * c)
                    == #[trigger] vertices[k].uv[c]
            &&& forall|k: int|
                0 <= k < indices.len() ==> le_number(chunk, 32 * n + 4 * k)
                    == #[trigger] indices[k]
        }),
{
    let parts = parts32(label, vertices, indices, pos_min, pos_max);
    let chunk = bin_chunk(parts);
    let n = vertices.len() as int;
    let p = position_bytes(vertices);
    let q = normal_bytes(vertices);
    let u = uv_bytes(vertices);
    let x = index_bytes32(indices);
    lemma_attribute_sizes(vertices);
    lemma_index_size(indices);
    lemma_chunk_size(parts);
    assert(p == chunk.subrange(0, p.len() as int) && q == chunk.subrange(12 * n, 12 * n + q.len())
        && u == chunk.subrange(24 * n, 24 * n + u.len()) && x == chunk.subrange(
        32 * n,
        32 * n + x.len(),
    )) by {
        reveal(bin_chunk);
        reveal(padded);
        assert(p =~= chunk.subrange(0, p.len() as int));
        assert(q =~= chunk.subrange(12 * n, 12 * n + q.len()));
        assert(u =~= chunk.subrange(24 * n, 24 * n + u.len()));
        assert(x =~= chunk.subrange(32 * n, 32 * n + x.len()));
    }
    assert forall|k: int, c: int| 0 <= k < n && 0 <= c < 3 implies le_number(chunk, 12 * k + 4 * c)
        == #[trigger] gltf_frame(vertices[k].position)[c] by {
        law_views_hold_the_attributes(vertices, k, c);
        lemma_le_part(chunk, p, 0, 12 * k + 4 * c);
    }
    assert forall|k: int, c: int| 0 <= k < n && 0 <= c < 3 implies le_number(
        chunk,
        12 * n + 12 * k + 4 * c,
    ) == #[trigger] gltf_frame(vertices[k].normal)[c] by {
        law_views_hold_the_attributes(vertices, k, c);
        lemma_le_part(chunk, q, 12 * n, 12 * k + 4 * c);
    }
    assert forall|k: int, c: int| 0 <= k < n && 0 <= c < 2 implies le_number(
        chunk,
        24 * n + 8 * k + 4 * c,
    ) == #[trigger] vertices[k].uv[c] by {
        law_views_hold_the_attributes(vertices, k, c);
        lemma_le_part(chunk, u, 24 * n, 8 * k + 4 * c);
    }
    assert forall|k: int| 0 <= k < indices.len() implies le_number(chunk, 32 * n + 4 * k)
        == #[trigger] indices[k] by {
        lemma_index_bytes(indices, k);
        lemma_le_part(chunk, x, 32 * n, 4 * k);
    }
}

/// The vertex data that a file holds for a mesh.
pub open spec fn written(vertices: Seq<PosNormalUv>, indices: Seq<u32>) -> RawView {
    RawView {
        positions: Some(vertices.map_values(|v: PosNormalUv| gltf_frame(v.position))),
        normals: Some(vertices.map_values(|v: PosNormalUv| gltf_frame(v.normal))),
        uvs: Some(vertices.map_values(|v: PosNormalUv| v.uv)),
        indices: Some(indices),
        material_name: None,
    }
}

/// Writing and loading give a mesh back: the vertex data that is written for
/// a mesh with vertices is sound, and repacks to its vertices and indices.
pub proof fn law_written_meshes_load_back(vertices: Seq<PosNormalUv>, indices: Seq<u32>)
    requires
        vertices.len() > 0,
    ensures
        primitive_fault(written(vertices, indices)) is None,
        repacked(written(vertices, indices)).vertices == vertices,
        repacked(written(vertices, indices)).indices == indices,
{
    let back = repacked(written(vertices, indices)).vertices;
    assert forall|i: int| 0 <= i < vertices.len() implies back[i] == vertices[i] by {
        law_frames_are_inverse(vertices[i].position);
        law_frames_are_inverse(vertices[i].normal);
    }
    assert(back =~= vertices);
}

/// A file starts with the format's name and the version 2, and its chunks are
/// called `JSON` and `BIN`.
pub proof fn law_files_say_what_they_are(parts: GlbParts)
    ensures
        ({
            let file = glb(parts);
            let bin = 20 + json_chunk(parts).len() as int;
            &&& file[0] == 'g' as u8 && file[1] == 'l' as u8 && file[2] == 'T' as u8 && file[3]
                == 'F' as u8
            &&& le_number(file, 4) == 2
            &&& file[16] == 'J' as u8 && file[17] == 'S' as u8 && file[18] == 'O' as u8 && file[19]
                == 'N' as u8
            &&& file[bin + 4] == 'B' as u8 && file[bin + 5] == 'I' as u8 && file[bin + 6]
                == 'N' as u8 && file[bin + 7] == 0
        }),
{
    reveal(framed);
    let json = json_chunk(parts);
    let bin = bin_chunk(parts);
    let size = glb_size(parts);
    let tag = seq![0x4au8, 0x53, 0x4f, 0x4e];
    let end = seq![0x42u8, 0x49, 0x4e, 0];
    let whole = glb(parts);
    let rest = le32(size) + le32(json.len() as int) + tag + json + le32(bin.len() as int) + end
        + bin;
    lemma_le_inside(magic(), 2, rest);
    assert(whole =~= magic() + le32(2) + rest);
    assert(whole.subrange(0, 4) =~= magic());
    assert(whole[0] == magic()[0] && whole[1] == magic()[1] && whole[2] == magic()[2] && whole[3]
        == magic()[3]);
    assert(whole[16] == tag[0] && whole[17] == tag[1] && whole[18] == tag[2] && whole[19]
        == tag[3]);
    let at = 24 + json.len() as int;
    assert(whole[at] == end[0] && whole[at + 1] == end[1] && whole[at + 2] == end[2] && whole[at
        + 3] == end[3]);
}

proof fn lemma_index_size16(indices: Seq<u32>)
    ensures
        index_bytes16(indices).len() == 2 * indices.len(),
    decreases indices.len(),
{
    if indices.len() > 0 {
        lemma_index_size16(indices.drop_last());
    }
}

proof fn lemma_index_bytes16(indices: Seq<u32>, k: int)
    requires
        0 <= k < indices.len(),
        indices[k] <= u16::MAX,
    ensures
        index_bytes16(indices).len() == 2 * indices.len(),
        index_bytes16(indices)[2 * k] + 0x100 * index_bytes16(indices)[2 * k + 1] == indices[k],
    decreases indices.len(),
{
    let front = indices.drop_last();
    lemma_index_size16(indices);
    lemma_index_size16(front);
    let bytes = index_bytes16(indices);
    if k < front.len() {
        lemma_index_bytes16(front, k);
        assert(bytes[2 * k] == index_bytes16(front)[2 * k]);
        assert(bytes[2 * k + 1] == index_bytes16(front)[2 * k + 1]);
    } else {
        let last = le16(indices.last() as int);
        assert(bytes[2 * k] == last[0]);
        assert(bytes[2 * k + 1] == last[1]);
    }
}

/// The binary chunk of the cube's file holds the mesh: coordinates in glTF's
/// frame, and behind them indices of two bytes, the lower one first.
pub proof fn law_cube_chunks_hold_the_mesh(
    vertices: Seq<PosNormalUv>,
    indices: Seq<u32>,
    k: int,
    c: int,
    i: int,
)
    requires
        0 <= k < vertices.len(),
        0 <= c < 3,
        0 <= i < indices.len(),
        indices[i] <= u16::MAX,
    ensures
        ({
            let chunk = bin_chunk(cube_parts(vertices, indices));
            let n = vertices.len() as int;
            &&& le_number(chunk, 12 * k + 4 * c) == gltf_frame(vertices[k].position)[c]
            &&& le_number(chunk, 12 * n + 12 * k + 4 * c) == gltf_frame(vertices[k].normal)[c]
            &&& c < 2 ==> le_number(chunk, 24 * n + 8 * k + 4 * c) == vertices[k].uv[c]
            &&& chunk[32 * n + 2 * i] + 0x100 * chunk[32 * n + 2 * i + 1] == indices[i]
        }),
{
    let parts = cube_parts(vertices, indices);
    let chunk = bin_chunk(parts);
    let n = vertices.len() as int;
    let p = position_bytes(vertices);
    let q = normal_bytes(vertices);
    let u = uv_bytes(vertices);
    let x = index_bytes16(indices);
    lemma_attribute_sizes(vertices);
    lemma_index_size16(indices);
    lemma_chunk_size(parts);
    assert(p == chunk.subrange(0, p.len() as int) && q == chunk.subrange(12 * n, 12 * n + q.len())
        && u == chunk.subrange(24 * n, 24 * n + u.len()) && x == chunk.subrange(
        32 * n,
        32 * n + x.len(),
    )) by {
        reveal(bin_chunk);
        reveal(padded);
        assert(p =~= chunk.subrange(0, p.len() as int));
        assert(q =~= chunk.subrange(12 * n, 12 * n + q.len()));
        assert(u =~= chunk.subrange(24 * n, 24 * n + u.len()));
        assert(x =~= chunk.subrange(32 * n, 32 * n + x.len()));
    }
    law_views_hold_the_attributes(vertices, k, c);
    lemma_le_part(chunk, p, 0, 12 * k + 4 * c);
    lemma_le_part(chunk, q, 12 * n, 12 * k + 4 * c);
    if c < 2 {
        lemma_le_part(chunk, u, 24 * n, 8 * k + 4 * c);
    }
    lemma_index_bytes16(indices, i);
    assert(x[2 * i] == chunk[32 * n + 2 * i]);
    assert(x[2 * i + 1] == chunk[32 * n + 2 * i + 1]);
}

/// The bounds that are written enclose every position as it is written, and
/// each of their coordinates is that of some position, provided that all
/// positions are points.
pub proof fn law_written_bounds_are_tight(mesh: PrimitiveMesh, bounds: (Bits3, Bits3))
    requires
        mesh.vertices@.len() > 0,
        forall|i: int|
            0 <= i < mesh.vertices@.len() ==> is_point(
                gltf_frame((#[trigger] mesh.vertices@[i]).position),
            ),
        call_ensures(position_bounds, (&mesh,), bounds),
    ensures
        forall|i: int|
            0 <= i < mesh.vertices@.len() ==> encloses(
                Aabb { min: bounds.0, max: bounds.1 },
                gltf_frame((#[trigger] mesh.vertices@[i]).position),
            ),
        forall|axis: int|
            0 <= axis < 3 ==> exists|i: int|
                0 <= i < mesh.vertices@.len() && gltf_frame(
                    (#[trigger] mesh.vertices@[i]).position,
                )[axis] == #[trigger] bounds.0[axis],
        forall|axis: int|
            0 <= axis < 3 ==> exists|i: int|
                0 <= i < mesh.vertices@.len() && gltf_frame(
                    (#[trigger] mesh.vertices@[i]).position,
                )[axis] == #[trigger] bounds.1[axis],
{
    lemma_written_box(mesh.vertices@);
    let all = written_box(mesh.vertices@);
    assert forall|axis: int| 0 <= axis < 3 implies exists|i: int|
        0 <= i < mesh.vertices@.len() && gltf_frame((#[trigger] mesh.vertices@[i]).position)[axis]
            == #[trigger] bounds.0[axis] by {
        assert(is_written(mesh.vertices@, axis, all.min[axis]));
    }
    assert forall|axis: int| 0 <= axis < 3 implies exists|i: int|
        0 <= i < mesh.vertices@.len() && gltf_frame((#[trigger] mesh.vertices@[i]).position)[axis]
            == #[trigger] bounds.1[axis] by {
        assert(is_written(mesh.vertices@, axis, all.max[axis]));
    }
}

/// Some position has the coordinate on an axis, as it is written.
spec fn is_written(vertices: Seq<PosNormalUv>, axis: int, coordinate: u32) -> bool {
    exists|i: int|
        0 <= i < vertices.len() && gltf_frame((#[trigger] vertices[i]).position)[axis] == coordinate
}

proof fn lemma_written_box(vertices: Seq<PosNormalUv>)
    requires
        vertices.len() > 0,
        forall|i: int|
            0 <= i < vertices.len() ==> is_point(gltf_frame((#[trigger] vertices[i]).position)),
    ensures
        is_point(written_box(vertices).min),
        is_point(written_box(vertices).max),
        forall|i: int|
            0 <= i < vertices.len() ==> encloses(
                written_box(vertices),
                gltf_frame((#[trigger] vertices[i]).position),
            ),
        forall|axis: int|
            0 <= axis < 3 ==> is_written(vertices, axis, #[trigger] written_box(vertices).min[axis]),
        forall|axis: int|
            0 <= axis < 3 ==> is_written(vertices, axis, #[trigger] written_box(vertices).max[axis]),
    decreases vertices.len(),
{
    let all = written_box(vertices);
    let last = vertices.len() - 1;
    let p = gltf_frame(vertices[last].position);
    assert(is_point(p));
    if vertices.len() == 1 {
        assert forall|axis: int| 0 <= axis < 3 implies is_written(
            vertices,
            axis,
            #[trigger] all.min[axis],
        ) by {
            assert(gltf_frame(vertices[0].position)[axis] == all.min[axis]);
        }
        assert forall|axis: int| 0 <= axis < 3 implies is_written(
            vertices,
            axis,
            #[trigger] all.max[axis],
        ) by {
            assert(gltf_frame(vertices[0].position)[axis] == all.max[axis]);
        }
    } else {
        let front = vertices.drop_last();
        assert forall|i: int| 0 <= i < front.len() implies is_point(
            gltf_frame((#[trigger] front[i]).position),
        ) by {
            assert(is_point(gltf_frame(vertices[i].position)));
        }
        lemma_written_box(front);
        let before = written_box(front);
        assert forall|i: int| 0 <= i < vertices.len() implies encloses(
            all,
            gltf_frame((#[trigger] vertices[i]).position),
        ) by {
            assert(is_point(gltf_frame(vertices[i].position)));
            if i < last {
                assert(encloses(before, gltf_frame(front[i].position)));
            }
        }
        assert forall|axis: int| 0 <= axis < 3 implies is_written(
            vertices,
            axis,
            #[trigger] all.min[axis],
        ) by {
            lemma_still_written(front, vertices, axis, before.min[axis]);
            if all.min[axis] == p[axis] {
                assert(gltf_frame(vertices[last].position)[axis] == all.min[axis]);
            }
        }
        assert forall|axis: int| 0 <= axis < 3 implies is_written(
            vertices,
            axis,
            #[trigger] all.max[axis],
        ) by {
            lemma_still_written(front, vertices, axis, before.max[axis]);
            if all.max[axis] == p[axis] {
                assert(gltf_frame(vertices[last].position)[axis] == all.max[axis]);
            }
        }
    }
}

proof fn lemma_still_written(
    front: Seq<PosNormalUv>,
    vertices: Seq<PosNormalUv>,
    axis: int,
    coordinate: u32,
)
    requires
        vertices.len() > 0,
        front == vertices.drop_last(),
        is_written(front, axis, coordinate),
    ensures
        is_written(vertices, axis, coordinate),
{
    let i = choose|i: int|
        0 <= i < front.len() && gltf_frame((#[trigger] front[i]).position)[axis] == coordinate;
    assert(gltf_frame(vertices[i].position)[axis] == coordinate);
}

} // verus!
