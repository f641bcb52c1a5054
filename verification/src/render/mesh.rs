//! Static meshes and the glTF loader behind them.
//!
//! The loader takes a binary glTF file with one mesh whose primitives all have
//! positions, normals, one set of texture coordinates and indices. It turns
//! glTF's Y-up frame into the engine's Z-up frame once, while it repacks each
//! vertex.

use super::float_bits::{
    is_nan, law_negate_twice, less, lower_corner, max3, min3, neg_bits, negate, upper_corner, Bits3,
};
use super::gltf_file::{gltf_error_says, gltf_error_text};
use crate::digits::{decimal, push_decimal};
use vstd::prelude::*;

verus! {

/// One vertex: position, normal and texture coordinates.
#[derive(Debug, Clone, Copy, PartialEq, Eq)]
pub struct PosNormalUv {
    pub position: Bits3,
    pub normal: Bits3,
    pub uv: [u32; 2],
}

/// An axis-aligned box.
#[derive(Debug, Clone, Copy, PartialEq, Eq)]
pub struct Aabb {
    pub min: Bits3,
    pub max: Bits3,
}

impl Aabb {
    /// The box with the given corners.
    pub fn new(min: Bits3, max: Bits3) -> (r: Aabb)
        ensures
            r == (Aabb { min, max }),
    {
        Aabb { min, max }
    }

    /// The smallest box around two boxes.
    pub open spec fn spec_union(self, other: Aabb) -> Aabb {
        Aabb { min: min3(self.min, other.min), max: max3(self.max, other.max) }
    }

    /// The smallest box around two boxes.
    pub fn union(&self, other: &Aabb) -> (r: Aabb)
        ensures
            r == self.spec_union(*other),
    {
        Aabb {
            min: lower_corner(self.min, other.min),
            max: upper_corner(self.max, other.max),
        }
    }
}

/// One drawable piece of a mesh: vertices, indices and the name of its
/// material slot.
#[derive(Debug, Clone)]
pub struct DecodedPrimitive {
    pub vertices: Vec<PosNormalUv>,
    pub indices: Vec<u32>,
    pub material_name: Option<String>,
}

/// A mesh in memory: its primitives and the box around all of them.
#[derive(Debug, Clone)]
pub struct DecodedMesh {
    pub primitives: Vec<DecodedPrimitive>,
    pub bounds: Aabb,
}

/// A `DecodedPrimitive` by its contents.
pub struct PrimitiveView {
    pub vertices: Seq<PosNormalUv>,
    pub indices: Seq<u32>,
    pub material_name: Option<Seq<char>>,
}

/// A `DecodedMesh` by its contents.
#[verifier::ext_equal]
pub struct MeshView {
    pub primitives: Seq<PrimitiveView>,
    pub bounds: Aabb,
}

/// A string, if there is one, as characters.
pub open spec fn name_view(name: Option<String>) -> Option<Seq<char>> {
    match name {
        Some(name) => Some(name@),
        None => None,
    }
}

impl View for DecodedPrimitive {
    type V = PrimitiveView;

    open spec fn view(&self) -> PrimitiveView {
        PrimitiveView {
            vertices: self.vertices@,
            indices: self.indices@,
            material_name: name_view(self.material_name),
        }
    }
}

impl View for DecodedMesh {
    type V = MeshView;

    open spec fn view(&self) -> MeshView {
        MeshView {
            primitives: self.primitives@.map_values(|p: DecodedPrimitive| p@),
            bounds: self.bounds,
        }
    }
}

/// Reasons for which a file is rejected.
#[derive(Debug)]
pub enum MeshLoadError {
    /// The bytes are not glTF.
    Parse(gltf::Error),
    /// The file has no embedded binary chunk.
    MissingBinaryBlob,
    /// The file uses something outside the static-mesh subset.
    Unsupported(&'static str),
    /// The file declares this many meshes.
    WrongMeshCount(usize),
    /// The mesh has no primitives.
    NoPrimitives,
    /// A primitive lacks this attribute.
    MissingAttribute(&'static str),
    /// A primitive has no indices.
    MissingIndices,
    /// A primitive has another number of items of this attribute than of
    /// positions.
    AttributeCountMismatch { attribute: &'static str, expected: usize, actual: usize },
    /// A primitive has no positions.
    EmptyPrimitive,
}

/// A `MeshLoadError` by its texts.
pub enum MeshFault {
    Parse(gltf::Error),
    MissingBinaryBlob,
    Unsupported(Seq<char>),
    WrongMeshCount(nat),
    NoPrimitives,
    MissingAttribute(Seq<char>),
    MissingIndices,
    AttributeCountMismatch { attribute: Seq<char>, expected: nat, actual: nat },
    EmptyPrimitive,
}

impl View for MeshLoadError {
    type V = MeshFault;

    open spec fn view(&self) -> MeshFault {
        match *self {
            MeshLoadError::Parse(e) => MeshFault::Parse(e),
            MeshLoadError::MissingBinaryBlob => MeshFault::MissingBinaryBlob,
            MeshLoadError::Unsupported(feature) => MeshFault::Unsupported(feature@),
            MeshLoadError::WrongMeshCount(n) => MeshFault::WrongMeshCount(n as nat),
            MeshLoadError::NoPrimitives => MeshFault::NoPrimitives,
            MeshLoadError::MissingAttribute(name) => MeshFault::MissingAttribute(name@),
            MeshLoadError::MissingIndices => MeshFault::MissingIndices,
            MeshLoadError::AttributeCountMismatch { attribute, expected, actual } =>
                MeshFault::AttributeCountMismatch {
                attribute: attribute@,
                expected: expected as nat,
                actual: actual as nat,
            },
            MeshLoadError::EmptyPrimitive => MeshFault::EmptyPrimitive,
        }
    }
}

/// `a` followed by `b`.
fn joined(a: &str, b: &str) -> (r: String)
    ensures
        r@ == a@ + b@,
{
    a.to_owned().concat(b)
}

/// What is said of each error, where `detail` is the text of the parse error
/// if it is one.
pub open spec fn mesh_message(fault: MeshFault, detail: Seq<char>) -> Seq<char> {
    match fault {
        MeshFault::Parse(_) => "glTF parse error: "@ + detail,
        MeshFault::MissingBinaryBlob =>
            "glTF has no embedded binary blob (pass .glb, not .gltf+.bin)"@,
        MeshFault::Unsupported(feature) => "glTF declares "@ + feature
            + ", which the static-mesh loader does not support"@,
        MeshFault::WrongMeshCount(n) => "glTF has "@ + decimal(n)
            + " meshes; the static-mesh loader requires exactly 1"@,
        MeshFault::NoPrimitives =>
            "glTF mesh has zero primitives; the static-mesh loader requires at least 1"@,
        MeshFault::MissingAttribute(name) => "glTF primitive is missing required attribute "@ + name
            + " (loader expects PosNormalUv)"@,
        MeshFault::MissingIndices =>
            "glTF primitive has no indices accessor; non-indexed draw is not supported"@,
        MeshFault::AttributeCountMismatch { attribute, expected, actual } =>
            "glTF primitive attribute "@ + attribute + " has "@ + decimal(actual)
            + " entries; expected "@ + decimal(expected) + " to match POSITION"@,
        MeshFault::EmptyPrimitive => "glTF primitive has zero positions"@,
    }
}

/// `words` can be what is said of a parse error: a fixed prefix before a text
/// that the error can have.
pub open spec fn can_say_of_parse(error: gltf::Error, words: Seq<char>) -> bool {
    exists|detail: Seq<char>| #[trigger]
        gltf_error_says(error, detail) && words == mesh_message(MeshFault::Parse(error), detail)
}

/// `words` can be what `message` says of an error.
pub open spec fn can_say(fault: MeshFault, words: Seq<char>) -> bool {
    match fault {
        MeshFault::Parse(e) => can_say_of_parse(e, words),
        _ => words == mesh_message(fault, Seq::empty()),
    }
}

impl MeshLoadError {
    /// The error in words.
    pub fn message(&self) -> (r: String)
        ensures
            can_say(self@, r@),
    {
        match self {
            MeshLoadError::Parse(e) => {
                let text_of = gltf_error_text;
                let detail = text_of(e);
                proof {
                    super::gltf_file::lemma_error_says(*e, detail);
                }
                let r = self.message_with(detail.as_str());
                assert(can_say_of_parse(*e, r@));
                r
            },
            _ => {
                let none = String::new();
                assert(none@ =~= Seq::<char>::empty());
                self.message_with(none.as_str())
            },
        }
    }

    /// The error in words, where `detail` is the text of the parse error if it
    /// is one.
    pub fn message_with(&self, detail: &str) -> (r: String)
        ensures
            r@ == mesh_message(self@, detail@),
    {
        match self {
            MeshLoadError::Parse(_) => joined("glTF parse error: ", detail),
            MeshLoadError::MissingBinaryBlob =>
                "glTF has no embedded binary blob (pass .glb, not .gltf+.bin)".to_owned(),
            MeshLoadError::Unsupported(feature) => joined("glTF declares ", feature).concat(
                ", which the static-mesh loader does not support",
            ),
            MeshLoadError::WrongMeshCount(n) => {
                let mut r = "glTF has ".to_owned();
                push_decimal(&mut r, *n as u64);
                r.concat(" meshes; the static-mesh loader requires exactly 1")
            },
            MeshLoadError::NoPrimitives =>
                "glTF mesh has zero primitives; the static-mesh loader requires at least 1".to_owned(),
            MeshLoadError::MissingAttribute(name) => joined(
                "glTF primitive is missing required attribute ",
                name,
            ).concat(" (loader expects PosNormalUv)"),
            MeshLoadError::MissingIndices =>
                "glTF primitive has no indices accessor; non-indexed draw is not supported".to_owned(),
            MeshLoadError::AttributeCountMismatch { attribute, expected, actual } => {
                let mut r = joined("glTF primitive attribute ", attribute).concat(" has ");
                push_decimal(&mut r, *actual as u64);
                let mut r = r.concat(" entries; expected ");
                push_decimal(&mut r, *expected as u64);
                r.concat(" to match POSITION")
            },
            MeshLoadError::EmptyPrimitive => "glTF primitive has zero positions".to_owned(),
        }
    }
}

/// glTF's frame turned into the engine's: a quarter turn about the X axis.
pub open spec fn engine_frame(v: Bits3) -> Bits3 {
    [v[0], neg_bits(v[2]), v[1]]
}

/// The engine's frame turned into glTF's.
pub open spec fn gltf_frame(v: Bits3) -> Bits3 {
    [v[0], v[2], neg_bits(v[1])]
}

/// Turns a vector from glTF's Y-up frame into the engine's Z-up frame.
pub fn y_up_to_z_up(v: Bits3) -> (r: Bits3)
    ensures
        r == engine_frame(v),
{
    [v[0], negate(v[2]), v[1]]
}

/// Turns a vector from the engine's Z-up frame into glTF's Y-up frame.
pub fn z_up_to_y_up(v: Bits3) -> (r: Bits3)
    ensures
        r == gltf_frame(v),
{
    [v[0], v[2], negate(v[1])]
}

/// The two frame changes undo each other.
pub proof fn law_frames_are_inverse(v: Bits3)
    ensures
        engine_frame(gltf_frame(v)) == v,
        gltf_frame(engine_frame(v)) == v,
{
    law_negate_twice(v[1]);
    law_negate_twice(v[2]);
    assert(engine_frame(gltf_frame(v)) =~= v);
    assert(gltf_frame(engine_frame(v)) =~= v);
}

/// The vertex data of one primitive as the file has it. What was not read, or
/// is not there, is absent.
pub struct RawPrimitive {
    pub positions: Option<Vec<Bits3>>,
    pub normals: Option<Vec<Bits3>>,
    pub uvs: Option<Vec<[u32; 2]>>,
    pub indices: Option<Vec<u32>>,
    pub material_name: Option<String>,
}

/// A `RawPrimitive` by its contents.
pub struct RawView {
    pub positions: Option<Seq<Bits3>>,
    pub normals: Option<Seq<Bits3>>,
    pub uvs: Option<Seq<[u32; 2]>>,
    pub indices: Option<Seq<u32>>,
    pub material_name: Option<Seq<char>>,
}

/// A vector, if there is one, as a sequence.
pub open spec fn items<T>(v: Option<Vec<T>>) -> Option<Seq<T>> {
    match v {
        Some(v) => Some(v@),
        None => None,
    }
}

impl View for RawPrimitive {
    type V = RawView;

    open spec fn view(&self) -> RawView {
        RawView {
            positions: items(self.positions),
            normals: items(self.normals),
            uvs: items(self.uvs),
            indices: items(self.indices),
            material_name: name_view(self.material_name),
        }
    }
}

/// What is wrong with the vertex data of a primitive, if anything.
pub open spec fn primitive_fault(raw: RawView) -> Option<MeshFault> {
    match raw.positions {
        None => Some(MeshFault::MissingAttribute("POSITION"@)),
        Some(positions) => if positions.len() == 0 {
            Some(MeshFault::EmptyPrimitive)
        } else {
            match raw.normals {
                None => Some(MeshFault::MissingAttribute("NORMAL"@)),
                Some(normals) => if normals.len() != positions.len() {
                    Some(
                        MeshFault::AttributeCountMismatch {
                            attribute: "NORMAL"@,
                            expected: positions.len(),
                            actual: normals.len(),
                        },
                    )
                } else {
                    uv_fault(raw, positions.len())
                },
            }
        },
    }
}

/// What is wrong with the texture coordinates or the indices, if anything.
pub open spec fn uv_fault(raw: RawView, expected: nat) -> Option<MeshFault> {
    match raw.uvs {
        None => Some(MeshFault::MissingAttribute("TEXCOORD_0"@)),
        Some(uvs) => if uvs.len() != expected {
            Some(
                MeshFault::AttributeCountMismatch {
                    attribute: "TEXCOORD_0"@,
                    expected,
                    actual: uvs.len(),
                },
            )
        } else if raw.indices is None {
            Some(MeshFault::MissingIndices)
        } else {
            None
        },
    }
}

/// The primitive that sound vertex data makes: vertex by vertex, positions and
/// normals in the engine's frame, and a material name only if it is not empty.
pub open spec fn repacked(raw: RawView) -> PrimitiveView {
    PrimitiveView {
        vertices: Seq::new(
            raw.positions->0.len(),
            |i: int|
                PosNormalUv {
                    position: engine_frame(raw.positions->0[i]),
                    normal: engine_frame(raw.normals->0[i]),
                    uv: raw.uvs->0[i],
                },
        ),
        indices: raw.indices->0,
        material_name: match raw.material_name {
            Some(name) => if name.len() == 0 {
                None
            } else {
                Some(name)
            },
            None => None,
        },
    }
}

/// The box around `vertices`.
pub open spec fn box_around(vertices: Seq<PosNormalUv>) -> Aabb
    decreases vertices.len(),
{
    if vertices.len() <= 1 {
        Aabb { min: vertices[0].position, max: vertices[0].position }
    } else {
        let front = box_around(vertices.drop_last());
        Aabb {
            min: min3(front.min, vertices.last().position),
            max: max3(front.max, vertices.last().position),
        }
    }
}

/// The box around all the primitives, each of which has vertices.
pub open spec fn box_around_all(primitives: Seq<PrimitiveView>) -> Aabb
    decreases primitives.len(),
{
    if primitives.len() <= 1 {
        box_around(primitives[0].vertices)
    } else {
        box_around_all(primitives.drop_last()).spec_union(box_around(primitives.last().vertices))
    }
}

/// The primitives that the first of `raws` make, up to the first fault.
pub open spec fn decoded(raws: Seq<RawView>) -> Result<Seq<PrimitiveView>, MeshFault>
    decreases raws.len(),
{
    if raws.len() == 0 {
        Ok(Seq::empty())
    } else {
        match decoded(raws.drop_last()) {
            Err(fault) => Err(fault),
            Ok(before) => match primitive_fault(raws.last()) {
                Some(fault) => Err(fault),
                None => Ok(before.push(repacked(raws.last()))),
            },
        }
    }
}

/// A file as the loader sees it.
pub struct MeshFile {
    pub has_blob: bool,
    pub skins: usize,
    pub animations: usize,
    pub meshes: usize,
    pub primitives: Vec<RawPrimitive>,
}

/// What is wrong with a file as a whole, if anything.
pub open spec fn file_fault(
    has_blob: bool,
    skins: nat,
    animations: nat,
    meshes: nat,
    primitives: nat,
) -> Option<MeshFault> {
    if !has_blob {
        Some(MeshFault::MissingBinaryBlob)
    } else if skins > 0 {
        Some(MeshFault::Unsupported("skins"@))
    } else if animations > 0 {
        Some(MeshFault::Unsupported("animations"@))
    } else if meshes != 1 {
        Some(MeshFault::WrongMeshCount(meshes))
    } else if primitives == 0 {
        Some(MeshFault::NoPrimitives)
    } else {
        None
    }
}

/// The mesh that sound primitives make.
pub open spec fn mesh_of(primitives: Seq<PrimitiveView>) -> MeshView {
    MeshView { primitives, bounds: box_around_all(primitives) }
}

/// What a file with the given counts and primitives decodes to.
pub open spec fn mesh_outcome(
    fault: Option<MeshFault>,
    raws: Seq<RawView>,
) -> Result<MeshView, MeshFault> {
    match fault {
        Some(fault) => Err(fault),
        None => match decoded(raws) {
            Ok(primitives) => Ok(mesh_of(primitives)),
            Err(fault) => Err(fault),
        },
    }
}

/// Looks for a fault of the file as a whole.
pub fn check_file(
    has_blob: bool,
    skins: usize,
    animations: usize,
    meshes: usize,
    primitives: usize,
) -> (r: Option<MeshLoadError>)
    ensures
        match r {
            Some(e) => file_fault(
                has_blob,
                skins as nat,
                animations as nat,
                meshes as nat,
                primitives as nat,
            ) == Some(e@),
            None => file_fault(
                has_blob,
                skins as nat,
                animations as nat,
                meshes as nat,
                primitives as nat,
            ) is None,
        },
{
    if !has_blob {
        Some(MeshLoadError::MissingBinaryBlob)
    } else if skins > 0 {
        Some(MeshLoadError::Unsupported("skins"))
    } else if animations > 0 {
        Some(MeshLoadError::Unsupported("animations"))
    } else if meshes != 1 {
        Some(MeshLoadError::WrongMeshCount(meshes))
    } else if primitives == 0 {
        Some(MeshLoadError::NoPrimitives)
    } else {
        None
    }
}

/// The box around flipped positions.
fn bounds_of_vertices(vertices: &Vec<PosNormalUv>) -> (r: Aabb)
    requires
        vertices@.len() > 0,
    ensures
        r == box_around(vertices@),
{
    let mut min = vertices[0].position;
    let mut max = vertices[0].position;
    let mut i: usize = 1;
    assert(vertices@.take(1)[0] == vertices@[0]);
    while i < vertices.len()
        invariant
            1 <= i <= vertices@.len(),
            box_around(vertices@.take(i as int)) == (Aabb { min, max }),
        decreases vertices@.len() - i,
    {
        let p = vertices[i].position;
        min = lower_corner(min, p);
        max = upper_corner(max, p);
        assert(vertices@.take(i + 1).drop_last() =~= vertices@.take(i as int));
        i += 1;
    }
    assert(vertices@.take(i as int) =~= vertices@);
    Aabb { min, max }
}

/// Checks and repacks the vertex data of one primitive.
pub fn decode_primitive(raw: RawPrimitive) -> (r: Result<(DecodedPrimitive, Aabb), MeshLoadError>)
    ensures
        match r {
            Ok(done) => {
                &&& primitive_fault(raw@) is None
                &&& done.0@ == repacked(raw@)
                &&& done.1 == box_around(repacked(raw@).vertices)
            },
            Err(e) => primitive_fault(raw@) == Some(e@),
        },
{
    let positions = match raw.positions {
        Some(positions) => positions,
        None => {
            return Err(MeshLoadError::MissingAttribute("POSITION"));
        },
    };
    if positions.len() == 0 {
        return Err(MeshLoadError::EmptyPrimitive);
    }
    let normals = match raw.normals {
        Some(normals) => normals,
        None => {
            return Err(MeshLoadError::MissingAttribute("NORMAL"));
        },
    };
    if normals.len() != positions.len() {
        return Err(
            MeshLoadError::AttributeCountMismatch {
                attribute: "NORMAL",
                expected: positions.len(),
                actual: normals.len(),
            },
        );
    }
    let uvs = match raw.uvs {
        Some(uvs) => uvs,
        None => {
            return Err(MeshLoadError::MissingAttribute("TEXCOORD_0"));
        },
    };
    if uvs.len() != positions.len() {
        return Err(
            MeshLoadError::AttributeCountMismatch {
                attribute: "TEXCOORD_0",
                expected: positions.len(),
                actual: uvs.len(),
            },
        );
    }
    let indices = match raw.indices {
        Some(indices) => indices,
        None => {
            return Err(MeshLoadError::MissingIndices);
        },
    };
    let ghost whole = repacked(raw@).vertices;
    let mut vertices: Vec<PosNormalUv> = Vec::new();
    let mut i: usize = 0;
    while i < positions.len()
        invariant
            i <= positions@.len(),
            normals@.len() == positions@.len(),
            uvs@.len() == positions@.len(),
            raw@.positions == Some(positions@),
            raw@.normals == Some(normals@),
            raw@.uvs == Some(uvs@),
            whole == repacked(raw@).vertices,
            vertices@ == whole.take(i as int),
        decreases positions@.len() - i,
    {
        let vertex = PosNormalUv {
            position: y_up_to_z_up(positions[i]),
            normal: y_up_to_z_up(normals[i]),
            uv: uvs[i],
        };
        vertices.push(vertex);
        assert(vertex == whole[i as int]);
        i += 1;
        assert(whole.take(i as int) =~= whole.take(i - 1).push(vertex));
    }
    assert(whole.take(i as int) =~= whole);
    let bounds = bounds_of_vertices(&vertices);
    let material_name = match raw.material_name {
        Some(name) => if name.as_str().is_empty() {
            None
        } else {
            Some(name)
        },
        None => None,
    };
    let primitive = DecodedPrimitive { vertices, indices, material_name };
    Ok((primitive, bounds))
}

/// The raw primitives by their contents.
pub open spec fn raw_views(raws: Seq<RawPrimitive>) -> Seq<RawView> {
    raws.map_values(|raw: RawPrimitive| raw@)
}

/// A mesh under construction: the primitives so far and the box around them.
pub(crate) struct MeshBuilder {
    primitives: Vec<DecodedPrimitive>,
    bounds: Option<Aabb>,
}

/// The contents of some primitives.
spec fn primitive_views(primitives: Seq<DecodedPrimitive>) -> Seq<PrimitiveView> {
    primitives.map_values(|p: DecodedPrimitive| p@)
}

impl MeshBuilder {
    pub(crate) closed spec fn holds(self, done: Seq<PrimitiveView>) -> bool {
        &&& primitive_views(self.primitives@) == done
        &&& match self.bounds {
            Some(bounds) => done.len() > 0 && bounds == box_around_all(done),
            None => done.len() == 0,
        }
    }

    pub(crate) fn new() -> (r: Self)
        ensures
            r.holds(Seq::empty()),
    {
        let r = MeshBuilder { primitives: Vec::new(), bounds: None };
        assert(primitive_views(r.primitives@) =~= Seq::<PrimitiveView>::empty());
        r
    }

    /// Adds one primitive, unless its data is faulty.
    pub(crate) fn add(self, raw: RawPrimitive, Ghost(done): Ghost<Seq<PrimitiveView>>) -> (r: Result<
        Self,
        MeshLoadError,
    >)
        requires
            self.holds(done),
        ensures
            match r {
                Ok(b) => primitive_fault(raw@) is None && b.holds(done.push(repacked(raw@))),
                Err(e) => primitive_fault(raw@) == Some(e@),
            },
    {
        let (primitive, part) = match decode_primitive(raw) {
            Ok(done) => done,
            Err(e) => {
                return Err(e);
            },
        };
        let MeshBuilder { mut primitives, bounds } = self;
        let bounds = match bounds {
            Some(bounds) => bounds.union(&part),
            None => part,
        };
        primitives.push(primitive);
        let ghost more = done.push(repacked(raw@));
        assert(more.drop_last() =~= done);
        assert(primitive_views(primitives@) =~= more);
        Ok(MeshBuilder { primitives, bounds: Some(bounds) })
    }

    pub(crate) fn finish(self, Ghost(done): Ghost<Seq<PrimitiveView>>) -> (r: DecodedMesh)
        requires
            self.holds(done),
            done.len() > 0,
        ensures
            r@ == mesh_of(done),
    {
        let MeshBuilder { primitives, bounds } = self;
        let bounds = match bounds {
            Some(bounds) => bounds,
            None => Aabb { min: [0, 0, 0], max: [0, 0, 0] },
        };
        let mesh = DecodedMesh { primitives, bounds };
        assert(mesh@.primitives =~= done);
        mesh
    }
}

/// Later primitives do not matter behind a faulty one.
pub(crate) proof fn lemma_fault_stays(raws: Seq<RawView>, n: int)
    requires
        0 <= n <= raws.len(),
        decoded(raws.take(n)) is Err,
    ensures
        decoded(raws) == decoded(raws.take(n)),
    decreases raws.len(),
{
    if n == raws.len() {
        assert(raws.take(n) =~= raws);
    } else {
        assert(raws.drop_last().take(n) =~= raws.take(n));
        lemma_fault_stays(raws.drop_last(), n);
    }
}

pub(crate) proof fn lemma_decoded_len(raws: Seq<RawView>)
    ensures
        decoded(raws) matches Ok(done) ==> done.len() == raws.len(),
    decreases raws.len(),
{
    if raws.len() > 0 {
        lemma_decoded_len(raws.drop_last());
    }
}

/// Decodes a file whose vertex data has been read.
pub fn decode_mesh_file(file: MeshFile) -> (r: Result<DecodedMesh, MeshLoadError>)
    ensures
        ({
            let outcome = mesh_outcome(
                file_fault(
                    file.has_blob,
                    file.skins as nat,
                    file.animations as nat,
                    file.meshes as nat,
                    file.primitives@.len(),
                ),
                raw_views(file.primitives@),
            );
            match r {
                Ok(mesh) => outcome == Ok::<MeshView, MeshFault>(mesh@),
                Err(e) => outcome == Err::<MeshView, MeshFault>(e@),
            }
        }),
{
    match check_file(
        file.has_blob,
        file.skins,
        file.animations,
        file.meshes,
        file.primitives.len(),
    ) {
        Some(e) => {
            return Err(e);
        },
        None => {},
    }
    let ghost raws = raw_views(file.primitives@);
    let ghost all = file.primitives@;
    let mut rest = file.primitives;
    let mut builder = MeshBuilder::new();
    let n = rest.len();
    let mut i: usize = 0;
    let ghost mut done: Seq<PrimitiveView> = Seq::empty();
    while i < n
        invariant
            i <= n == all.len(),
            n > 0,
            raws == raw_views(all),
            rest@ == all.skip(i as int),
            builder.holds(done),
            decoded(raws.take(i as int)) == Ok::<Seq<PrimitiveView>, MeshFault>(done),
            file_fault(
                file.has_blob,
                file.skins as nat,
                file.animations as nat,
                file.meshes as nat,
                file.primitives@.len(),
            ) is None,
            all == file.primitives@,
        decreases n - i,
    {
        let raw = rest.remove(0);
        assert(rest@ =~= all.skip(i + 1));
        assert(raw == all[i as int]);
        assert(raws.take(i + 1).drop_last() =~= raws.take(i as int));
        assert(raws.take(i + 1).last() == raw@);
        match builder.add(raw, Ghost(done)) {
            Ok(more) => {
                builder = more;
                proof {
                    done = done.push(repacked(raw@));
                }
            },
            Err(e) => {
                proof {
                    lemma_fault_stays(raws, i + 1);
                }
                return Err(e);
            },
        }
        i += 1;
    }
    proof {
        assert(raws.take(i as int) =~= raws);
        lemma_decoded_len(raws);
    }
    Ok(builder.finish(Ghost(done)))
}

/// No coordinate of the point is a NaN.
pub open spec fn is_point(p: Bits3) -> bool {
    !is_nan(p[0]) && !is_nan(p[1]) && !is_nan(p[2])
}

/// The point lies in the box: no coordinate is below the lower corner or above
/// the upper one.
pub open spec fn encloses(b: Aabb, p: Bits3) -> bool {
    &&& !less(p[0], b.min[0]) && !less(p[1], b.min[1]) && !less(p[2], b.min[2])
    &&& !less(b.max[0], p[0]) && !less(b.max[1], p[1]) && !less(b.max[2], p[2])
}

/// The box around vertices encloses each of them, provided that all their
/// positions are points.
pub proof fn law_box_encloses_its_vertices(vertices: Seq<PosNormalUv>)
    requires
        vertices.len() > 0,
        forall|i: int| 0 <= i < vertices.len() ==> is_point((#[trigger] vertices[i]).position),
    ensures
        is_point(box_around(vertices).min),
        is_point(box_around(vertices).max),
        forall|i: int|
            0 <= i < vertices.len() ==> encloses(
                box_around(vertices),
                (#[trigger] vertices[i]).position,
            ),
    decreases vertices.len(),
{
    assert(is_point(vertices[0].position));
    if vertices.len() > 1 {
        let front = vertices.drop_last();
        assert forall|i: int| 0 <= i < front.len() implies is_point(
            (#[trigger] front[i]).position,
        ) by {
            assert(is_point(vertices[i].position));
        }
        law_box_encloses_its_vertices(front);
        assert(is_point(vertices[vertices.len() - 1].position));
        assert forall|i: int| 0 <= i < vertices.len() implies encloses(
            box_around(vertices),
            (#[trigger] vertices[i]).position,
        ) by {
            if i < front.len() {
                assert(encloses(box_around(front), front[i].position));
            }
        }
    }
}

/// Some vertex has the given coordinate on an axis.
pub open spec fn has_coordinate(vertices: Seq<PosNormalUv>, axis: int, coordinate: u32) -> bool {
    exists|i: int| 0 <= i < vertices.len() && (#[trigger] vertices[i]).position[axis] == coordinate
}

/// Some vertex of some primitive has the given coordinate on an axis.
pub open spec fn has_coordinate_in_any(
    primitives: Seq<PrimitiveView>,
    axis: int,
    coordinate: u32,
) -> bool {
    exists|i: int|
        0 <= i < primitives.len() && has_coordinate(
            (#[trigger] primitives[i]).vertices,
            axis,
            coordinate,
        )
}

proof fn lemma_more_vertices(front: Seq<PosNormalUv>, vertices: Seq<PosNormalUv>, axis: int, c: u32)
    requires
        vertices.len() > 0,
        front == vertices.drop_last(),
        has_coordinate(front, axis, c) || c == vertices.last().position[axis],
    ensures
        has_coordinate(vertices, axis, c),
{
    if has_coordinate(front, axis, c) {
        let i = choose|i: int|
            0 <= i < front.len() && (#[trigger] front[i]).position[axis] == c;
        assert(vertices[i].position[axis] == c);
    } else {
        assert(vertices[vertices.len() - 1].position[axis] == c);
    }
}

/// The box around vertices is the smallest one: each of its coordinates is that
/// of some vertex, so a box that encloses the vertices encloses its corners.
pub proof fn law_box_is_the_smallest(vertices: Seq<PosNormalUv>, axis: int)
    requires
        vertices.len() > 0,
        0 <= axis < 3,
    ensures
        has_coordinate(vertices, axis, box_around(vertices).min[axis]),
        has_coordinate(vertices, axis, box_around(vertices).max[axis]),
    decreases vertices.len(),
{
    if vertices.len() == 1 {
        assert(vertices[0].position[axis] == box_around(vertices).min[axis]);
    } else {
        let front = vertices.drop_last();
        law_box_is_the_smallest(front, axis);
        lemma_more_vertices(front, vertices, axis, box_around(vertices).min[axis]);
        lemma_more_vertices(front, vertices, axis, box_around(vertices).max[axis]);
    }
}

/// The box around the vertices lies in every box that encloses them.
pub proof fn law_box_lies_in_every_other(vertices: Seq<PosNormalUv>, other: Aabb)
    requires
        vertices.len() > 0,
        forall|i: int|
            0 <= i < vertices.len() ==> encloses(other, (#[trigger] vertices[i]).position),
    ensures
        encloses(other, box_around(vertices).min),
        encloses(other, box_around(vertices).max),
{
    assert forall|axis: int, c: u32|
        0 <= axis < 3 && #[trigger] has_coordinate(vertices, axis, c) implies !less(
        c,
        other.min[axis],
    ) && !less(other.max[axis], c) by {
        let i = choose|i: int|
            0 <= i < vertices.len() && (#[trigger] vertices[i]).position[axis] == c;
        assert(encloses(other, vertices[i].position));
    }
    law_box_is_the_smallest(vertices, 0);
    law_box_is_the_smallest(vertices, 1);
    law_box_is_the_smallest(vertices, 2);
}

proof fn lemma_more_primitives(
    front: Seq<PrimitiveView>,
    primitives: Seq<PrimitiveView>,
    axis: int,
    c: u32,
)
    requires
        primitives.len() > 0,
        front == primitives.drop_last(),
        has_coordinate_in_any(front, axis, c) || has_coordinate(
            primitives.last().vertices,
            axis,
            c,
        ),
    ensures
        has_coordinate_in_any(primitives, axis, c),
{
    if has_coordinate_in_any(front, axis, c) {
        let i = choose|i: int|
            0 <= i < front.len() && has_coordinate((#[trigger] front[i]).vertices, axis, c);
        assert(has_coordinate(primitives[i].vertices, axis, c));
    } else {
        assert(has_coordinate(primitives[primitives.len() - 1].vertices, axis, c));
    }
}

/// The bounds of a mesh are the smallest: each of their coordinates is that of
/// some vertex of some primitive.
pub proof fn law_bounds_are_the_smallest(primitives: Seq<PrimitiveView>, axis: int)
    requires
        primitives.len() > 0,
        forall|i: int| 0 <= i < primitives.len() ==> (#[trigger] primitives[i]).vertices.len() > 0,
        0 <= axis < 3,
    ensures
        has_coordinate_in_any(primitives, axis, box_around_all(primitives).min[axis]),
        has_coordinate_in_any(primitives, axis, box_around_all(primitives).max[axis]),
    decreases primitives.len(),
{
    let last = primitives.last();
    assert(primitives[primitives.len() - 1].vertices.len() > 0);
    law_box_is_the_smallest(last.vertices, axis);
    if primitives.len() == 1 {
        let all = box_around_all(primitives);
        assert(has_coordinate(primitives[0].vertices, axis, all.min[axis]));
        assert(has_coordinate(primitives[0].vertices, axis, all.max[axis]));
    } else {
        let front = primitives.drop_last();
        assert forall|i: int| 0 <= i < front.len() implies (
        #[trigger] front[i]).vertices.len() > 0 by {
            assert(primitives[i].vertices.len() > 0);
        }
        law_bounds_are_the_smallest(front, axis);
        lemma_more_primitives(front, primitives, axis, box_around_all(primitives).min[axis]);
        lemma_more_primitives(front, primitives, axis, box_around_all(primitives).max[axis]);
    }
}

/// A box that joins two encloses what either of them encloses, provided that
/// the corners and the enclosed point are points.
pub proof fn law_union_encloses_both(a: Aabb, b: Aabb, p: Bits3)
    requires
        is_point(p),
        is_point(a.min) && is_point(a.max) && is_point(b.min) && is_point(b.max),
        encloses(a, p) || encloses(b, p),
    ensures
        encloses(a.spec_union(b), p),
{
}

/// The vertex is that of the file, with height where glTF has it on its second
/// axis, and the third axis of glTF turned round.
pub open spec fn is_turned(engine: Bits3, file: Bits3) -> bool {
    engine[0] == file[0] && engine[2] == file[1] && engine[1] == neg_bits(file[2])
}

/// The vertex data of the primitive is complete: as many normals and texture
/// coordinates as positions, of which there are some, and indices.
pub open spec fn is_complete(raw: RawView) -> bool {
    &&& raw.positions is Some && raw.positions->0.len() > 0
    &&& raw.normals is Some && raw.normals->0.len() == raw.positions->0.len()
    &&& raw.uvs is Some && raw.uvs->0.len() == raw.positions->0.len()
    &&& raw.indices is Some
}

/// The primitive holds the vertex data that was read, vertex by vertex, and the
/// material's name if it is not empty.
pub open spec fn is_made_of(primitive: PrimitiveView, raw: RawView) -> bool {
    &&& is_complete(raw)
    &&& primitive.vertices.len() == raw.positions->0.len()
    &&& forall|i: int|
        #![trigger primitive.vertices[i]]
        0 <= i < primitive.vertices.len() ==> {
            &&& is_turned(primitive.vertices[i].position, raw.positions->0[i])
            &&& is_turned(primitive.vertices[i].normal, raw.normals->0[i])
            &&& primitive.vertices[i].uv == raw.uvs->0[i]
        }
    &&& Some(primitive.indices) == raw.indices
    &&& primitive.material_name == raw.material_name || (primitive.material_name is None
        && raw.material_name == Some(Seq::<char>::empty()))
    &&& primitive.material_name != Some(Seq::<char>::empty())
}

pub(crate) proof fn lemma_decoded(raws: Seq<RawView>)
    ensures
        match decoded(raws) {
            Ok(done) => done.len() == raws.len() && forall|k: int|
                0 <= k < raws.len() ==> is_made_of(#[trigger] done[k], raws[k]),
            Err(fault) => exists|k: int|
                #![trigger raws[k]]
                0 <= k < raws.len() && primitive_fault(raws[k]) == Some(fault) && forall|i: int|
                    0 <= i < k ==> is_complete(#[trigger] raws[i]),
        },
    decreases raws.len(),
{
    if raws.len() > 0 {
        let front = raws.drop_last();
        let last = raws.last();
        assert(raws[raws.len() - 1] == last);
        lemma_decoded(front);
        match decoded(front) {
            Ok(before) => {
                assert forall|i: int| 0 <= i < front.len() implies is_complete(
                    #[trigger] raws[i],
                ) by {
                    assert(is_made_of(before[i], front[i]));
                }
                if primitive_fault(last) is None {
                    let made = repacked(last);
                    let done = before.push(made);
                    if last.material_name is Some && last.material_name->0.len() == 0 {
                        assert(last.material_name->0 =~= Seq::<char>::empty());
                    }
                    assert(is_made_of(made, last));
                    assert forall|k: int| 0 <= k < raws.len() implies is_made_of(
                        #[trigger] done[k],
                        raws[k],
                    ) by {
                        if k < front.len() {
                            assert(is_made_of(before[k], front[k]));
                        }
                    }
                }
            },
            Err(fault) => {
                let k = choose|k: int|
                    #![trigger front[k]]
                    0 <= k < front.len() && primitive_fault(front[k]) == Some(fault)
                        && forall|i: int| 0 <= i < k ==> is_complete(#[trigger] front[i]);
                assert(raws[k] == front[k]);
                assert forall|i: int| 0 <= i < k implies is_complete(#[trigger] raws[i]) by {
                    assert(is_complete(front[i]));
                }
            },
        }
    }
}

/// A decoded mesh holds what its file holds, primitive by primitive, and a file
/// is decoded if and only if it has its bytes, one mesh, neither skins nor
/// animations, and complete vertex data in each of one or more primitives.
pub proof fn law_meshes_are_what_was_read(
    file: MeshFile,
    r: Result<DecodedMesh, MeshLoadError>,
)
    requires
        call_ensures(decode_mesh_file, (file,), r),
    ensures
        r is Ok <==> {
            &&& file.has_blob
            &&& file.skins == 0
            &&& file.animations == 0
            &&& file.meshes == 1
            &&& file.primitives@.len() > 0
            &&& forall|k: int|
                0 <= k < file.primitives@.len() ==> is_complete((#[trigger] file.primitives@[k])@)
        },
        r matches Ok(mesh) ==> mesh.primitives@.len() == file.primitives@.len() && forall|k: int|
            0 <= k < mesh.primitives@.len() ==> is_made_of(
                (#[trigger] mesh.primitives@[k])@,
                file.primitives@[k]@,
            ),
{
    let raws = raw_views(file.primitives@);
    lemma_decoded(raws);
    assert forall|k: int| 0 <= k < raws.len() implies #[trigger] raws[k]
        == file.primitives@[k]@ by {}
    match r {
        Ok(mesh) => {
            let done = mesh@.primitives;
            assert forall|k: int| 0 <= k < mesh.primitives@.len() implies is_made_of(
                (#[trigger] mesh.primitives@[k])@,
                file.primitives@[k]@,
            ) by {
                assert(done[k] == mesh.primitives@[k]@);
                assert(is_made_of(done[k], raws[k]));
            }
            assert forall|k: int| 0 <= k < file.primitives@.len() implies is_complete(
                (#[trigger] file.primitives@[k])@,
            ) by {
                assert(is_made_of(mesh.primitives@[k]@, file.primitives@[k]@));
            }
        },
        Err(e) => {
            if file_fault(
                file.has_blob,
                file.skins as nat,
                file.animations as nat,
                file.meshes as nat,
                file.primitives@.len(),
            ) is None {
                let k = choose|k: int|
                    #![trigger raws[k]]
                    0 <= k < raws.len() && primitive_fault(raws[k]) == Some(e@) && forall|i: int|
                        0 <= i < k ==> is_complete(#[trigger] raws[i]);
                assert(!is_complete(file.primitives@[k]@));
            }
        },
    }
}

/// Each fault of a primitive tells what is the matter: an attribute that is
/// missing, one that comes in another number than the positions, no positions
/// or no indices; positions are looked at before normals, these before texture
/// coordinates, and these before indices.
pub proof fn law_primitive_faults_are_true(raw: RawView)
    ensures
        primitive_fault(raw) is None <==> is_complete(raw),
        match primitive_fault(raw) {
            Some(MeshFault::MissingAttribute(name)) => {
                ||| name == "POSITION"@ && raw.positions is None
                ||| name == "NORMAL"@ && raw.positions is Some && raw.normals is None
                ||| name == "TEXCOORD_0"@ && raw.positions is Some && raw.normals is Some
                    && raw.uvs is None
            },
            Some(MeshFault::EmptyPrimitive) => raw.positions == Some(Seq::<Bits3>::empty()),
            Some(MeshFault::AttributeCountMismatch { attribute, expected, actual }) => {
                &&& raw.positions is Some && expected == raw.positions->0.len()
                &&& raw.normals is Some && expected != actual
                &&& {
                    ||| attribute == "NORMAL"@ && actual == raw.normals->0.len()
                    ||| attribute == "TEXCOORD_0"@ && raw.normals->0.len() == expected && raw.uvs
                        is Some && actual == raw.uvs->0.len()
                }
            },
            Some(MeshFault::MissingIndices) => raw.indices is None && raw.positions is Some
                && raw.normals is Some && raw.uvs is Some && raw.normals->0.len()
                == raw.positions->0.len() && raw.uvs->0.len() == raw.positions->0.len(),
            Some(_) => false,
            None => true,
        },
{
    if raw.positions is Some && raw.positions->0.len() == 0 {
        assert(raw.positions->0 =~= Seq::<Bits3>::empty());
    }
}

/// The bounds of a mesh enclose every vertex of every primitive, provided that
/// all positions are points.
pub proof fn law_bounds_enclose_everything(primitives: Seq<PrimitiveView>, k: int, i: int)
    requires
        0 <= k < primitives.len(),
        0 <= i < primitives[k].vertices.len(),
        forall|m: int| 0 <= m < primitives.len() ==> (#[trigger] primitives[m]).vertices.len() > 0,
        forall|m: int, n: int|
            0 <= m < primitives.len() && 0 <= n < primitives[m].vertices.len() ==> is_point(
                (#[trigger] primitives[m].vertices[n]).position,
            ),
    ensures
        encloses(box_around_all(primitives), primitives[k].vertices[i].position),
        is_point(box_around_all(primitives).min),
        is_point(box_around_all(primitives).max),
    decreases primitives.len(),
{
    let last = primitives.len() - 1;
    assert(primitives[last].vertices.len() > 0);
    assert forall|n: int| 0 <= n < primitives[last].vertices.len() implies is_point(
        (#[trigger] primitives[last].vertices[n]).position,
    ) by {}
    law_box_encloses_its_vertices(primitives[last].vertices);
    let p = primitives[k].vertices[i].position;
    if k == last {
        assert(encloses(box_around(primitives[last].vertices), p));
    }
    if primitives.len() > 1 {
        let front = primitives.drop_last();
        assert forall|m: int| 0 <= m < front.len() implies (#[trigger] front[m]).vertices.len()
            > 0 by {
            assert(primitives[m].vertices.len() > 0);
        }
        assert forall|m: int, n: int|
            0 <= m < front.len() && 0 <= n < front[m].vertices.len() implies is_point(
            (#[trigger] front[m].vertices[n]).position,
        ) by {
            assert(is_point(primitives[m].vertices[n].position));
        }
        if k < last {
            law_bounds_enclose_everything(front, k, i);
        } else {
            law_bounds_enclose_everything(front, 0, 0);
        }
        assert(is_point(p));
        law_union_encloses_both(
            box_around_all(front),
            box_around(primitives[last].vertices),
            p,
        );
    }
}

/// Each error says what is wrong with the file, with the name, the feature or
/// the numbers that it is about.
pub proof fn law_errors_say_what_is_wrong(error: MeshLoadError, detail: &str, text: String)
    requires
        call_ensures(MeshLoadError::message_with, (&error, detail), text),
    ensures
        match error {
            MeshLoadError::Parse(_) => text@ == "glTF parse error: "@ + detail@,
            MeshLoadError::MissingBinaryBlob => text@
                == "glTF has no embedded binary blob (pass .glb, not .gltf+.bin)"@,
            MeshLoadError::Unsupported(feature) => text@ == "glTF declares "@ + feature@
                + ", which the static-mesh loader does not support"@,
            MeshLoadError::WrongMeshCount(n) => text@ == "glTF has "@ + decimal(n as nat)
                + " meshes; the static-mesh loader requires exactly 1"@,
            MeshLoadError::NoPrimitives => text@
                == "glTF mesh has zero primitives; the static-mesh loader requires at least 1"@,
            MeshLoadError::MissingAttribute(name) => text@
                == "glTF primitive is missing required attribute "@ + name@
                + " (loader expects PosNormalUv)"@,
            MeshLoadError::MissingIndices => text@
                == "glTF primitive has no indices accessor; non-indexed draw is not supported"@,
            MeshLoadError::AttributeCountMismatch { attribute, expected, actual } => text@
                == "glTF primitive attribute "@ + attribute@ + " has "@ + decimal(actual as nat)
                + " entries; expected "@ + decimal(expected as nat) + " to match POSITION"@,
            MeshLoadError::EmptyPrimitive => text@ == "glTF primitive has zero positions"@,
        },
{
}

/// A file is refused as a whole for the first thing that is wrong with it: that
/// its bytes are missing, that it has skins, then animations, that it has not
/// one mesh, or that the mesh has no primitives.
pub proof fn law_files_are_refused_for_their_fault(
    has_blob: bool,
    skins: usize,
    animations: usize,
    meshes: usize,
    primitives: usize,
    r: Option<MeshLoadError>,
)
    requires
        call_ensures(check_file, (has_blob, skins, animations, meshes, primitives), r),
    ensures
        r is None <==> has_blob && skins == 0 && animations == 0 && meshes == 1 && primitives > 0,
        r matches Some(e) ==> match e@ {
            MeshFault::MissingBinaryBlob => !has_blob,
            MeshFault::Unsupported(feature) => has_blob && ((skins > 0 && feature == "skins"@) || (
            skins == 0 && animations > 0 && feature == "animations"@)),
            MeshFault::WrongMeshCount(n) => has_blob && skins == 0 && animations == 0 && n == meshes
                && meshes != 1,
            MeshFault::NoPrimitives => has_blob && skins == 0 && animations == 0 && meshes == 1
                && primitives == 0,
            _ => false,
        },
{
}

} // verus!
