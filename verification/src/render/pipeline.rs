//! The pipelines that the materials draw through, as plain descriptions: what
//! is bound, what the vertex buffers hold and what is written.
//!
//! Texture formats belong to the graphics library; a description carries them
//! along as `F`.

use super::material::{instance_attributes, MeshInstanceAttribs, INSTANCE_STRIDE};
use super::vertex_layout::{
    fills, fits, mesh_vertex, mesh_vertex_attributes, position_attributes, position_vertex,
    VertexAttribute, VertexBufferLayout, VertexFormat, VertexStepMode, MESH_VERTEX_STRIDE,
    POSITION_STRIDE,
};
use vstd::prelude::*;

verus! {

/// What stands at one binding of a group.
#[derive(Debug, Clone, Copy, PartialEq, Eq, Structural)]
pub enum BindingKind {
    UniformBuffer,
    /// A texture that is sampled with filtering.
    FloatTexture,
    /// The layers of a depth texture.
    DepthTextureArray,
    FilteringSampler,
    ComparisonSampler,
}

/// The shader stages that see a binding.
#[derive(Debug, Clone, Copy, PartialEq, Eq, Structural)]
pub enum Visibility {
    Vertex,
    Fragment,
    VertexFragment,
}

/// One binding of a group.
#[derive(Debug, Clone, Copy, PartialEq, Eq, Structural)]
pub struct BindingEntry {
    pub binding: u32,
    pub visibility: Visibility,
    pub kind: BindingKind,
}

/// The bindings are numbered from 0, in order.
pub open spec fn numbered(entries: Seq<BindingEntry>) -> bool {
    forall|i: int| 0 <= i < entries.len() ==> (#[trigger] entries[i]).binding == i
}

/// The groups that a pipeline can bind.
#[derive(Debug, Clone, Copy, PartialEq, Eq, Structural)]
pub enum GroupRole {
    Camera,
    Scene,
    MaterialInstance,
    ShadowCascade,
}

#[derive(Debug, Clone, Copy, PartialEq, Eq, Structural)]
pub enum Blend {
    Replace,
    Alpha,
}

/// A texture that a pipeline writes to.
#[derive(Debug, Clone, Copy)]
pub struct ColorTarget<F> {
    pub format: F,
    pub blend: Option<Blend>,
    /// Whether anything is written, or what is there stays.
    pub writes: bool,
}

#[derive(Debug, Clone, Copy, PartialEq, Eq, Structural)]
pub enum Topology {
    TriangleList,
    LineList,
}

#[derive(Debug, Clone, Copy, PartialEq, Eq, Structural)]
pub enum Face {
    Front,
    Back,
}

/// A bias on depths that are written.
#[derive(Debug, Clone, Copy, PartialEq, Eq, Structural)]
pub struct DepthBias {
    pub constant: i32,
    /// A bit pattern.
    pub slope_scale: u32,
}

/// How a depth has to stand to another one to pass.
#[derive(Debug, Clone, Copy, PartialEq, Eq, Structural)]
pub enum DepthTest {
    Less,
    LessEqual,
}

/// How a pipeline uses the depth texture.
#[derive(Debug, Clone, Copy)]
pub struct DepthUse<F> {
    pub format: F,
    pub writes: bool,
    /// How a fragment's depth has to stand to what is there.
    pub passes: DepthTest,
    pub bias: DepthBias,
}

/// A pipeline.
#[derive(Debug)]
pub struct PipelinePlan<F> {
    pub label: String,
    pub layout_label: String,
    pub groups: Vec<GroupRole>,
    pub buffers: Vec<VertexBufferLayout>,
    pub targets: Vec<ColorTarget<F>>,
    pub topology: Topology,
    /// The faces that are left out.
    pub cull: Option<Face>,
    pub depth: Option<DepthUse<F>>,
}

/// What a `VertexBufferLayout` holds.
pub struct BufferModel {
    pub stride: int,
    pub step: VertexStepMode,
    pub attributes: Seq<VertexAttribute>,
}

/// What a `PipelinePlan` holds.
pub struct PipelineModel<F> {
    pub label: Seq<char>,
    pub layout_label: Seq<char>,
    pub groups: Seq<GroupRole>,
    pub buffers: Seq<BufferModel>,
    pub targets: Seq<ColorTarget<F>>,
    pub topology: Topology,
    pub cull: Option<Face>,
    pub depth: Option<DepthUse<F>>,
}

impl VertexBufferLayout {
    pub open spec fn model(self) -> BufferModel {
        BufferModel {
            stride: self.array_stride as int,
            step: self.step_mode,
            attributes: self.attributes@,
        }
    }
}

impl<F> View for PipelinePlan<F> {
    type V = PipelineModel<F>;

    open spec fn view(&self) -> PipelineModel<F> {
        PipelineModel {
            label: self.label@,
            layout_label: self.layout_label@,
            groups: self.groups@,
            buffers: self.buffers@.map_values(|b: VertexBufferLayout| b.model()),
            targets: self.targets@,
            topology: self.topology,
            cull: self.cull,
            depth: self.depth,
        }
    }
}

/// The formats of the textures that a frame is drawn to.
#[derive(Debug, Clone, Copy)]
pub struct Attachments<F> {
    pub surface: F,
    /// What was hit at each pixel.
    pub id: F,
    pub depth: Option<F>,
}

/// A pipeline that writes hit ids.
pub open spec fn id_writer<F>(id: F) -> ColorTarget<F> {
    ColorTarget { format: id, blend: None, writes: true }
}

/// A pipeline that leaves hit ids as they are.
pub open spec fn id_bystander<F>(id: F) -> ColorTarget<F> {
    ColorTarget { format: id, blend: None, writes: false }
}

/// The target for a pipeline that writes hit ids.
pub fn id_target_writer<F>(id: F) -> (r: ColorTarget<F>)
    ensures
        r == id_writer(id),
{
    ColorTarget { format: id, blend: None, writes: true }
}

/// The target for a pipeline that leaves hit ids as they are.
pub fn id_target_opt_out<F>(id: F) -> (r: ColorTarget<F>)
    ensures
        r == id_bystander(id),
{
    ColorTarget { format: id, blend: None, writes: false }
}

/// No bias.
pub open spec fn no_bias() -> DepthBias {
    DepthBias { constant: 0, slope_scale: 0 }
}

/// The use of the depth texture, where there is one: a fragment passes where it
/// is nearer than what is there.
pub open spec fn depth_use<F>(depth: Option<F>, writes: bool) -> Option<DepthUse<F>> {
    match depth {
        Some(format) => Some(DepthUse { format, writes, passes: DepthTest::Less, bias: no_bias() }),
        None => None,
    }
}

fn use_depth<F: Copy>(depth: Option<F>, writes: bool) -> (r: Option<DepthUse<F>>)
    ensures
        r == depth_use(depth, writes),
{
    match depth {
        Some(format) => {
            Some(
                DepthUse {
                    format,
                    writes,
                    passes: DepthTest::Less,
                    bias: DepthBias { constant: 0, slope_scale: 0 },
                },
            )
        },
        None => None,
    }
}

/// A buffer of instances, at locations from `start`.
pub open spec fn instance_buffer(start: int) -> BufferModel {
    BufferModel {
        stride: INSTANCE_STRIDE as int,
        step: VertexStepMode::Instance,
        attributes: instance_attributes(start),
    }
}

/// A buffer of mesh vertices, at locations from 0.
pub open spec fn mesh_buffer() -> BufferModel {
    BufferModel {
        stride: MESH_VERTEX_STRIDE as int,
        step: VertexStepMode::Vertex,
        attributes: mesh_vertex_attributes(0),
    }
}

/// A buffer of positions, at location 0.
pub open spec fn position_buffer() -> BufferModel {
    BufferModel {
        stride: POSITION_STRIDE as int,
        step: VertexStepMode::Vertex,
        attributes: position_attributes(),
    }
}

fn instances_at(start: u32) -> (r: VertexBufferLayout)
    requires
        start + 5 <= u32::MAX,
    ensures
        r.model() == instance_buffer(start as int),
{
    let fixed = MeshInstanceAttribs::vertex_attributes(start);
    let attributes = vec![fixed[0], fixed[1], fixed[2], fixed[3], fixed[4], fixed[5]];
    assert(attributes@ =~= fixed@);
    VertexBufferLayout {
        array_stride: INSTANCE_STRIDE,
        step_mode: VertexStepMode::Instance,
        attributes,
    }
}

fn mesh_vertices() -> (r: VertexBufferLayout)
    ensures
        r.model() == mesh_buffer(),
{
    VertexBufferLayout {
        array_stride: MESH_VERTEX_STRIDE,
        step_mode: VertexStepMode::Vertex,
        attributes: mesh_vertex(0),
    }
}

fn positions() -> (r: VertexBufferLayout)
    ensures
        r.model() == position_buffer(),
{
    VertexBufferLayout {
        array_stride: POSITION_STRIDE,
        step_mode: VertexStepMode::Vertex,
        attributes: position_vertex(),
    }
}

/// A pipeline for opaque meshes that tells what was hit.
pub open spec fn opaque_model<F>(
    name: Seq<char>,
    groups: Seq<GroupRole>,
    buffers: Seq<BufferModel>,
    topology: Topology,
    formats: Attachments<F>,
) -> PipelineModel<F> {
    PipelineModel {
        label: name + " pipeline"@,
        layout_label: name + " pipeline layout"@,
        groups,
        buffers,
        targets: seq![
            ColorTarget { format: formats.surface, blend: Some(Blend::Replace), writes: true },
            id_writer(formats.id),
        ],
        topology,
        cull: None,
        depth: depth_use(formats.depth, true),
    }
}

fn opaque<F: Copy>(
    name: &str,
    groups: Vec<GroupRole>,
    vertices: VertexBufferLayout,
    instances: VertexBufferLayout,
    topology: Topology,
    formats: Attachments<F>,
) -> (r: PipelinePlan<F>)
    ensures
        r@ == opaque_model(
            name@,
            groups@,
            seq![vertices.model(), instances.model()],
            topology,
            formats,
        ),
{
    let ghost models = seq![vertices.model(), instances.model()];
    let r = PipelinePlan {
        label: name.to_owned().concat(" pipeline"),
        layout_label: name.to_owned().concat(" pipeline layout"),
        groups,
        buffers: vec![vertices, instances],
        targets: vec![
            ColorTarget { format: formats.surface, blend: Some(Blend::Replace), writes: true },
            id_target_writer(formats.id),
        ],
        topology,
        cull: None,
        depth: use_depth(formats.depth, true),
    };
    assert(r@.buffers =~= models);
    assert(r@.targets =~= seq![
        ColorTarget { format: formats.surface, blend: Some(Blend::Replace), writes: true },
        id_writer(formats.id),
    ]);
    r
}

/// The pipeline that the lit mesh materials share: it reads the camera, the
/// scene and the material.
pub open spec fn pbr_style_model<F>(name: Seq<char>, formats: Attachments<F>) -> PipelineModel<F> {
    opaque_model(
        name,
        seq![GroupRole::Camera, GroupRole::Scene, GroupRole::MaterialInstance],
        seq![mesh_buffer(), instance_buffer(3)],
        Topology::TriangleList,
        formats,
    )
}

/// The pipeline of a lit mesh material of the given name.
pub fn build_pbr_style_pipeline<F: Copy>(name: &str, formats: Attachments<F>) -> (r: PipelinePlan<
    F,
>)
    ensures
        r@ == pbr_style_model(name@, formats),
{
    let groups = vec![GroupRole::Camera, GroupRole::Scene, GroupRole::MaterialInstance];
    assert(groups@ =~= seq![GroupRole::Camera, GroupRole::Scene, GroupRole::MaterialInstance]);
    opaque(name, groups, mesh_vertices(), instances_at(3), Topology::TriangleList, formats)
}

/// The pipeline of a material that is not lit: it reads the camera and the
/// material.
pub open spec fn unlit_style_model<F>(
    name: Seq<char>,
    topology: Topology,
    formats: Attachments<F>,
) -> PipelineModel<F> {
    opaque_model(
        name,
        seq![GroupRole::Camera, GroupRole::MaterialInstance],
        seq![position_buffer(), instance_buffer(1)],
        topology,
        formats,
    )
}

fn build_unlit_style_pipeline<F: Copy>(
    name: &str,
    topology: Topology,
    formats: Attachments<F>,
) -> (r: PipelinePlan<F>)
    ensures
        r@ == unlit_style_model(name@, topology, formats),
{
    let groups = vec![GroupRole::Camera, GroupRole::MaterialInstance];
    assert(groups@ =~= seq![GroupRole::Camera, GroupRole::MaterialInstance]);
    opaque(name, groups, positions(), instances_at(1), topology, formats)
}

/// The template of the unlit material.
pub struct UnlitColoredMaterial<F> {
    pub pipeline: PipelinePlan<F>,
    pub instance_layout: Vec<BindingEntry>,
}

impl<F: Copy> UnlitColoredMaterial<F> {
    /// The material for the given formats: an instance is a uniform with its
    /// colour.
    pub fn new(formats: Attachments<F>) -> (r: Self)
        ensures
            r.pipeline@ == unlit_style_model("UnlitColored"@, Topology::TriangleList, formats),
            r.instance_layout@ == uniform_layout(Visibility::Fragment),
    {
        UnlitColoredMaterial {
            pipeline: build_unlit_style_pipeline(
                "UnlitColored",
                Topology::TriangleList,
                formats,
            ),
            instance_layout: one_uniform(Visibility::Fragment),
        }
    }
}

/// A group of one uniform.
pub open spec fn uniform_layout(visibility: Visibility) -> Seq<BindingEntry> {
    seq![BindingEntry { binding: 0, visibility, kind: BindingKind::UniformBuffer }]
}

/// A group of one uniform.
pub fn one_uniform(visibility: Visibility) -> (r: Vec<BindingEntry>)
    ensures
        r@ == uniform_layout(visibility),
        numbered(r@),
{
    let r = vec![BindingEntry { binding: 0, visibility, kind: BindingKind::UniformBuffer }];
    assert(r@ =~= uniform_layout(visibility));
    r
}

/// The template of the material for lines one pixel wide.
pub struct LineMaterial<F> {
    pub pipeline: PipelinePlan<F>,
    pub instance_layout: Vec<BindingEntry>,
}

impl<F: Copy> LineMaterial<F> {
    /// The material for the given formats. It differs from the unlit one in
    /// that it draws lines.
    pub fn new(formats: Attachments<F>) -> (r: Self)
        ensures
            r.pipeline@ == unlit_style_model("Line"@, Topology::LineList, formats),
            r.instance_layout@ == uniform_layout(Visibility::Fragment),
    {
        LineMaterial {
            pipeline: build_unlit_style_pipeline("Line", Topology::LineList, formats),
            instance_layout: one_uniform(Visibility::Fragment),
        }
    }
}

/// The bytes of a fat line's vertex.
pub const FAT_LINE_STRIDE: u64 = 32;

/// The attributes of a fat line's vertex: both ends, the side and the end.
pub open spec fn fat_line_attributes(start: int) -> Seq<VertexAttribute> {
    seq![
        VertexAttribute {
            offset: 0,
            shader_location: start as u32,
            format: VertexFormat::Float32x3,
        },
        VertexAttribute {
            offset: 12,
            shader_location: (start + 1) as u32,
            format: VertexFormat::Float32x3,
        },
        VertexAttribute {
            offset: 24,
            shader_location: (start + 2) as u32,
            format: VertexFormat::Float32,
        },
        VertexAttribute {
            offset: 28,
            shader_location: (start + 3) as u32,
            format: VertexFormat::Float32,
        },
    ]
}

/// The attributes of a fat line's vertex, at locations from `start_location`.
pub fn fat_line_vertex(start_location: u32) -> (r: Vec<VertexAttribute>)
    requires
        start_location + 3 <= u32::MAX,
    ensures
        r@ == fat_line_attributes(start_location as int),
        fills(r@, FAT_LINE_STRIDE as int, start_location as int),
{
    let r = vec![
        VertexAttribute {
            offset: 0,
            shader_location: start_location,
            format: VertexFormat::Float32x3,
        },
        VertexAttribute {
            offset: 12,
            shader_location: start_location + 1,
            format: VertexFormat::Float32x3,
        },
        VertexAttribute {
            offset: 24,
            shader_location: start_location + 2,
            format: VertexFormat::Float32,
        },
        VertexAttribute {
            offset: 28,
            shader_location: start_location + 3,
            format: VertexFormat::Float32,
        },
    ];
    assert(r@ =~= fat_line_attributes(start_location as int));
    r
}

/// A buffer of the vertices of fat lines.
pub open spec fn fat_line_buffer() -> BufferModel {
    BufferModel {
        stride: FAT_LINE_STRIDE as int,
        step: VertexStepMode::Vertex,
        attributes: fat_line_attributes(0),
    }
}

/// The template of the material for lines of any width.
pub struct FatLineMaterial<F> {
    pub pipeline: PipelinePlan<F>,
    pub instance_layout: Vec<BindingEntry>,
}

impl<F: Copy> FatLineMaterial<F> {
    /// The material for the given formats. Its uniform is read in both stages:
    /// the width and the viewport for the vertices, the colour for the
    /// fragments.
    pub fn new(formats: Attachments<F>) -> (r: Self)
        ensures
            r.pipeline@ == opaque_model(
                "FatLine"@,
                seq![GroupRole::Camera, GroupRole::MaterialInstance],
                seq![fat_line_buffer(), instance_buffer(4)],
                Topology::TriangleList,
                formats,
            ),
            r.instance_layout@ == uniform_layout(Visibility::VertexFragment),
    {
        let groups = vec![GroupRole::Camera, GroupRole::MaterialInstance];
        assert(groups@ =~= seq![GroupRole::Camera, GroupRole::MaterialInstance]);
        let vertices = VertexBufferLayout {
            array_stride: FAT_LINE_STRIDE,
            step_mode: VertexStepMode::Vertex,
            attributes: fat_line_vertex(0),
        };
        FatLineMaterial {
            pipeline: opaque(
                "FatLine",
                groups,
                vertices,
                instances_at(4),
                Topology::TriangleList,
                formats,
            ),
            instance_layout: one_uniform(Visibility::VertexFragment),
        }
    }
}

/// The template of the lit material with one texture.
pub struct PbrMaterial<F> {
    pub pipeline: PipelinePlan<F>,
    pub instance_layout: Vec<BindingEntry>,
}

/// An instance of the lit material: its factors, its texture and a sampler.
pub open spec fn pbr_layout() -> Seq<BindingEntry> {
    seq![
        BindingEntry {
            binding: 0,
            visibility: Visibility::Fragment,
            kind: BindingKind::UniformBuffer,
        },
        BindingEntry {
            binding: 1,
            visibility: Visibility::Fragment,
            kind: BindingKind::FloatTexture,
        },
        BindingEntry {
            binding: 2,
            visibility: Visibility::Fragment,
            kind: BindingKind::FilteringSampler,
        },
    ]
}

impl<F: Copy> PbrMaterial<F> {
    /// The material for the given formats.
    pub fn new(formats: Attachments<F>) -> (r: Self)
        ensures
            r.pipeline@ == pbr_style_model("Pbr"@, formats),
            r.instance_layout@ == pbr_layout(),
            numbered(r.instance_layout@),
    {
        let instance_layout = vec![
            BindingEntry {
                binding: 0,
                visibility: Visibility::Fragment,
                kind: BindingKind::UniformBuffer,
            },
            BindingEntry {
                binding: 1,
                visibility: Visibility::Fragment,
                kind: BindingKind::FloatTexture,
            },
            BindingEntry {
                binding: 2,
                visibility: Visibility::Fragment,
                kind: BindingKind::FilteringSampler,
            },
        ];
        assert(instance_layout@ =~= pbr_layout());
        PbrMaterial { pipeline: build_pbr_style_pipeline("Pbr", formats), instance_layout }
    }
}

/// The template of the lit material with two atlases.
pub struct PbrAtlasMaterial<F> {
    pub pipeline: PipelinePlan<F>,
    pub instance_layout: Vec<BindingEntry>,
}

/// An instance of the atlas material: the colour atlas, the atlas of surface
/// properties, and a sampler for both.
pub open spec fn pbr_atlas_layout() -> Seq<BindingEntry> {
    seq![
        BindingEntry {
            binding: 0,
            visibility: Visibility::Fragment,
            kind: BindingKind::FloatTexture,
        },
        BindingEntry {
            binding: 1,
            visibility: Visibility::Fragment,
            kind: BindingKind::FloatTexture,
        },
        BindingEntry {
            binding: 2,
            visibility: Visibility::Fragment,
            kind: BindingKind::FilteringSampler,
        },
    ]
}

impl<F: Copy> PbrAtlasMaterial<F> {
    /// The material for the given formats.
    pub fn new(formats: Attachments<F>) -> (r: Self)
        ensures
            r.pipeline@ == pbr_style_model("PbrAtlas"@, formats),
            r.instance_layout@ == pbr_atlas_layout(),
            numbered(r.instance_layout@),
    {
        let instance_layout = vec![
            BindingEntry {
                binding: 0,
                visibility: Visibility::Fragment,
                kind: BindingKind::FloatTexture,
            },
            BindingEntry {
                binding: 1,
                visibility: Visibility::Fragment,
                kind: BindingKind::FloatTexture,
            },
            BindingEntry {
                binding: 2,
                visibility: Visibility::Fragment,
                kind: BindingKind::FilteringSampler,
            },
        ];
        assert(instance_layout@ =~= pbr_atlas_layout());
        PbrAtlasMaterial {
            pipeline: build_pbr_style_pipeline("PbrAtlas", formats),
            instance_layout,
        }
    }
}

/// The slope scale of the bias in shadow maps: 2 as a bit pattern.
pub const SHADOW_SLOPE_SCALE: u32 = 0x4000_0000;

/// The pipeline that draws meshes into a shadow map: depths alone, of the faces
/// that look away from the sun, with a bias.
pub open spec fn shadow_model<F>(shadow: F) -> PipelineModel<F> {
    PipelineModel {
        label: "currawong shadow mesh pipeline"@,
        layout_label: "currawong shadow mesh pipeline layout"@,
        groups: seq![GroupRole::ShadowCascade],
        buffers: seq![mesh_buffer(), instance_buffer(3)],
        targets: Seq::empty(),
        topology: Topology::TriangleList,
        cull: Some(Face::Front),
        depth: Some(
            DepthUse {
                format: shadow,
                writes: true,
                passes: DepthTest::Less,
                bias: DepthBias { constant: 2, slope_scale: SHADOW_SLOPE_SCALE },
            },
        ),
    }
}

/// The pipeline that draws meshes into a shadow map.
pub struct ShadowMeshPipeline<F> {
    pub pipeline: PipelinePlan<F>,
}

impl<F: Copy> ShadowMeshPipeline<F> {
    /// The pipeline for shadow maps of the given format.
    pub fn new(shadow: F) -> (r: Self)
        ensures
            r.pipeline@ == shadow_model(shadow),
    {
        let vertices = mesh_vertices();
        let instances = instances_at(3);
        let pipeline = PipelinePlan {
            label: "currawong shadow mesh pipeline".to_owned(),
            layout_label: "currawong shadow mesh pipeline layout".to_owned(),
            groups: vec![GroupRole::ShadowCascade],
            buffers: vec![vertices, instances],
            targets: Vec::new(),
            topology: Topology::TriangleList,
            cull: Some(Face::Front),
            depth: Some(
                DepthUse {
                    format: shadow,
                    writes: true,
                    passes: DepthTest::Less,
                    bias: DepthBias { constant: 2, slope_scale: SHADOW_SLOPE_SCALE },
                },
            ),
        };
        assert(pipeline@.groups =~= seq![GroupRole::ShadowCascade]);
        assert(pipeline@.buffers =~= seq![mesh_buffer(), instance_buffer(3)]);
        assert(pipeline@.targets =~= Seq::<ColorTarget<F>>::empty());
        ShadowMeshPipeline { pipeline }
    }
}

/// The bytes of a vertex of the cell highlight.
pub const OUTLINE_STRIDE: u64 = 28;

/// The attributes of a vertex of the cell highlight: position and colour.
pub open spec fn outline_attributes() -> Seq<VertexAttribute> {
    seq![
        VertexAttribute { offset: 0, shader_location: 0, format: VertexFormat::Float32x3 },
        VertexAttribute { offset: 12, shader_location: 1, format: VertexFormat::Float32x4 },
    ]
}

/// The pipeline of the cell highlight: it lies over what is there, hidden by
/// what is nearer, and changes neither depths nor hit ids.
pub open spec fn highlight_model<F>(formats: Attachments<F>) -> PipelineModel<F> {
    PipelineModel {
        label: "CellHighlight pipeline"@,
        layout_label: "CellHighlight pipeline layout"@,
        groups: seq![GroupRole::Camera],
        buffers: seq![
            BufferModel {
                stride: OUTLINE_STRIDE as int,
                step: VertexStepMode::Vertex,
                attributes: outline_attributes(),
            },
        ],
        targets: seq![
            ColorTarget { format: formats.surface, blend: Some(Blend::Alpha), writes: true },
            id_bystander(formats.id),
        ],
        topology: Topology::TriangleList,
        cull: None,
        depth: depth_use(formats.depth, false),
    }
}

/// The pipeline of the cell highlight.
pub fn highlight_pipeline<F: Copy>(formats: Attachments<F>) -> (r: PipelinePlan<F>)
    ensures
        r@ == highlight_model(formats),
{
    let attributes = vec![
        VertexAttribute { offset: 0, shader_location: 0, format: VertexFormat::Float32x3 },
        VertexAttribute { offset: 12, shader_location: 1, format: VertexFormat::Float32x4 },
    ];
    assert(attributes@ =~= outline_attributes());
    let vertices = VertexBufferLayout {
        array_stride: OUTLINE_STRIDE,
        step_mode: VertexStepMode::Vertex,
        attributes,
    };
    let r = PipelinePlan {
        label: "CellHighlight pipeline".to_owned(),
        layout_label: "CellHighlight pipeline layout".to_owned(),
        groups: vec![GroupRole::Camera],
        buffers: vec![vertices],
        targets: vec![
            ColorTarget { format: formats.surface, blend: Some(Blend::Alpha), writes: true },
            id_target_opt_out(formats.id),
        ],
        topology: Topology::TriangleList,
        cull: None,
        depth: use_depth(formats.depth, false),
    };
    assert(r@.groups =~= highlight_model(formats).groups);
    assert(r@.buffers =~= highlight_model(formats).buffers);
    assert(r@.targets =~= highlight_model(formats).targets);
    r
}

/// Each buffer's attributes fill its stride, and their locations count up from
/// `start` through all the buffers.
pub open spec fn packed(buffers: Seq<BufferModel>, start: int) -> bool
    decreases buffers.len(),
{
    if buffers.len() == 0 {
        true
    } else {
        &&& fills(buffers[0].attributes, buffers[0].stride, start)
        &&& packed(buffers.skip(1), start + buffers[0].attributes.len())
    }
}

/// In packed buffers locations are at least `start`.
proof fn lemma_packed_from(buffers: Seq<BufferModel>, start: int, i: int, k: int)
    requires
        packed(buffers, start),
        0 <= i < buffers.len(),
        0 <= k < buffers[i].attributes.len(),
    ensures
        buffers[i].attributes[k].shader_location >= start,
    decreases buffers.len(),
{
    if i == 0 {
        assert(fits(buffers[0].attributes, buffers[0].stride, start, k));
    } else {
        assert(buffers.skip(1)[i - 1] == buffers[i]);
        lemma_packed_from(
            buffers.skip(1),
            start + buffers[0].attributes.len(),
            i - 1,
            k,
        );
    }
}

/// In packed buffers no location stands for two attributes.
pub proof fn law_locations_are_distinct(
    buffers: Seq<BufferModel>,
    start: int,
    i: int,
    k: int,
    j: int,
    l: int,
)
    requires
        packed(buffers, start),
        0 <= i < buffers.len(),
        0 <= k < buffers[i].attributes.len(),
        0 <= j < buffers.len(),
        0 <= l < buffers[j].attributes.len(),
        buffers[i].attributes[k].shader_location == buffers[j].attributes[l].shader_location,
    ensures
        i == j && k == l,
    decreases buffers.len(),
{
    let rest = buffers.skip(1);
    let next = start + buffers[0].attributes.len();
    if i == 0 {
        assert(fits(buffers[0].attributes, buffers[0].stride, start, k));
    }
    if j == 0 {
        assert(fits(buffers[0].attributes, buffers[0].stride, start, l));
    }
    if i == 0 && j > 0 {
        assert(rest[j - 1] == buffers[j]);
        lemma_packed_from(rest, next, j - 1, l);
    } else if i > 0 && j == 0 {
        assert(rest[i - 1] == buffers[i]);
        lemma_packed_from(rest, next, i - 1, k);
    } else if i > 0 && j > 0 {
        assert(rest[i - 1] == buffers[i]);
        assert(rest[j - 1] == buffers[j]);
        law_locations_are_distinct(rest, next, i - 1, k, j - 1, l);
    }
}

/// The pipeline fits what a frame is drawn to: its vertex buffers are packed;
/// its targets have the formats of the frame's textures, in order, and hit ids
/// are not blended; it uses a depth texture if and only if there is one, with
/// its format, and draws what is nearer than what is there.
pub open spec fn suits<F>(model: PipelineModel<F>, formats: Attachments<F>) -> bool {
    &&& packed(model.buffers, 0)
    &&& model.targets.len() == 2
    &&& model.targets[0].format == formats.surface
    &&& model.targets[1].format == formats.id
    &&& model.targets[1].blend is None
    &&& match (model.depth, formats.depth) {
        (Some(depth), Some(format)) => depth.format == format && depth.passes == DepthTest::Less,
        (None, None) => true,
        _ => false,
    }
}

proof fn lemma_two_packed(a: BufferModel, b: BufferModel)
    requires
        fills(a.attributes, a.stride, 0),
        fills(b.attributes, b.stride, a.attributes.len() as int),
    ensures
        packed(seq![a, b], 0),
{
    let both = seq![a, b];
    assert(both.skip(1) =~= seq![b]);
    assert(seq![b].skip(1) =~= Seq::<BufferModel>::empty());
    assert(packed(Seq::<BufferModel>::empty(), 0));
    reveal_with_fuel(packed, 3);
}

/// Every pipeline that draws to a frame fits it, whether or not the frame has
/// a depth texture.
pub proof fn law_pipelines_suit_the_frame<F>(
    name: Seq<char>,
    topology: Topology,
    formats: Attachments<F>,
)
    ensures
        suits(pbr_style_model(name, formats), formats),
        suits(unlit_style_model(name, topology, formats), formats),
        suits(
            opaque_model(
                name,
                seq![GroupRole::Camera, GroupRole::MaterialInstance],
                seq![fat_line_buffer(), instance_buffer(4)],
                topology,
                formats,
            ),
            formats,
        ),
        suits(highlight_model(formats), formats),
{
    lemma_two_packed(mesh_buffer(), instance_buffer(3));
    lemma_two_packed(position_buffer(), instance_buffer(1));
    lemma_two_packed(fat_line_buffer(), instance_buffer(4));
    let outline = highlight_model(formats).buffers;
    assert(outline.skip(1) =~= Seq::<BufferModel>::empty());
    reveal_with_fuel(packed, 2);
}

/// Meshes are drawn into a shadow map from the same buffers as to a frame.
pub proof fn law_shadows_read_the_same_buffers<F>(
    name: Seq<char>,
    formats: Attachments<F>,
    shadow: F,
)
    ensures
        shadow_model(shadow).buffers == pbr_style_model(name, formats).buffers,
        packed(shadow_model(shadow).buffers, 0),
        shadow_model(shadow).targets.len() == 0,
{
    lemma_two_packed(mesh_buffer(), instance_buffer(3));
}

/// The pipeline draws opaque things that can be hit: colours replace what is
/// there, the hit id and the depth are written too, neither face is left out and
/// depths are not biased. It draws instances of vertices, and sees the camera
/// first and the material last.
pub open spec fn draws_opaque<F>(plan: PipelinePlan<F>, formats: Attachments<F>) -> bool {
    &&& plan.targets@.len() == 2
    &&& plan.targets@[0].format == formats.surface && plan.targets@[0].writes
        && plan.targets@[0].blend == Some(Blend::Replace)
    &&& plan.targets@[1].format == formats.id && plan.targets@[1].writes
        && plan.targets@[1].blend is None
    &&& plan.cull is None
    &&& formats.depth matches Some(format) ==> (plan.depth matches Some(depth) && depth.writes
        && depth.format == format && depth.passes == DepthTest::Less && depth.bias.constant == 0
        && depth.bias.slope_scale == 0)
    &&& formats.depth is None ==> plan.depth is None
    &&& plan.buffers@.len() == 2
    &&& plan.buffers@[0].step_mode == VertexStepMode::Vertex
    &&& plan.buffers@[1].step_mode == VertexStepMode::Instance
    &&& plan.buffers@[1].array_stride == 84
    &&& plan.groups@.len() >= 2
    &&& plan.groups@[0] == GroupRole::Camera
    &&& plan.groups@.last() == GroupRole::MaterialInstance
}

/// The materials draw opaque things. Those that are lit see the scene between
/// the camera and the material, the others do not; lines are drawn as such, and
/// all else as triangles; the vertices have as many bytes as their material
/// reads.
pub proof fn law_materials_draw_opaque_things<F: Copy>(
    formats: Attachments<F>,
    pbr: PbrMaterial<F>,
    atlas: PbrAtlasMaterial<F>,
    unlit: UnlitColoredMaterial<F>,
    line: LineMaterial<F>,
    fat: FatLineMaterial<F>,
)
    requires
        call_ensures(PbrMaterial::<F>::new, (formats,), pbr),
        call_ensures(PbrAtlasMaterial::<F>::new, (formats,), atlas),
        call_ensures(UnlitColoredMaterial::<F>::new, (formats,), unlit),
        call_ensures(LineMaterial::<F>::new, (formats,), line),
        call_ensures(FatLineMaterial::<F>::new, (formats,), fat),
    ensures
        draws_opaque(pbr.pipeline, formats),
        draws_opaque(atlas.pipeline, formats),
        draws_opaque(unlit.pipeline, formats),
        draws_opaque(line.pipeline, formats),
        draws_opaque(fat.pipeline, formats),
        pbr.pipeline.groups@.len() == 3 && pbr.pipeline.groups@[1] == GroupRole::Scene,
        atlas.pipeline.groups@ == pbr.pipeline.groups@,
        unlit.pipeline.groups@.len() == 2,
        line.pipeline.groups@.len() == 2,
        fat.pipeline.groups@.len() == 2,
        line.pipeline.topology == Topology::LineList,
        pbr.pipeline.topology == Topology::TriangleList,
        atlas.pipeline.topology == Topology::TriangleList,
        unlit.pipeline.topology == Topology::TriangleList,
        fat.pipeline.topology == Topology::TriangleList,
        pbr.pipeline.buffers@[0].array_stride == 32,
        atlas.pipeline.buffers@[0].array_stride == 32,
        unlit.pipeline.buffers@[0].array_stride == 12,
        line.pipeline.buffers@[0].array_stride == 12,
        fat.pipeline.buffers@[0].array_stride == 32,
        atlas.pipeline.label@ != pbr.pipeline.label@,
{
    lemma_buffer_models(pbr.pipeline);
    lemma_buffer_models(atlas.pipeline);
    lemma_buffer_models(unlit.pipeline);
    lemma_buffer_models(line.pipeline);
    lemma_buffer_models(fat.pipeline);
    reveal_strlit("Pbr");
    reveal_strlit("PbrAtlas");
    reveal_strlit(" pipeline");
    assert(pbr.pipeline.label@.len() == 12);
    assert(atlas.pipeline.label@.len() == 17);
}

proof fn lemma_buffer_models<F>(plan: PipelinePlan<F>)
    ensures
        plan@.buffers.len() == plan.buffers@.len(),
        forall|i: int|
            0 <= i < plan.buffers@.len() ==> (#[trigger] plan.buffers@[i]).model()
                == plan@.buffers[i],
{
}

/// What an instance of each material binds, all of it seen by the fragments: a
/// lit one a uniform, a texture and a sampler; one with atlases two textures
/// and a sampler; the others a uniform, which for lines of any width the
/// vertices see as well.
pub proof fn law_instances_bind_what_they_draw_with<F: Copy>(
    formats: Attachments<F>,
    pbr: PbrMaterial<F>,
    atlas: PbrAtlasMaterial<F>,
    unlit: UnlitColoredMaterial<F>,
    line: LineMaterial<F>,
    fat: FatLineMaterial<F>,
)
    requires
        call_ensures(PbrMaterial::<F>::new, (formats,), pbr),
        call_ensures(PbrAtlasMaterial::<F>::new, (formats,), atlas),
        call_ensures(UnlitColoredMaterial::<F>::new, (formats,), unlit),
        call_ensures(LineMaterial::<F>::new, (formats,), line),
        call_ensures(FatLineMaterial::<F>::new, (formats,), fat),
    ensures
        pbr.instance_layout@.len() == 3 && numbered(pbr.instance_layout@),
        pbr.instance_layout@[0].kind == BindingKind::UniformBuffer,
        pbr.instance_layout@[1].kind == BindingKind::FloatTexture,
        pbr.instance_layout@[2].kind == BindingKind::FilteringSampler,
        atlas.instance_layout@.len() == 3 && numbered(atlas.instance_layout@),
        atlas.instance_layout@[0].kind == BindingKind::FloatTexture,
        atlas.instance_layout@[1].kind == BindingKind::FloatTexture,
        atlas.instance_layout@[2].kind == BindingKind::FilteringSampler,
        forall|i: int|
            0 <= i < 3 ==> (#[trigger] pbr.instance_layout@[i]).visibility == Visibility::Fragment,
        forall|i: int|
            0 <= i < 3 ==> (#[trigger] atlas.instance_layout@[i]).visibility
                == Visibility::Fragment,
        unlit.instance_layout@.len() == 1 && numbered(unlit.instance_layout@),
        unlit.instance_layout@[0].kind == BindingKind::UniformBuffer,
        unlit.instance_layout@[0].visibility == Visibility::Fragment,
        line.instance_layout@ == unlit.instance_layout@,
        fat.instance_layout@.len() == 1 && numbered(fat.instance_layout@),
        fat.instance_layout@[0].kind == BindingKind::UniformBuffer,
        fat.instance_layout@[0].visibility == Visibility::VertexFragment,
{
}

/// The highlight of a cell is blended over what is there and hidden by what is
/// nearer; it leaves hit ids and depths as they are. A shadow map takes depths
/// alone, of the faces that look away, pushed back by two units and twice the
/// slope.
pub proof fn law_highlights_and_shadows_leave_the_rest<F: Copy>(
    formats: Attachments<F>,
    highlight: PipelinePlan<F>,
    shadow: F,
    shadows: ShadowMeshPipeline<F>,
)
    requires
        call_ensures(highlight_pipeline::<F>, (formats,), highlight),
        call_ensures(ShadowMeshPipeline::<F>::new, (shadow,), shadows),
    ensures
        highlight.targets@.len() == 2,
        highlight.targets@[0].blend == Some(Blend::Alpha) && highlight.targets@[0].writes,
        !highlight.targets@[1].writes && highlight.targets@[1].blend is None,
        highlight.depth is Some <==> formats.depth is Some,
        highlight.depth matches Some(depth) ==> !depth.writes && depth.passes == DepthTest::Less,
        highlight.groups@.len() == 1 && highlight.groups@[0] == GroupRole::Camera,
        highlight.buffers@.len() == 1 && highlight.buffers@[0].array_stride == 28,
        shadows.pipeline.targets@.len() == 0,
        shadows.pipeline.groups@.len() == 1 && shadows.pipeline.groups@[0]
            == GroupRole::ShadowCascade,
        shadows.pipeline.cull == Some(Face::Front),
        shadows.pipeline.depth matches Some(depth) && depth.writes && depth.format == shadow
            && depth.passes == DepthTest::Less && depth.bias.constant == 2
            && depth.bias.slope_scale == 0x4000_0000,
{
    lemma_buffer_models(highlight);
}

} // verus!
