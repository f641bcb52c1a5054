//! The surface and the textures and uniforms that every frame shares.
//!
//! Numbers are bit patterns.

use super::float_bits::Bits3;
use super::mesh_template::IDENTITY;
use super::pipeline::{
    numbered, one_uniform, uniform_layout, BindingEntry, BindingKind, DepthTest, Visibility,
};
use super::render_object::Mat4Bits;
use super::runner::SHADOW_CASCADE_COUNT;
use vstd::prelude::*;

verus! {

/// A size of which no side is nothing.
pub open spec fn at_least_one(size: u32) -> u32 {
    if size == 0 {
        1
    } else {
        size
    }
}

fn not_zero(size: u32) -> (r: u32)
    ensures
        r == at_least_one(size),
{
    if size == 0 {
        1
    } else {
        size
    }
}

/// Where the first of `formats` stands that is one of colours, from `from` on;
/// `formats.len()` if there is none.
pub open spec fn is_first<F, P: Fn(&F) -> bool>(formats: Seq<F>, is_srgb: P, at: int) -> bool {
    &&& 0 <= at <= formats.len()
    &&& forall|i: int|
        0 <= i < at ==> call_ensures(is_srgb, (&#[trigger] formats[i],), false)
    &&& at < formats.len() ==> call_ensures(is_srgb, (&formats[at],), true)
}

/// The format of the surface: the first for which `is_srgb` holds, or the first
/// of all.
pub fn choose_format<F: Copy, P: Fn(&F) -> bool>(formats: &Vec<F>, is_srgb: P) -> (r: F)
    requires
        formats@.len() > 0,
        forall|f: &F| #[trigger] call_requires(is_srgb, (f,)),
    ensures
        exists|at: int|
            #[trigger] is_first(formats@, is_srgb, at) && r == (if at < formats@.len() {
                formats@[at]
            } else {
                formats@[0]
            }),
{
    let mut i: usize = 0;
    while i < formats.len()
        invariant
            formats@.len() > 0,
            i <= formats@.len(),
            forall|f: &F| #[trigger] call_requires(is_srgb, (f,)),
            forall|j: int|
                0 <= j < i ==> call_ensures(is_srgb, (&#[trigger] formats@[j],), false),
        decreases formats@.len() - i,
    {
        if is_srgb(&formats[i]) {
            assert(is_first(formats@, is_srgb, i as int));
            return formats[i];
        }
        i += 1;
    }
    assert(is_first(formats@, is_srgb, formats@.len() as int));
    formats[0]
}

/// The surface that frames are shown on.
#[derive(Debug, Clone, Copy)]
pub struct SurfaceConfig<F> {
    pub format: F,
    pub width: u32,
    pub height: u32,
}

impl<F: Copy> SurfaceConfig<F> {
    /// A surface for a window of the given size.
    pub fn new(format: F, width: u32, height: u32) -> (r: Self)
        ensures
            r == (SurfaceConfig {
                format,
                width: at_least_one(width),
                height: at_least_one(height),
            }),
    {
        SurfaceConfig { format, width: not_zero(width), height: not_zero(height) }
    }

    /// The window has changed its size.
    pub fn resize(&mut self, width: u32, height: u32)
        ensures
            *final(self) == (SurfaceConfig {
                format: old(self).format,
                width: at_least_one(width),
                height: at_least_one(height),
            }),
    {
        self.width = not_zero(width);
        self.height = not_zero(height);
    }

    /// The size of the surface in pixels.
    pub fn surface_size(&self) -> (r: (u32, u32))
        ensures
            r == (self.width, self.height),
    {
        (self.width, self.height)
    }
}

/// A texture.
#[derive(Debug, Clone, Copy)]
pub struct TexturePlan<F> {
    pub format: F,
    pub width: u32,
    pub height: u32,
    pub layers: u32,
    /// Whether shaders read it.
    pub sampled: bool,
    /// Whether it is copied from.
    pub copied: bool,
}

/// The textures that frames are drawn to besides the surface: depths, if the
/// view asks for them, and hit ids.
#[derive(Debug, Clone, Copy)]
pub struct AttachmentPlan<F> {
    pub depth: Option<TexturePlan<F>>,
    pub id: TexturePlan<F>,
}

/// A depth texture for a surface of the given size.
pub open spec fn depth_texture<F>(format: F, width: u32, height: u32) -> TexturePlan<F> {
    TexturePlan {
        format,
        width: at_least_one(width),
        height: at_least_one(height),
        layers: 1,
        sampled: false,
        copied: false,
    }
}

/// A texture of hit ids for a surface of the given size. It is copied from, to
/// learn what was hit.
pub open spec fn id_texture<F>(format: F, width: u32, height: u32) -> TexturePlan<F> {
    TexturePlan { copied: true, ..depth_texture(format, width, height) }
}

impl<F: Copy> AttachmentPlan<F> {
    /// The textures for a surface of the given size.
    pub fn new(width: u32, height: u32, depth_format: Option<F>, id_format: F) -> (r: Self)
        ensures
            r.id == id_texture(id_format, width, height),
            match depth_format {
                Some(format) => r.depth == Some(depth_texture(format, width, height)),
                None => r.depth is None,
            },
    {
        let width = not_zero(width);
        let height = not_zero(height);
        let depth = match depth_format {
            Some(format) => Some(
                TexturePlan { format, width, height, layers: 1, sampled: false, copied: false },
            ),
            None => None,
        };
        let id = TexturePlan {
            format: id_format,
            width,
            height,
            layers: 1,
            sampled: false,
            copied: true,
        };
        AttachmentPlan { depth, id }
    }

    /// The textures for a surface that has changed its size: their formats
    /// stay.
    pub fn resize(&mut self, width: u32, height: u32)
        ensures
            final(self).id == id_texture(old(self).id.format, width, height),
            match old(self).depth {
                Some(depth) => final(self).depth == Some(
                    depth_texture(depth.format, width, height),
                ),
                None => final(self).depth is None,
            },
    {
        let depth_format = self.depth_format();
        *self = AttachmentPlan::new(width, height, depth_format, self.id.format);
    }

    /// The format of the depths, if there are any.
    pub fn depth_format(&self) -> (r: Option<F>)
        ensures
            match self.depth {
                Some(depth) => r == Some(depth.format),
                None => r is None,
            },
    {
        match self.depth {
            Some(depth) => Some(depth.format),
            None => None,
        }
    }
}

/// The bytes of the uniform of a layer of the shadow map: one matrix.
pub const CASCADE_UNIFORM_BYTES: u64 = 64;

/// What is read outside a texture.
#[derive(Debug, Clone, Copy, PartialEq, Eq, Structural)]
pub enum AddressMode {
    /// What stands at the edge.
    ClampToEdge,
}

/// What is read between the points of a texture.
#[derive(Debug, Clone, Copy, PartialEq, Eq, Structural)]
pub enum FilterMode {
    Nearest,
    Linear,
}

/// How a texture is read.
#[derive(Debug, Clone, Copy, PartialEq, Eq, Structural)]
pub struct SamplerPlan {
    /// In all three directions.
    pub address: AddressMode,
    pub magnify: FilterMode,
    pub minify: FilterMode,
    pub mipmap: FilterMode,
    /// How a depth has to stand to those that are read to pass.
    pub passes: DepthTest,
}

/// How the shadow map is read: smoothly, never beyond its edge, and a point is
/// lit where it is no further from the sun than what is there.
pub open spec fn shadow_sampler() -> SamplerPlan {
    SamplerPlan {
        address: AddressMode::ClampToEdge,
        magnify: FilterMode::Linear,
        minify: FilterMode::Linear,
        mipmap: FilterMode::Nearest,
        passes: DepthTest::LessEqual,
    }
}

/// What shadows need: the map, a view of each of its layers, how it is read, and
/// a uniform for each layer.
#[derive(Debug)]
pub struct ShadowPlan<F> {
    /// The side of a layer, if the view asks for shadows.
    pub resolution: Option<u32>,
    pub map: TexturePlan<F>,
    /// The layer that each view shows, one for each cascade.
    pub layer_views: Vec<u32>,
    pub sampler: SamplerPlan,
    /// The bindings of a cascade.
    pub cascade_layout: Vec<BindingEntry>,
    pub uniform_bytes: u64,
    /// The layers that are cleared before the first frame.
    pub clear_first: Vec<u32>,
}

/// Every layer, in order.
pub open spec fn every_layer() -> Seq<u32> {
    Seq::new(SHADOW_CASCADE_COUNT as nat, |i: int| i as u32)
}

fn all_layers() -> (r: Vec<u32>)
    ensures
        r@ == every_layer(),
{
    let mut out: Vec<u32> = Vec::new();
    let mut i: u32 = 0;
    while i < SHADOW_CASCADE_COUNT
        invariant
            i <= SHADOW_CASCADE_COUNT,
            out@ == Seq::new(i as nat, |k: int| k as u32),
        decreases SHADOW_CASCADE_COUNT - i,
    {
        out.push(i);
        i += 1;
        assert(out@ =~= Seq::new(i as nat, |k: int| k as u32));
    }
    out
}

impl<F: Copy> ShadowPlan<F> {
    /// Shadows at the given resolution. Without one the map is still there,
    /// one pixel wide, so that what is bound is the same. Every layer is
    /// cleared before the first frame reads it.
    pub fn new(format: F, resolution: Option<u32>) -> (r: Self)
        ensures
            r.resolution == resolution,
            r.map == (TexturePlan {
                format,
                width: match resolution {
                    Some(size) => size,
                    None => 1,
                },
                height: match resolution {
                    Some(size) => size,
                    None => 1,
                },
                layers: SHADOW_CASCADE_COUNT,
                sampled: true,
                copied: false,
            }),
            r.layer_views@ == every_layer(),
            r.sampler == shadow_sampler(),
            r.cascade_layout@ == uniform_layout(Visibility::Vertex),
            r.uniform_bytes == CASCADE_UNIFORM_BYTES,
            r.clear_first@ == every_layer(),
    {
        let size = match resolution {
            Some(size) => size,
            None => 1,
        };
        ShadowPlan {
            resolution,
            map: TexturePlan {
                format,
                width: size,
                height: size,
                layers: SHADOW_CASCADE_COUNT,
                sampled: true,
                copied: false,
            },
            layer_views: all_layers(),
            sampler: SamplerPlan {
                address: AddressMode::ClampToEdge,
                magnify: FilterMode::Linear,
                minify: FilterMode::Linear,
                mipmap: FilterMode::Nearest,
                passes: DepthTest::LessEqual,
            },
            cascade_layout: one_uniform(Visibility::Vertex),
            uniform_bytes: CASCADE_UNIFORM_BYTES,
            clear_first: all_layers(),
        }
    }
}

/// The bindings of the scene: its uniform, the shadow map and what compares
/// with it.
pub open spec fn scene_entries() -> Seq<BindingEntry> {
    seq![
        BindingEntry {
            binding: 0,
            visibility: Visibility::VertexFragment,
            kind: BindingKind::UniformBuffer,
        },
        BindingEntry {
            binding: 1,
            visibility: Visibility::Fragment,
            kind: BindingKind::DepthTextureArray,
        },
        BindingEntry {
            binding: 2,
            visibility: Visibility::Fragment,
            kind: BindingKind::ComparisonSampler,
        },
    ]
}

/// The bindings of the scene.
pub fn scene_layout() -> (r: Vec<BindingEntry>)
    ensures
        r@ == scene_entries(),
        numbered(r@),
{
    let r = vec![
        BindingEntry {
            binding: 0,
            visibility: Visibility::VertexFragment,
            kind: BindingKind::UniformBuffer,
        },
        BindingEntry {
            binding: 1,
            visibility: Visibility::Fragment,
            kind: BindingKind::DepthTextureArray,
        },
        BindingEntry {
            binding: 2,
            visibility: Visibility::Fragment,
            kind: BindingKind::ComparisonSampler,
        },
    ];
    assert(r@ =~= scene_entries());
    r
}

/// The bindings of the camera: lit materials read it in both stages.
pub fn camera_layout() -> (r: Vec<BindingEntry>)
    ensures
        r@ == uniform_layout(Visibility::VertexFragment),
        numbered(r@),
{
    one_uniform(Visibility::VertexFragment)
}

/// The bindings of the uniform that hit ids are counted from.
pub fn id_base_layout() -> (r: Vec<BindingEntry>)
    ensures
        r@ == uniform_layout(Visibility::VertexFragment),
        numbered(r@),
{
    one_uniform(Visibility::VertexFragment)
}

/// Where the sun's shadows fall: a matrix for each cascade, and how far from
/// the camera it ends.
#[derive(Debug, Clone, Copy, PartialEq, Eq)]
pub struct SunCascades {
    pub matrices: [Mat4Bits; 4],
    pub splits: [u32; 4],
}

impl SunCascades {
    /// No shadows: shaders tell by the first end, which is 0.
    pub fn disabled() -> (r: Self)
        ensures
            r.splits@ == seq![0u32, 0, 0, 0],
            forall|i: int| 0 <= i < 4 ==> #[trigger] r.matrices@[i] == IDENTITY,
    {
        let r = SunCascades {
            matrices: [IDENTITY, IDENTITY, IDENTITY, IDENTITY],
            splits: [0, 0, 0, 0],
        };
        assert(r.splits@ =~= seq![0u32, 0, 0, 0]);
        r
    }
}

impl Default for SunCascades {
    fn default() -> (r: Self)
        ensures
            r.splits@ == seq![0u32, 0, 0, 0],
            forall|i: int| 0 <= i < 4 ==> #[trigger] r.matrices@[i] == IDENTITY,
    {
        SunCascades::disabled()
    }
}

/// The light of the world. Colours are linear.
#[derive(Debug, Clone, Copy, PartialEq, Eq)]
pub struct ViewEnvironment {
    /// From the world to the sun.
    pub sun_direction: Bits3,
    pub sun_color: Bits3,
    pub ambient: Bits3,
    pub sky_color: Bits3,
    pub sun_cascades: SunCascades,
}

/// 1 as a bit pattern.
const UNIT: u32 = 0x3f80_0000;

impl ViewEnvironment {
    /// White light from everywhere and none from the sun, under a dark sky:
    /// (0.05, 0.07, 0.1).
    pub fn neutral() -> (r: Self)
        ensures
            r.sun_direction@ == seq![0u32, 0, 0x3f80_0000],
            r.sun_color@ == seq![0u32, 0, 0],
            r.ambient@ == seq![0x3f80_0000u32, 0x3f80_0000, 0x3f80_0000],
            r.sky_color@ == seq![0x3d4c_cccdu32, 0x3d8f_5c29, 0x3dcc_cccd],
            r.sun_cascades.splits@ == seq![0u32, 0, 0, 0],
            forall|i: int| 0 <= i < 4 ==> #[trigger] r.sun_cascades.matrices@[i] == IDENTITY,
    {
        let r = ViewEnvironment {
            sun_direction: [0, 0, UNIT],
            sun_color: [0, 0, 0],
            ambient: [UNIT, UNIT, UNIT],
            sky_color: [0x3d4c_cccd, 0x3d8f_5c29, 0x3dcc_cccd],
            sun_cascades: SunCascades::disabled(),
        };
        assert(r.sun_direction@ =~= seq![0u32, 0, 0x3f80_0000]);
        assert(r.sun_color@ =~= seq![0u32, 0, 0]);
        assert(r.ambient@ =~= seq![0x3f80_0000u32, 0x3f80_0000, 0x3f80_0000]);
        assert(r.sky_color@ =~= seq![0x3d4c_cccdu32, 0x3d8f_5c29, 0x3dcc_cccd]);
        r
    }
}

/// A direction or a colour in a uniform: four numbers, the last of them 0.
pub open spec fn padded(v: Bits3) -> Seq<u32> {
    seq![v@[0], v@[1], v@[2], 0]
}

/// The first `n` matrices, one behind the other.
pub open spec fn joined(matrices: Seq<Mat4Bits>, n: nat) -> Seq<u32>
    decreases n,
{
    if n == 0 {
        Seq::empty()
    } else {
        joined(matrices, (n - 1) as nat) + matrices[n - 1]@
    }
}

/// The scene's uniform: the lights, the matrices of the cascades and their
/// ends.
pub open spec fn scene_words(env: ViewEnvironment) -> Seq<u32> {
    padded(env.sun_direction) + padded(env.sun_color) + padded(env.ambient) + padded(env.sky_color)
        + joined(env.sun_cascades.matrices@, 4) + env.sun_cascades.splits@
}

fn push_padded(out: &mut Vec<u32>, v: Bits3)
    ensures
        final(out)@ == old(out)@ + padded(v),
{
    out.push(v[0]);
    out.push(v[1]);
    out.push(v[2]);
    out.push(0);
    assert(out@ =~= old(out)@ + padded(v));
}

/// The scene's uniform.
pub fn scene_uniform(env: &ViewEnvironment) -> (r: Vec<u32>)
    ensures
        r@ == scene_words(*env),
        r@.len() == 84,
{
    let mut out: Vec<u32> = Vec::new();
    push_padded(&mut out, env.sun_direction);
    push_padded(&mut out, env.sun_color);
    push_padded(&mut out, env.ambient);
    push_padded(&mut out, env.sky_color);
    let ghost lights = out@;
    assert(lights =~= padded(env.sun_direction) + padded(env.sun_color) + padded(env.ambient)
        + padded(env.sky_color));
    let matrices = &env.sun_cascades.matrices;
    assert(out@ =~= lights + joined(matrices@, 0));
    let mut i: usize = 0;
    while i < 4
        invariant
            i <= 4,
            *matrices == env.sun_cascades.matrices,
            lights.len() == 16,
            out@ == lights + joined(matrices@, i as nat),
            out@.len() == 16 + 16 * i,
        decreases 4 - i,
    {
        let matrix = &matrices[i];
        let ghost before = out@;
        let mut k: usize = 0;
        while k < 16
            invariant
                k <= 16,
                out@ == before + matrix@.take(k as int),
            decreases 16 - k,
        {
            out.push(matrix[k]);
            k += 1;
            assert(out@ =~= before + matrix@.take(k as int));
        }
        assert(matrix@.take(16) =~= matrix@);
        i += 1;
        assert(out@ =~= lights + joined(matrices@, i as nat));
    }
    let splits = &env.sun_cascades.splits;
    out.push(splits[0]);
    out.push(splits[1]);
    out.push(splits[2]);
    out.push(splits[3]);
    assert(out@ =~= scene_words(*env));
    out
}

/// The uniform of a fat line's material: colour, viewport, width and padding.
#[derive(Debug, Clone, Copy, PartialEq, Eq)]
pub struct FatLineUniform {
    pub base_color: [u32; 4],
    pub viewport_size: [u32; 2],
    pub width_px: u32,
}

/// The bytes of `FatLineUniform`.
pub const FAT_LINE_UNIFORM_BYTES: u64 = 32;

/// Where the viewport stands in `FatLineUniform`, in bytes.
pub const VIEWPORT_OFFSET: u64 = 16;

/// Where the width stands in `FatLineUniform`, in bytes.
pub const WIDTH_OFFSET: u64 = 24;

impl FatLineUniform {
    /// The numbers of the uniform.
    pub open spec fn spec_words(self) -> Seq<u32> {
        self.base_color@ + self.viewport_size@ + seq![self.width_px, 0u32]
    }

    /// A uniform whose viewport is not known yet.
    pub fn new(base_color: [u32; 4], width_px: u32) -> (r: Self)
        ensures
            r.base_color == base_color,
            r.viewport_size@ == seq![0x3f80_0000u32, 0x3f80_0000],
            r.width_px == width_px,
    {
        let r = FatLineUniform { base_color, viewport_size: [UNIT, UNIT], width_px };
        assert(r.viewport_size@ =~= seq![0x3f80_0000u32, 0x3f80_0000]);
        r
    }

    /// The numbers of the uniform.
    pub fn words(&self) -> (r: [u32; 8])
        ensures
            r@ == self.spec_words(),
    {
        let r = [
            self.base_color[0],
            self.base_color[1],
            self.base_color[2],
            self.base_color[3],
            self.viewport_size[0],
            self.viewport_size[1],
            self.width_px,
            0,
        ];
        assert(r@ =~= self.spec_words());
        r
    }
}

/// The words with `part` written over them from the byte `offset` on.
pub open spec fn written_over(words: Seq<u32>, offset: int, part: Seq<u32>) -> Seq<u32> {
    let at = offset / 4;
    words.take(at) + part + words.skip(at + part.len())
}

/// To write one part of a fat line's uniform at its offset is to set that part
/// and no other.
pub proof fn law_parts_stand_at_their_offsets(
    uniform: FatLineUniform,
    base_color: [u32; 4],
    viewport_size: [u32; 2],
    width_px: u32,
)
    ensures
        uniform.spec_words().len() * 4 == FAT_LINE_UNIFORM_BYTES,
        written_over(uniform.spec_words(), 0, base_color@) == (FatLineUniform {
            base_color,
            ..uniform
        }).spec_words(),
        written_over(uniform.spec_words(), VIEWPORT_OFFSET as int, viewport_size@) == (
        FatLineUniform { viewport_size, ..uniform }).spec_words(),
        written_over(uniform.spec_words(), WIDTH_OFFSET as int, seq![width_px]) == (
        FatLineUniform { width_px, ..uniform }).spec_words(),
{
    let words = uniform.spec_words();
    assert(written_over(words, 0, base_color@) =~= (FatLineUniform {
        base_color,
        ..uniform
    }).spec_words());
    assert(written_over(words, VIEWPORT_OFFSET as int, viewport_size@) =~= (FatLineUniform {
        viewport_size,
        ..uniform
    }).spec_words());
    assert(written_over(words, WIDTH_OFFSET as int, seq![width_px]) =~= (FatLineUniform {
        width_px,
        ..uniform
    }).spec_words());
}

/// The uniform of the lit material: colour factor, metallic, roughness and
/// padding to a multiple of 16 bytes.
pub fn pbr_uniform(albedo: [u32; 4], metallic: u32, roughness: u32) -> (r: [u32; 8])
    ensures
        r@ == albedo@ + seq![metallic, roughness, 0, 0],
{
    let r = [albedo[0], albedo[1], albedo[2], albedo[3], metallic, roughness, 0, 0];
    assert(r@ =~= albedo@ + seq![metallic, roughness, 0, 0]);
    r
}

/// The scene's uniform holds the light where shaders read it: four vectors of
/// four numbers (to the sun, its colour, the ambient light, the sky), then the
/// matrices of the cascades one behind the other, then their ends.
pub proof fn law_scenes_stand_where_shaders_read_them(env: ViewEnvironment, words: Vec<u32>)
    requires
        call_ensures(scene_uniform, (&env,), words),
    ensures
        words@.len() == 84,
        forall|k: int|
            #![trigger env.sun_direction@[k]]
            0 <= k < 3 ==> words@[k] == env.sun_direction@[k],
        forall|k: int|
            #![trigger env.sun_color@[k]]
            0 <= k < 3 ==> words@[4 + k] == env.sun_color@[k],
        forall|k: int|
            #![trigger env.ambient@[k]]
            0 <= k < 3 ==> words@[8 + k] == env.ambient@[k],
        forall|k: int|
            #![trigger env.sky_color@[k]]
            0 <= k < 3 ==> words@[12 + k] == env.sky_color@[k],
        words@[3] == 0 && words@[7] == 0 && words@[11] == 0 && words@[15] == 0,
        forall|c: int, k: int|
            #![trigger env.sun_cascades.matrices@[c]@[k]]
            0 <= c < 4 && 0 <= k < 16 ==> words@[16 + 16 * c + k]
                == env.sun_cascades.matrices@[c]@[k],
        forall|c: int|
            #![trigger env.sun_cascades.splits@[c]]
            0 <= c < 4 ==> words@[80 + c] == env.sun_cascades.splits@[c],
{
    let m = env.sun_cascades.matrices@;
    reveal_with_fuel(joined, 5);
    assert(joined(m, 4) =~= m[0]@ + m[1]@ + m[2]@ + m[3]@);
    let lights = padded(env.sun_direction) + padded(env.sun_color) + padded(env.ambient) + padded(
        env.sky_color,
    );
    assert(words@ =~= lights + (m[0]@ + m[1]@ + m[2]@ + m[3]@) + env.sun_cascades.splits@);
    assert forall|c: int, k: int|
        #![trigger env.sun_cascades.matrices@[c]@[k]]
        0 <= c < 4 && 0 <= k < 16 implies words@[16 + 16 * c + k]
        == env.sun_cascades.matrices@[c]@[k] by {
        if c == 0 {
        } else if c == 1 {
        } else if c == 2 {
        } else {
        }
    }
}

/// The surface has the first format of colours; if none is one, it has the
/// first of all.
pub proof fn law_surfaces_have_a_format_of_colours<F: Copy, P: Fn(&F) -> bool>(
    formats: Vec<F>,
    is_srgb: P,
    chosen: F,
    at: int,
)
    requires
        formats@.len() > 0,
        call_ensures(choose_format::<F, P>, (&formats, is_srgb), chosen),
        0 <= at <= formats@.len(),
        forall|i: int|
            0 <= i < at ==> !call_ensures(is_srgb, (&#[trigger] formats@[i],), true),
        at < formats@.len() ==> !call_ensures(is_srgb, (&formats@[at],), false),
    ensures
        at < formats@.len() ==> chosen == formats@[at],
        at == formats@.len() ==> chosen == formats@[0],
{
    let first = choose|first: int|
        #[trigger] is_first(formats@, is_srgb, first) && chosen == (if first < formats@.len() {
            formats@[first]
        } else {
            formats@[0]
        });
    if first < at {
        assert(!call_ensures(is_srgb, (&formats@[first],), true));
    }
    if at < first {
        assert(call_ensures(is_srgb, (&formats@[at],), false));
    }
}

/// What frames are drawn to has the size of the surface, which is that of the
/// window but never less than one pixel. Hit ids are copied from, depths are
/// there if they were asked for, and shaders read neither.
pub proof fn law_attachments_have_the_size_of_the_surface<F: Copy>(
    width: u32,
    height: u32,
    format: F,
    depth_format: Option<F>,
    id_format: F,
    surface: SurfaceConfig<F>,
    attachments: AttachmentPlan<F>,
)
    requires
        call_ensures(SurfaceConfig::<F>::new, (format, width, height), surface),
        call_ensures(
            AttachmentPlan::<F>::new,
            (width, height, depth_format, id_format),
            attachments,
        ),
    ensures
        surface.format == format,
        width > 0 ==> surface.width == width,
        height > 0 ==> surface.height == height,
        width == 0 ==> surface.width == 1,
        height == 0 ==> surface.height == 1,
        attachments.id.width == surface.width && attachments.id.height == surface.height,
        attachments.id.format == id_format && attachments.id.layers == 1,
        attachments.id.copied && !attachments.id.sampled,
        attachments.depth is Some <==> depth_format is Some,
        attachments.depth matches Some(depth) ==> {
            &&& depth.width == surface.width && depth.height == surface.height
            &&& Some(depth.format) == depth_format && depth.layers == 1
            &&& !depth.copied && !depth.sampled
        },
{
}

/// The shadow map has a square layer for each cascade, as wide as was asked
/// for, or a pixel wide if shadows were not; each layer is drawn to and cleared
/// by its own number. Shaders read it smoothly and without crossing its edge,
/// and a point passes that is as far from the sun as what is there.
pub proof fn law_shadow_maps_have_a_layer_for_each_cascade<F: Copy>(
    format: F,
    resolution: Option<u32>,
    plan: ShadowPlan<F>,
)
    requires
        call_ensures(ShadowPlan::<F>::new, (format, resolution), plan),
    ensures
        plan.map.layers == 4 && plan.layer_views@.len() == 4 && plan.clear_first@.len() == 4,
        forall|i: int| 0 <= i < 4 ==> #[trigger] plan.layer_views@[i] == i,
        forall|i: int| 0 <= i < 4 ==> #[trigger] plan.clear_first@[i] == i,
        plan.map.width == plan.map.height,
        plan.map.width == resolution.unwrap_or(1),
        plan.resolution == resolution,
        plan.map.format == format && plan.map.sampled && !plan.map.copied,
        plan.sampler.magnify == FilterMode::Linear && plan.sampler.minify == FilterMode::Linear,
        plan.sampler.address == AddressMode::ClampToEdge,
        plan.sampler.passes == DepthTest::LessEqual,
        plan.cascade_layout@.len() == 1,
        plan.cascade_layout@[0].kind == BindingKind::UniformBuffer,
        plan.cascade_layout@[0].visibility == Visibility::Vertex,
        plan.uniform_bytes == 4 * 16,
{
}

/// The scene binds its uniform, which both stages see, and for the fragments
/// the shadow map and what compares with it; camera and hit ids bind a uniform
/// that both stages see.
pub proof fn law_scenes_bind_light_and_shadow(
    scene: Vec<BindingEntry>,
    camera: Vec<BindingEntry>,
    id_base: Vec<BindingEntry>,
)
    requires
        call_ensures(scene_layout, (), scene),
        call_ensures(camera_layout, (), camera),
        call_ensures(id_base_layout, (), id_base),
    ensures
        scene@.len() == 3 && numbered(scene@),
        scene@[0].kind == BindingKind::UniformBuffer && scene@[0].visibility
            == Visibility::VertexFragment,
        scene@[1].kind == BindingKind::DepthTextureArray && scene@[1].visibility
            == Visibility::Fragment,
        scene@[2].kind == BindingKind::ComparisonSampler && scene@[2].visibility
            == Visibility::Fragment,
        camera@.len() == 1 && numbered(camera@),
        camera@[0].kind == BindingKind::UniformBuffer && camera@[0].visibility
            == Visibility::VertexFragment,
        id_base@ == camera@,
{
}

/// The uniform of a line's material holds the colour, the size of the viewport
/// and the width where shaders read them.
pub proof fn law_line_uniforms_stand_where_shaders_read_them(
    uniform: FatLineUniform,
    words: [u32; 8],
)
    requires
        call_ensures(FatLineUniform::words, (&uniform,), words),
    ensures
        forall|k: int|
            #![trigger uniform.base_color@[k]]
            0 <= k < 4 ==> words@[k] == uniform.base_color@[k],
        words@[4] == uniform.viewport_size@[0] && words@[5] == uniform.viewport_size@[1],
        words@[6] == uniform.width_px && words@[7] == 0,
{
    assert(words@ =~= uniform.base_color@ + uniform.viewport_size@ + seq![uniform.width_px, 0u32]);
}

} // verus!
