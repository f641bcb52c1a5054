//! Render layer: what the renderer keeps and decides between GPU calls.

pub mod asset_server;
pub mod camera_rig;
pub mod cell_highlight;
pub mod emitter;
pub mod float_bits;
pub mod frame_stats;
pub mod glb;
pub mod gltf_file;
pub mod handle;
pub mod instance;
pub mod line_geometry;
pub mod live_render_objects;
pub mod material;
pub mod material_id;
pub mod material_registry;
pub mod mesh;
pub mod mesh_draw;
pub mod mesh_load;
pub mod mesh_primitives;
pub mod mesh_template;
pub mod node_kind;
pub mod pbr;
pub mod pbr_atlas;
pub mod picking;
pub mod picking_buffer;
pub mod pipeline;
pub mod placeholder;
pub mod readback;
pub mod render_object;
pub mod render_object_pass;
pub mod runner;
pub mod scene_resources;
pub mod screenshot;
pub mod vertex_layout;

pub use asset_server::{AssetServer, ResolvedTexture, TextureColorSpace, TextureSource};
pub use cell_highlight::CellHighlight;
pub use emitter::{EmitterReconciler, EmitterTemplate, ParticleLifecycle};
pub use frame_stats::{FrameStats, FrameTimings, GpuSegments};
pub use handle::{Handle, HandleError, HandleState};
pub use instance::InstanceBuckets;
pub use line_geometry::{unit_cube_fat_line_geometry, unit_cube_line_geometry, FatLineVertex};
pub use live_render_objects::{LiveRenderObject, LiveRenderObjects};
pub use material::{MaterialInstanceRegistry, MeshInstanceAttribs};
pub use material_id::{MaterialId, MaterialIdError};
pub use material_registry::MaterialRegistry;
pub use mesh::{Aabb, DecodedMesh, DecodedPrimitive, MeshLoadError, PosNormalUv};
pub use mesh_draw::MeshDraw;
pub use mesh_load::decode_gltf_mesh;
pub use mesh_primitives::PrimitiveMesh;
pub use mesh_template::{
    build_hierarchical_render_template, MeshBacking, MeshNodeSpec, MeshTemplate, NodeSpec,
    RenderSpec, TransformSpec,
};
pub use pbr_atlas::PbrAtlasMaterialParams;
pub use picking::{Hover, TerrainPicker};
pub use picking_buffer::{FrameIdTable, HitTarget};
pub use render_object::{
    EmitterPart, MeshPart, NodeId, NodeKind, RenderRegistry, RenderTemplate, TemplateNode,
};
pub use render_object_pass::RenderObjectPass;
pub use scene_resources::{SunCascades, ViewEnvironment};
