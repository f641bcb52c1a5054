//! Data layer: the virtual filesystem and the definitions pipeline.

pub mod definitions;
pub mod host;
pub mod kind_id;
pub mod memory_source;
pub mod path;
pub mod ron_text;
pub mod source;
pub mod vfs;

pub use definitions::{DefError, Definitions, KindDef};
pub use kind_id::{KindId, KindIdError};
pub use memory_source::MemorySource;
pub use path::{VfsPath, VfsPathError};
pub use source::{AssetError, AssetSource};
pub use vfs::Vfs;
