//! Currawong: the verified core of a small game engine.
//!
//! The library holds the engine's rules as plain, proved code: the sandboxed
//! virtual filesystem and the definitions loader (`data`), and the state that
//! the renderer keeps between frames (`render`). Windows, files, the GPU and
//! floating point live in the program around it.

pub mod calendar;
pub mod data;
pub mod digits;
pub mod names;
pub mod render;
pub mod sim;
pub mod table;
pub mod text;
