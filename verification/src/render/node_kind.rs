//! The tags by which a node of a render block says what it holds.

use vstd::prelude::*;

verus! {

/// Nothing.
pub const EMPTY: &'static str = "empty";

/// A mesh.
pub const MESH: &'static str = "mesh";

} // verus!
