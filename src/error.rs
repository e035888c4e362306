use vstd::prelude::*;

verus! {

/// Why a generation call refused its input.
#[derive(Clone, Copy, Debug, PartialEq, Eq, Structural)]
pub enum TerrainError {
    /// The grid's edge length does not suit the requested operation.
    InvalidDimension { size: usize },
    /// A world-space scale factor is zero, so normals cannot be normalised.
    DegenerateScale,
}

} // verus!
