//! Integer core of a terrain synthesiser: grid parameterisation, gradient-noise
//! lattice hashing, midpoint-displacement subdivision plans, finite-difference
//! stencils and mesh/raster export rules.
pub mod error;
pub mod export;
pub mod grid;
pub mod noise;
pub mod normals;
pub mod subdivision;
