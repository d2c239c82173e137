//! Reconstructs renderable triangle geometry from a map described as convex
//! solids ("brushes"), each given by an ordered list of bounding planes plus
//! optional per-face displacement data.
//!
//! All geometry is carried in exact rational arithmetic, so plane-side
//! classification, vertex deduplication and line–plane intersection are exact
//! rather than approximate. Callers that start from binary floating-point
//! coordinates can convert them losslessly, since every such value is a
//! dyadic rational.

pub mod brush;
pub mod clip;
pub mod displacement;
pub mod keyvalue;
pub mod material;
pub mod mesh;
pub mod rational;
pub mod vector;
pub mod vpk;
