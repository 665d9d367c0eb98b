//! Ingestion of ASCII STL surface meshes and their cross-sections along
//! axis-aligned cutting planes.
//!
//! Coordinates are IEEE 754 single-precision numbers, carried as their bit
//! patterns ([`Scalar`]). Everything the library decides about them — which
//! side of a plane a point lies on, whether an edge has a zero span — is
//! decided on the bit pattern with integer arithmetic, so that every decision
//! is covered by a proof.
pub mod scalar;
pub mod mesh;
pub mod slicer;
pub mod literal;
pub mod tokens;
pub mod stl;

pub use crate::scalar::Scalar;
pub use crate::mesh::{Axis, Crossing, Line, Mesh, Scheme, Slice, Term, Triangle, Vertex};
pub use crate::stl::ParseError;
