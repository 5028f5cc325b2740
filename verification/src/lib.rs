//! Wireframe edges of a triangle mesh.
//!
//! Given vertex positions and triangles of vertex indices, the library lists
//! the line segments along which a wireframe overlay is drawn: every edge slot
//! of every triangle whose first index is smaller than its second, in triangle
//! order, each with the positions of its two endpoints.
//!
//! Coordinates are carried as IEEE 754 single-precision bit patterns, so that
//! all decisions are made on integers. Turning a segment into a placement
//! matrix is floating-point arithmetic and is left to the caller.

pub mod edge;
pub mod extract;
pub mod indexed;
pub mod position;
