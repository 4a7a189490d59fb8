//! Ear-clipping triangulation of simple polygons over integer coordinates.
//!
//! All geometric predicates are exact: coordinates are `i32`, and every
//! cross product is evaluated in `i128`, where it cannot overflow.
pub mod area;
pub mod ear_clipping;
pub mod polygon;
pub mod reference_vertices;
pub mod segment;
pub mod vec;

pub use ear_clipping::{Triangle, triangulate};
pub use polygon::{Error, Polygon};
pub use segment::Segment;
pub use vec::{Linearity, Vec2};
