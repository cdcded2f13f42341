//! Turns a raster image and a one-bit mask into textured, extruded meshes.
//!
//! The pipeline runs leaves first: a packed [`BinaryImage`] is derived from
//! decoded pixels, its foreground regions are traced into polygons with
//! holes, each polygon is triangulated and the triangles are extruded into a
//! prism whose faces are grouped into `front`, `back` and `side`.
//!
//! Every function here is verified: it cannot panic, and its contract states
//! what it returns over the mathematical view of its arguments.
pub mod binary_image;
pub mod bits;
pub mod contour;
pub mod edges;
pub mod error;
pub mod geometry;
pub mod mask;
pub mod mesh;
pub mod obj;
pub mod patterns;
pub mod stats;
pub mod triangulate;

pub use crate::binary_image::BinaryImage;
pub use crate::error::Error;
pub use crate::geometry::{Point, Polygon, Ring};
pub use crate::mask::{generate_binary_mask, MaskMethod};
