//! Boundary following on a labelled copy of the mask.
//!
//! The mask is copied into a grid of signed labels with a one-cell border of
//! zeros: `+1` for foreground, `-1` for background. A raster scan starts a
//! walk wherever a new boundary begins. The walk follows the boundary through
//! the Moore neighbourhood, leaves a mark in every cell for every direction in
//! which it passes, and emits a pixel corner at every turn. The rings of the
//! walks are then put together into polygons.
pub mod grid;
pub mod laws;
pub mod polygons;
pub mod scan;
pub mod walk;
