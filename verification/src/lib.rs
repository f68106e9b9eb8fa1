//! Cutting a raster image into a regular grid of equally sized tiles.
//!
//! The crate holds the rules of the slicing pipeline: the geometry of the
//! grid, the cropping of each tile, the names under which tiles are stored,
//! and the order in which they are emitted. Reading and writing files is left
//! to the caller.

pub mod decimal;
pub mod geometry;
pub mod naming;
pub mod raster;
pub mod report;
pub mod slicer;
pub mod text;
