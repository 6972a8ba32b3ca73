//! Turns per-column voxel-world sample tiles into colored rasters and
//! assembles same-resolution rasters into a multi-resolution quadtree image
//! pyramid.
//!
//! The two engines at the core are the tile decode and color-resolution
//! pipeline (versioned binary layouts, a bitmask condition engine mapping
//! block state to color, biome-weighted tinting and four-layer alpha
//! compositing) and the bottom-up pyramid builder walking a quadtree with
//! an explicit stack, merging four children into each parent. Both are
//! verified; file and network I/O, threads and the command line stay in the
//! surrounding application.

pub mod application;
pub mod color;
pub mod numfmt;
pub mod raster;
pub mod render;
pub mod service;
pub mod text;
pub mod tilegen;
