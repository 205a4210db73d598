//! A sparse world of fixed-size voxel chunks.
//!
//! The crate turns a three-dimensional grid of voxel occupancy into a triangle
//! mesh of the faces that can be seen from outside, and keeps the chunks of a
//! world in a map from chunk coordinate to chunk. Positions are whole numbers
//! on a lattice whose unit is half a voxel, and colour channels are whole
//! numbers of thousandths, so that every result is stated exactly.

pub mod state;
pub mod voxels;
