//! Voxels, the meshes built from them, and the chunks that hold them.

pub mod chunk;
pub mod collection;
pub mod culling;
pub mod model;
pub mod voxel;
