//! Voxel-world core: block catalog, packed face records, chunk meshing with
//! neighbour-aware culling, and a world that streams chunks around a viewer.
pub mod blocks;
pub mod face;
pub mod chunk;
pub mod world;
