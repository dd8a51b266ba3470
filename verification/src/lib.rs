//! Verified core of a point-cloud cleanup pipeline: a store of positions with
//! optional colors and normals, a reader for a simple ASCII file layout,
//! voxel deduplication and outlier removal.
//!
//! The crate never computes with coordinates: a position is a value of a
//! caller-chosen type that the library stores, moves and drops. What depends on
//! coordinate arithmetic (the number a word writes, the voxel cell of a point,
//! whether a point lies within the outlier threshold) reaches the library as
//! plain values: options, integers and booleans.

pub mod outlier;
pub mod pipeline;
pub mod ply;
pub mod point_cloud;
pub mod selection;
pub mod text;
pub mod voxel;
