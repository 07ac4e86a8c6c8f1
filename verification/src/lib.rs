//! A sparse voxel octree with a flat, index-addressed packed form and a
//! bounded, stackless ray traversal over that packed form.
//!
//! The host-side tree is built, queried and edited through [`svo`]; [`tree`]
//! holds the mathematical octree that its contracts speak of. Packing
//! flattens the tree into a node table and a voxel table, which [`layout`]
//! turns into the words and bytes that a graphics device reads, and which
//! [`traversal`] walks, one ray at a time, in a fixed number of steps.
//! [`tree_laws`], [`packing_laws`] and [`walk_laws`] state what holds of each
//! and between them.
//!
//! Floating-point quantities never enter this crate as such. Material
//! components and the elapsed time are carried as IEEE-754 single-precision
//! bit patterns, and the directions and distances of the walk are carried in
//! fixed point.

pub mod layout;
pub mod packing_laws;
pub mod sampling;
pub mod shared;
pub mod svo;
pub mod traversal;
pub mod tree;
pub mod tree_laws;
pub mod walk_laws;

pub use shared::{Material, NodeRef, PackedNode, ShaderConstants, Voxel, TREE_DEPTH};
pub use svo::{Node, PackedSparseVoxelOctree, SparseVoxelOctree};
pub use traversal::{GetResult, HitResult, Ray, TRAVERSAL_STEPS};
pub use tree::Tree;
