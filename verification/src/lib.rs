//! A fixed-schedule spatial partition for unordered point clouds.
//!
//! The tree subdivides an axis-aligned cube three levels deep (one box level,
//! two lobe levels, branching factor eight), assigns imported points to leaf
//! lobe cells by a strict per-axis window test, and flattens the stored points
//! back out in a deterministic depth-first order.

pub mod geometry;
pub mod laws;
pub mod model;
pub mod node;
pub mod traversal;
pub mod tree;
