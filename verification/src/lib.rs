//! Discrete core of a two-dimensional radiance-cascade renderer.
//!
//! Everything here works on integers: probe indexing, the block-accelerated
//! grid walk, closest-hit selection, the sampling schedule and the hash that
//! drives it. Real-valued quantities enter only as IEEE-754 binary32 bit
//! patterns or as order-preserving integer keys, so that each function can be
//! given an exact contract.

pub mod analytic;
pub mod cascade;
pub mod color;
pub mod grid;
pub mod update;
pub mod utils;
pub mod vector;
pub mod voxel;
pub mod walk;
