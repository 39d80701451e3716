//! An adaptive spatial partitioning tree (quadtree) over axis-aligned
//! rectangular regions with 32-bit integer coordinates: it indexes
//! rectangular items so that, given a query region, candidate overlapping
//! items can be found faster than a linear scan.
//!
//! The contracts prove the retrieval guarantee end to end: a query returns
//! every stored item that truly intersects it, never an item that was not
//! stored, and insertion, splitting and clearing preserve the tree's
//! structural invariant.

pub mod shapes;
pub mod tree;

mod error;

pub use error::QuadError;
