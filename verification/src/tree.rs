//! The recursive quadtree: nodes and the root wrapper.

pub mod quad_node;
pub mod quad_tree;
