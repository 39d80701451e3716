//! Value types and capabilities for axis-aligned rectangular geometry.

pub mod bounding_box;
pub mod bounding_box_split;
pub mod bounding_tree_node;
pub mod partition;
pub mod rectangle;
pub mod tree_node;
pub mod vec2;
