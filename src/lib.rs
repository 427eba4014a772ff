//! Filtering and rendering of directory trees: extension allow and deny lists,
//! folder exclusion by name or path, a flat listing and a box-drawn tree.
pub mod filters;
pub mod order;
pub mod render;
pub mod scan;
pub mod text;
pub mod tree;
pub mod types;
