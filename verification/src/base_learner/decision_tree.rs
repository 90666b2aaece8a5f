//! Decision trees.
pub mod split_rule;
