//! Base learners.
pub mod decision_tree;
