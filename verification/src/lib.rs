//! Boosting for binary classification and regression over tabular data.
//!
//! The crate holds what the boosting framework decides on whole numbers,
//! on order and on sign, and proves it: how a sample is laid out and
//! read from the fields of a text, how hypotheses are listed, filtered
//! and put to a vote, how the driver moves a booster from round to
//! round, when each booster ends a round or a run, in which order the
//! numeric kernels visit the rows, and the graph separation booster as
//! a whole, whose state is a graph over the rows.
//!
//! Real numbers are carried as [`Scalar`](scalar::Scalar) values, the
//! encodings of binary64 numbers. The crate compares them and reads
//! their sign, exactly as binary64 arithmetic does; it never adds or
//! multiplies them. Sums, products, logarithms and the solver of linear
//! and quadratic programs belong to the caller, who hands their results
//! in as values.
pub mod base_learner;
pub mod booster;
pub mod hypothesis;
pub mod kernel;
pub mod prelude;
pub mod research;
pub mod sample;
pub mod scalar;
pub mod solver;
pub mod weak_learner;
