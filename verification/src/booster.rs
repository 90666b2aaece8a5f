//! Boosting algorithms and the driver that runs them.
pub mod adaboost;
pub mod adaboostv;
pub mod cerlpboost;
pub mod driver;
pub mod erlpboost;
pub mod gbm;
pub mod graph_separation_boosting;
pub mod lpboost;
pub mod mlpboost;
pub mod parameters;
pub mod smoothboost;
pub mod softboost;
