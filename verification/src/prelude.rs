//! Exports the boosting algorithms and traits.
pub use crate::booster::adaboost::AdaBoost;
pub use crate::booster::adaboostv::AdaBoostV;
pub use crate::booster::cerlpboost::CERLPBoost;
pub use crate::booster::driver::run;
pub use crate::booster::driver::Booster;
pub use crate::booster::erlpboost::ERLPBoost;
pub use crate::booster::gbm::GBM;
pub use crate::booster::graph_separation_boosting::GraphSepBoost;
pub use crate::booster::lpboost::LPBoost;
pub use crate::booster::mlpboost::MLPBoost;
pub use crate::booster::smoothboost::SmoothBoost;
pub use crate::booster::softboost::SoftBoost;
pub use crate::hypothesis::Classifier;
pub use crate::hypothesis::CombinedHypothesis;
pub use crate::hypothesis::NaiveAggregation;
pub use crate::hypothesis::Regressor;
pub use crate::research::Research;
pub use crate::sample::Sample;
pub use crate::scalar::Scalar;
pub use crate::weak_learner::WeakLearner;
