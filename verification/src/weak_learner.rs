//! The weak learner that a booster asks for hypotheses.
use crate::sample::Sample;
use vstd::prelude::*;

verus! {

/// The sum of the first `upto` weights.
pub open spec fn total_weight(weights: Seq<usize>, upto: int) -> int
    decreases upto,
{
    if upto <= 0 || upto > weights.len() {
        0
    } else {
        total_weight(weights, upto - 1) + weights[upto - 1]
    }
}

/// Whether `weights` over `total` is a distribution over the rows of
/// `sample`: one weight per row, and the weights add up to `total`,
/// which is not zero. Row `i` has the probability `weights[i] / total`.
pub open spec fn is_distribution(sample: &Sample, weights: Seq<usize>, total: usize) -> bool {
    &&& weights.len() == sample.rows()
    &&& total > 0
    &&& total_weight(weights, weights.len() as int) == total
}

/// A weak learner: given a sample and a distribution over its rows, it
/// returns a hypothesis. Nothing is promised of the hypothesis.
pub trait WeakLearner {
    /// The hypotheses that the learner returns.
    type Hypothesis;

    /// Returns a hypothesis for `sample` under the distribution that
    /// gives row `i` the probability `weights[i] / total`.
    fn produce(&self, sample: &Sample, weights: &Vec<usize>, total: usize) -> (h: Self::Hypothesis)
        requires
            sample.wf(),
            is_distribution(sample, weights@, total),
    ;
}

/// No weight of a distribution exceeds the total, so every probability
/// lies between zero and one.
pub proof fn lemma_weight_within_total(weights: Seq<usize>, upto: int, i: int)
    requires
        0 <= i < upto <= weights.len(),
    ensures
        weights[i] <= total_weight(weights, upto),
        0 <= total_weight(weights, i) <= total_weight(weights, upto),
    decreases upto,
{
    if i < upto - 1 {
        lemma_weight_within_total(weights, upto - 1, i);
    } else {
        lemma_total_weight_nonnegative(weights, upto - 1);
    }
}

/// A sum of weights is not negative.
pub proof fn lemma_total_weight_nonnegative(weights: Seq<usize>, upto: int)
    ensures
        0 <= total_weight(weights, upto),
    decreases upto,
{
    if 0 < upto <= weights.len() {
        lemma_total_weight_nonnegative(weights, upto - 1);
    }
}

} // verus!
