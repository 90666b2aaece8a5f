//! ERLPBoost, the entropy regularized LPBoost of Warmuth, Glocer and
//! Vishwanathan: what a round decides.
//!
//! A round asks the weak learner for a hypothesis and lowers the running
//! minimum of the objective. Where that minimum has come within the
//! tolerance of the current optimum, boosting ends and the hypothesis is
//! not kept. Otherwise it is kept, and the distribution is moved by
//! solving quadratic programs until the objective falls by less than
//! the tolerance of the sub-problems or an entry of the distribution
//! has become zero. At the end the weights of the hypotheses come from a
//! linear program, and the hypotheses whose weight is zero are left out.
use crate::hypothesis::nonzero_pairs;
use crate::hypothesis::shorter;
use crate::hypothesis::CombinedHypothesis;
use crate::kernel::any_zero;
use crate::scalar::Scalar;
use std::ops::ControlFlow;
use crate::hypothesis::are_copies;
use crate::hypothesis::copy_all;
use vstd::prelude::*;

verus! {

/// Whether the sequence of quadratic programs of a round is at its end:
/// an entry of the distribution is zero, or the objective fell by less
/// than the tolerance of the sub-problems.
pub open spec fn settled(dist: Seq<Scalar>, decrease: Scalar, sub_tolerance: Scalar) -> bool {
    decrease.below(sub_tolerance) || exists|i: int|
        0 <= i < dist.len() && (#[trigger] dist[i]).magnitude() == 0
}

/// Whether the sequence of quadratic programs of a round is at its end.
pub fn is_settled(dist: &Vec<Scalar>, decrease: Scalar, sub_tolerance: Scalar) -> (r: bool)
    ensures
        r == settled(dist@, decrease, sub_tolerance),
{
    any_zero(dist) || decrease.less_than(sub_tolerance)
}

/// The state of ERLPBoost between rounds.
pub struct ERLPBoost<F> {
    classifiers: Vec<F>,
    max_iter: usize,
    terminated: usize,
}

impl<F> ERLPBoost<F> {
    /// The hypotheses kept so far.
    pub closed spec fn classifiers(&self) -> Seq<F> {
        self.classifiers@
    }

    /// The last round that may ask the weak learner.
    pub closed spec fn round_limit(&self) -> nat {
        self.max_iter as nat
    }

    /// The round that ended the boosting.
    pub closed spec fn ended(&self) -> nat {
        self.terminated as nat
    }

    /// A booster that has not run yet.
    pub fn init() -> (r: Self)
        ensures
            r.classifiers().len() == 0,
            r.round_limit() == usize::MAX,
            r.ended() == 0,
    {
        ERLPBoost { classifiers: Vec::new(), max_iter: usize::MAX, terminated: 0 }
    }

    /// Resets the state for a new run of at most `max_iter` rounds;
    /// unless a round ends it earlier, the run ends with the last.
    pub fn preprocess(&mut self, max_iter: usize)
        ensures
            final(self).classifiers().len() == 0,
            final(self).round_limit() == max_iter,
            final(self).ended() == max_iter,
    {
        self.max_iter = max_iter;
        self.terminated = max_iter;
        self.classifiers = Vec::new();
    }

    /// Whether round `iteration` takes place: it breaks with its number
    /// where it lies past the limit.
    pub fn begin(&self, iteration: usize) -> (r: ControlFlow<usize>)
        ensures
            r == if self.round_limit() < iteration {
                ControlFlow::<usize, ()>::Break(iteration)
            } else {
                ControlFlow::<usize, ()>::Continue(())
            },
    {
        if self.max_iter < iteration {
            ControlFlow::Break(iteration)
        } else {
            ControlFlow::Continue(())
        }
    }

    /// Looks at the gap between the running minimum of the objective and
    /// the current optimum. With a gap of at most the tolerance the
    /// round is noted as the last and breaks with its number, and the
    /// hypothesis is dropped. Otherwise the hypothesis is kept, and the
    /// round signals to continue.
    pub fn settle(&mut self, iteration: usize, h: F, gap: Scalar, tolerance: Scalar) -> (r:
        ControlFlow<usize>)
        ensures
            final(self).round_limit() == old(self).round_limit(),
            if gap.below(tolerance) || gap.same(tolerance) {
                &&& final(self).classifiers() == old(self).classifiers()
                &&& final(self).ended() == iteration
                &&& r == ControlFlow::<usize, ()>::Break(iteration)
            } else {
                &&& final(self).classifiers() == old(self).classifiers().push(h)
                &&& final(self).ended() == old(self).ended()
                &&& r == ControlFlow::<usize, ()>::Continue(())
            },
    {
        if gap.at_most(tolerance) {
            self.terminated = iteration;
            return ControlFlow::Break(iteration);
        }
        self.classifiers.push(h);
        ControlFlow::Continue(())
    }

    /// The round that ended the boosting.
    pub fn terminated(&self) -> (r: usize)
        ensures
            r == self.ended(),
    {
        self.terminated
    }

    /// Hands back the hypotheses whose weight is not zero as a combined
    /// hypothesis: every such weight with a copy of its hypothesis, in
    /// order. The booster stays as it is.
    pub fn postprocess(&self, weights: Vec<Scalar>) -> (r: CombinedHypothesis<F>) where F: Clone
        ensures
            r.constant.bits == 0,
            exists|copies: Seq<F>|
                {
                    &&& #[trigger] are_copies(self.classifiers(), copies)
                    &&& r.inner@ == nonzero_pairs(
                        weights@,
                        copies,
                        shorter(weights@.len(), self.classifiers().len()),
                    )
                },
    {
        let classifiers: Vec<F> = copy_all(&self.classifiers);
        let ghost copies = classifiers@;
        let r = CombinedHypothesis::from_weights(weights, classifiers);
        assert(are_copies(self.classifiers(), copies));
        r
    }
}

} // verus!
