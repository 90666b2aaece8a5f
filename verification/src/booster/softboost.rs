//! SoftBoost, after Warmuth, Glocer and Rätsch: what a round decides.
//!
//! A round asks the weak learner for a hypothesis, keeps it, and moves
//! the distribution by solving a sequence of quadratic programs. The
//! boosting ends with the round in which a program has no feasible
//! point, which means that the distribution is optimal to the tolerance,
//! or in which an entry of the distribution has become zero. At the end
//! the weights of the hypotheses come from a linear program, and the
//! hypotheses whose weight is zero are left out.
use crate::hypothesis::nonzero_pairs;
use crate::hypothesis::shorter;
use crate::hypothesis::CombinedHypothesis;
use crate::kernel::any_zero;
use crate::scalar::Scalar;
use crate::solver::Outcome;
use std::ops::ControlFlow;
use crate::hypothesis::are_copies;
use crate::hypothesis::copy_all;
use vstd::prelude::*;

verus! {

/// Whether the distribution cannot be moved further: the last program
/// had no feasible point, or an entry has become zero.
pub open spec fn exhausted(outcome: Outcome, dist: Seq<Scalar>) -> bool {
    outcome == Outcome::Converged || exists|i: int|
        0 <= i < dist.len() && (#[trigger] dist[i]).magnitude() == 0
}

/// Whether the sequence of quadratic programs of a round is at its end:
/// the last step was shorter than the tolerance of the sub-problems.
pub open spec fn settled(step_norm: Scalar, sub_tolerance: Scalar) -> bool {
    step_norm.below(sub_tolerance)
}

/// Whether the sequence of quadratic programs of a round is at its end,
/// given the length of the last step.
pub fn is_settled(step_norm: Scalar, sub_tolerance: Scalar) -> (r: bool)
    ensures
        r == settled(step_norm, sub_tolerance),
{
    step_norm.less_than(sub_tolerance)
}

/// The state of SoftBoost between rounds.
pub struct SoftBoost<F> {
    classifiers: Vec<F>,
    max_iter: usize,
    terminated: usize,
}

impl<F> SoftBoost<F> {
    /// The hypotheses obtained so far.
    pub closed spec fn classifiers(&self) -> Seq<F> {
        self.classifiers@
    }

    /// The last round that may ask the weak learner.
    pub closed spec fn round_limit(&self) -> nat {
        self.max_iter as nat
    }

    /// The round that ended the boosting.
    pub closed spec fn ended(&self) -> nat {
        self.terminated as nat
    }

    /// A booster that has not run yet.
    pub fn init() -> (r: Self)
        ensures
            r.classifiers().len() == 0,
            r.round_limit() == usize::MAX,
            r.ended() == usize::MAX,
    {
        SoftBoost { classifiers: Vec::new(), max_iter: usize::MAX, terminated: usize::MAX }
    }

    /// Resets the state for a new run of at most `max_iter` rounds;
    /// unless a round ends it earlier, the run ends with the last.
    pub fn preprocess(&mut self, max_iter: usize)
        ensures
            final(self).classifiers().len() == 0,
            final(self).round_limit() == max_iter,
            final(self).ended() == max_iter,
    {
        self.max_iter = max_iter;
        self.terminated = max_iter;
        self.classifiers = Vec::new();
    }

    /// Whether round `iteration` takes place: it breaks with its number
    /// where it lies past the limit.
    pub fn begin(&self, iteration: usize) -> (r: ControlFlow<usize>)
        ensures
            r == if self.round_limit() < iteration {
                ControlFlow::<usize, ()>::Break(iteration)
            } else {
                ControlFlow::<usize, ()>::Continue(())
            },
    {
        if self.max_iter < iteration {
            ControlFlow::Break(iteration)
        } else {
            ControlFlow::Continue(())
        }
    }

    /// Keeps the hypothesis of the round.
    pub fn append(&mut self, h: F)
        ensures
            final(self).classifiers() == old(self).classifiers().push(h),
            final(self).round_limit() == old(self).round_limit(),
            final(self).ended() == old(self).ended(),
    {
        self.classifiers.push(h);
    }

    /// Ends round `iteration`, given how the last solve went and the
    /// distribution it left. Where the distribution cannot be moved
    /// further, the round is noted as the last and breaks with its
    /// number; otherwise it signals to continue.
    pub fn settle(&mut self, iteration: usize, outcome: Outcome, dist: &Vec<Scalar>) -> (r:
        ControlFlow<usize>)
        ensures
            final(self).classifiers() == old(self).classifiers(),
            final(self).round_limit() == old(self).round_limit(),
            if exhausted(outcome, dist@) {
                &&& final(self).ended() == iteration
                &&& r == ControlFlow::<usize, ()>::Break(iteration)
            } else {
                &&& final(self).ended() == old(self).ended()
                &&& r == ControlFlow::<usize, ()>::Continue(())
            },
    {
        let converged: bool = match outcome {
            Outcome::Converged => true,
            Outcome::Solved => false,
        };
        if converged || any_zero(dist) {
            self.terminated = iteration;
            return ControlFlow::Break(iteration);
        }
        ControlFlow::Continue(())
    }

    /// The round that ended the boosting.
    pub fn terminated(&self) -> (r: usize)
        ensures
            r == self.ended(),
    {
        self.terminated
    }

    /// Hands back the hypotheses whose weight is not zero as a combined
    /// hypothesis: every such weight with a copy of its hypothesis, in
    /// order. The booster stays as it is.
    pub fn postprocess(&self, weights: Vec<Scalar>) -> (r: CombinedHypothesis<F>) where F: Clone
        ensures
            r.constant.bits == 0,
            exists|copies: Seq<F>|
                {
                    &&& #[trigger] are_copies(self.classifiers(), copies)
                    &&& r.inner@ == nonzero_pairs(
                        weights@,
                        copies,
                        shorter(weights@.len(), self.classifiers().len()),
                    )
                },
    {
        let classifiers: Vec<F> = copy_all(&self.classifiers);
        let ghost copies = classifiers@;
        let r = CombinedHypothesis::from_weights(weights, classifiers);
        assert(are_copies(self.classifiers(), copies));
        r
    }
}

} // verus!
