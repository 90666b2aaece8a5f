//! LPBoost, after Demiriz, Bennett and Shawe-Taylor, in the form of
//! Warmuth, Glocer and Rätsch: what a round decides.
//!
//! A round asks the weak learner for a hypothesis, lowers the running
//! minimum of the edges, adds the constraint of the hypothesis to a
//! linear program over the capped distributions, and solves it again.
//! Where the optimum has come within the tolerance of the running
//! minimum, boosting ends; otherwise the solution is the next
//! distribution. At the end the weight of a hypothesis is the absolute
//! value of the dual multiplier of its constraint, and the hypotheses
//! whose weight is zero are left out. The optimum, the bound and the
//! multipliers are computed by the caller and the solver.
use crate::hypothesis::nonzero_pairs;
use crate::hypothesis::shorter;
use crate::hypothesis::CombinedHypothesis;
use crate::scalar::Scalar;
use std::ops::ControlFlow;
use crate::hypothesis::are_copies;
use crate::hypothesis::copy_all;
use crate::hypothesis::lemma_unsigned_pairs;
use crate::kernel::abs_all;
use crate::kernel::absolutes;
use vstd::prelude::*;

verus! {

/// The state of LPBoost between rounds.
pub struct LPBoost<F> {
    classifiers: Vec<F>,
    terminated: usize,
}

impl<F> LPBoost<F> {
    /// The hypotheses obtained so far.
    pub closed spec fn classifiers(&self) -> Seq<F> {
        self.classifiers@
    }

    /// The number of hypotheses with which the boosting ended.
    pub closed spec fn ended(&self) -> nat {
        self.terminated as nat
    }

    /// A booster that has not run yet.
    pub fn init() -> (r: Self)
        ensures
            r.classifiers().len() == 0,
            r.ended() == usize::MAX,
    {
        LPBoost { classifiers: Vec::new(), terminated: usize::MAX }
    }

    /// Resets the state for a new run.
    pub fn preprocess(&mut self)
        ensures
            final(self).classifiers().len() == 0,
            final(self).ended() == usize::MAX,
    {
        self.classifiers = Vec::new();
        self.terminated = usize::MAX;
    }

    /// Keeps the hypothesis of the round and compares the optimum of the
    /// linear program, `gamma_star`, with `bound`, the running minimum
    /// of the edges less the tolerance. With an optimum that is at least
    /// the bound the boosting ends: the number of hypotheses is noted,
    /// and the round breaks with it. Otherwise the round signals to
    /// continue.
    pub fn settle(&mut self, h: F, gamma_star: Scalar, bound: Scalar) -> (r: ControlFlow<usize>)
        ensures
            final(self).classifiers() == old(self).classifiers().push(h),
            if bound.below(gamma_star) || bound.same(gamma_star) {
                &&& final(self).ended() == final(self).classifiers().len()
                &&& r == ControlFlow::<usize, ()>::Break(final(self).classifiers().len() as usize)
            } else {
                &&& final(self).ended() == old(self).ended()
                &&& r == ControlFlow::<usize, ()>::Continue(())
            },
    {
        self.classifiers.push(h);
        if bound.at_most(gamma_star) {
            self.terminated = self.classifiers.len();
            return ControlFlow::Break(self.terminated);
        }
        ControlFlow::Continue(())
    }

    /// The number of hypotheses with which the boosting ended; the
    /// largest number there is before that.
    pub fn terminated(&self) -> (r: usize)
        ensures
            r == self.ended(),
    {
        self.terminated
    }

    /// Hands back the combined hypothesis, given the dual multipliers of
    /// the hypotheses' constraints. The weight of a hypothesis is the
    /// absolute value of its multiplier; the hypotheses whose weight is
    /// not zero are handed back, every such weight with a copy of its
    /// hypothesis, in order. So every weight handed back is above zero,
    /// unless the multiplier was a NaN. The booster stays as it is.
    pub fn postprocess(&self, duals: Vec<Scalar>) -> (r: CombinedHypothesis<F>) where F: Clone
        ensures
            r.constant.bits == 0,
            exists|copies: Seq<F>|
                {
                    &&& #[trigger] are_copies(self.classifiers(), copies)
                    &&& r.inner@ == nonzero_pairs(
                        absolutes(duals@),
                        copies,
                        shorter(duals@.len(), self.classifiers().len()),
                    )
                },
            forall|k: int|
                0 <= k < r.inner@.len() ==> (#[trigger] r.inner@[k]).0.nan() || (Scalar {
                    bits: 0,
                }).below(r.inner@[k].0),
    {
        let weights: Vec<Scalar> = abs_all(&duals);
        let classifiers: Vec<F> = copy_all(&self.classifiers);
        let ghost copies = classifiers@;
        let r = CombinedHypothesis::from_weights(weights, classifiers);
        proof {
            assert(are_copies(self.classifiers(), copies));
            lemma_unsigned_pairs(
                absolutes(duals@),
                copies,
                shorter(duals@.len(), self.classifiers().len()),
            );
        }
        r
    }
}

} // verus!
