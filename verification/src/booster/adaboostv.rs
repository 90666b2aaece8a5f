//! AdaBoost* of Rätsch and Warmuth, here called AdaBoostV: what a round
//! decides.
//!
//! The rounds go as those of AdaBoost; the weight of a hypothesis also
//! depends on a running estimate of the margin, which the caller keeps.
//! At the end the hypotheses whose weight is zero are left out.
use crate::booster::adaboost::is_perfect;
use crate::booster::adaboost::perfect;
use crate::hypothesis::nonzero_pairs;
use crate::hypothesis::shorter;
use crate::hypothesis::CombinedHypothesis;
use crate::scalar::Scalar;
use std::ops::ControlFlow;
use crate::hypothesis::are_copies;
use crate::hypothesis::copy_all;
use crate::hypothesis::copy_weights;
use vstd::prelude::*;

verus! {

/// The state of AdaBoostV between rounds.
pub struct AdaBoostV<F> {
    weights: Vec<Scalar>,
    classifiers: Vec<F>,
    max_iter: usize,
    terminated: usize,
}

impl<F> AdaBoostV<F> {
    /// The weights on the hypotheses obtained so far.
    pub closed spec fn weight_view(&self) -> Seq<Scalar> {
        self.weights@
    }

    /// The hypotheses obtained so far.
    pub closed spec fn hypothesis_view(&self) -> Seq<F> {
        self.classifiers@
    }

    /// The last round that may ask the weak learner.
    pub closed spec fn round_limit(&self) -> nat {
        self.max_iter as nat
    }

    /// The round in which a perfect hypothesis ended the boosting.
    pub closed spec fn ended(&self) -> nat {
        self.terminated as nat
    }

    /// A booster that has not run yet.
    pub fn init() -> (r: Self)
        ensures
            r.weight_view().len() == 0,
            r.hypothesis_view().len() == 0,
            r.round_limit() == usize::MAX,
            r.ended() == usize::MAX,
    {
        AdaBoostV {
            weights: Vec::new(),
            classifiers: Vec::new(),
            max_iter: usize::MAX,
            terminated: usize::MAX,
        }
    }

    /// Resets the lists for a new run of at most `max_iter` rounds.
    pub fn preprocess(&mut self, max_iter: usize)
        ensures
            final(self).weight_view().len() == 0,
            final(self).hypothesis_view().len() == 0,
            final(self).round_limit() == max_iter,
            final(self).ended() == old(self).ended(),
    {
        self.weights = Vec::new();
        self.classifiers = Vec::new();
        self.max_iter = max_iter;
    }

    /// Whether round `iteration` takes place: it breaks with its number
    /// where it lies past the limit.
    pub fn begin(&self, iteration: usize) -> (r: ControlFlow<usize>)
        ensures
            r == if self.round_limit() < iteration {
                ControlFlow::<usize, ()>::Break(iteration)
            } else {
                ControlFlow::<usize, ()>::Continue(())
            },
    {
        if self.max_iter < iteration {
            ControlFlow::Break(iteration)
        } else {
            ControlFlow::Continue(())
        }
    }

    /// Looks at the edge of the hypothesis of round `iteration`. A
    /// perfect hypothesis becomes the only one, weighted by the sign of
    /// its edge, and the round is noted as the last. Any other is handed
    /// back, and nothing changes.
    pub fn settle(&mut self, iteration: usize, h: F, edge: Scalar) -> (r: Option<F>)
        ensures
            final(self).round_limit() == old(self).round_limit(),
            perfect(edge) ==> {
                &&& r is None
                &&& final(self).weight_view() == seq![Scalar { bits: edge.unit_bits() }]
                &&& final(self).hypothesis_view() == seq![h]
                &&& final(self).ended() == iteration
            },
            !perfect(edge) ==> {
                &&& r == Some(h)
                &&& final(self).weight_view() == old(self).weight_view()
                &&& final(self).hypothesis_view() == old(self).hypothesis_view()
                &&& final(self).ended() == old(self).ended()
            },
    {
        if is_perfect(edge) {
            self.terminated = iteration;
            let mut weights: Vec<Scalar> = Vec::new();
            weights.push(edge.unit());
            let mut classifiers: Vec<F> = Vec::new();
            classifiers.push(h);
            self.weights = weights;
            self.classifiers = classifiers;
            assert(self.weights@ =~= seq![Scalar { bits: edge.unit_bits() }]);
            assert(self.classifiers@ =~= seq![h]);
            None
        } else {
            Some(h)
        }
    }

    /// Adds a hypothesis and its weight.
    pub fn append(&mut self, weight: Scalar, h: F)
        ensures
            final(self).weight_view() == old(self).weight_view().push(weight),
            final(self).hypothesis_view() == old(self).hypothesis_view().push(h),
            final(self).round_limit() == old(self).round_limit(),
            final(self).ended() == old(self).ended(),
    {
        self.weights.push(weight);
        self.classifiers.push(h);
    }

    /// The weights on the hypotheses obtained so far.
    pub fn weights(&self) -> (r: &Vec<Scalar>)
        ensures
            r@ == self.weight_view(),
    {
        &self.weights
    }

    /// The hypotheses obtained so far.
    pub fn classifiers(&self) -> (r: &Vec<F>)
        ensures
            r@ == self.hypothesis_view(),
    {
        &self.classifiers
    }

    /// The round in which a perfect hypothesis ended the boosting; the
    /// largest number there is before that.
    pub fn terminated(&self) -> (r: usize)
        ensures
            r == self.ended(),
    {
        self.terminated
    }

    /// Hands back the hypotheses whose weight is not zero as a combined
    /// hypothesis: every such weight with a copy of its hypothesis, in
    /// order. The booster stays as it is.
    pub fn postprocess(&self) -> (r: CombinedHypothesis<F>) where F: Clone
        ensures
            r.constant.bits == 0,
            exists|copies: Seq<F>|
                {
                    &&& #[trigger] are_copies(self.hypothesis_view(), copies)
                    &&& r.inner@ == nonzero_pairs(
                        self.weight_view(),
                        copies,
                        shorter(self.weight_view().len(), self.hypothesis_view().len()),
                    )
                },
    {
        let classifiers: Vec<F> = copy_all(&self.classifiers);
        let weights: Vec<Scalar> = copy_weights(&self.weights);
        let ghost copies = classifiers@;
        let r = CombinedHypothesis::from_weights(weights, classifiers);
        assert(are_copies(self.hypothesis_view(), copies));
        r
    }
}

} // verus!
