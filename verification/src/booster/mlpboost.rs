//! MLPBoost: what a round decides.
//!
//! The first round keeps the hypothesis of the weak learner with the
//! weight one. Every later round first measures the gap between the
//! smallest edge seen and the objective: with a gap of at most the
//! tolerance, boosting ends. Otherwise a hypothesis that is new joins
//! the list with the weight zero, and two candidate weight vectors are
//! computed, one by a Frank-Wolfe step and one by a linear program; the
//! one whose value under the chosen criterion is not smaller is kept.
//! At the end the hypotheses whose weight is above zero are handed over.
//! The gap, the candidates and their values are computed by the caller.
use crate::hypothesis::first_equal;
use crate::hypothesis::position;
use crate::hypothesis::positive_pairs;
use crate::hypothesis::shorter;
use crate::hypothesis::CombinedHypothesis;
use crate::scalar::Scalar;
use crate::scalar::ONE_BITS;
use std::ops::ControlFlow;
use crate::hypothesis::are_copies;
use crate::hypothesis::copy_all;
use crate::hypothesis::copy_weights;
use vstd::prelude::*;
use vstd::std_specs::cmp::PartialEqSpec;

verus! {

/// Whether the first candidate is kept: its value is at least that of
/// the second. A value that is a NaN keeps the second.
pub open spec fn keeps_primary(prim_val: Scalar, seco_val: Scalar) -> bool {
    seco_val.below(prim_val) || seco_val.same(prim_val)
}

/// Keeps the better of two candidate weight vectors: the first where its
/// value is at least that of the second, the second otherwise.
pub fn better_weight(prim: Vec<Scalar>, seco: Vec<Scalar>, prim_val: Scalar, seco_val: Scalar) -> (r:
    Vec<Scalar>)
    ensures
        r == if keeps_primary(prim_val, seco_val) {
            prim
        } else {
            seco
        },
{
    if seco_val.at_most(prim_val) {
        prim
    } else {
        seco
    }
}

/// The state of MLPBoost between rounds.
pub struct MLPBoost<F> {
    weights: Vec<Scalar>,
    classifiers: Vec<F>,
    max_iter: usize,
    terminated: usize,
}

impl<F: PartialEq> MLPBoost<F> {
    /// The weights on the hypotheses.
    pub closed spec fn weight_view(&self) -> Seq<Scalar> {
        self.weights@
    }

    /// The hypotheses obtained so far.
    pub closed spec fn hypothesis_view(&self) -> Seq<F> {
        self.classifiers@
    }

    /// The last round that may ask the weak learner.
    pub closed spec fn round_limit(&self) -> nat {
        self.max_iter as nat
    }

    /// The round that ended the boosting.
    pub closed spec fn ended(&self) -> nat {
        self.terminated as nat
    }

    /// A booster that has not run yet.
    pub fn init() -> (r: Self)
        ensures
            r.weight_view().len() == 0,
            r.hypothesis_view().len() == 0,
            r.round_limit() == usize::MAX,
            r.ended() == usize::MAX,
    {
        MLPBoost {
            weights: Vec::new(),
            classifiers: Vec::new(),
            max_iter: usize::MAX,
            terminated: usize::MAX,
        }
    }

    /// Resets the state for a new run of at most `max_iter` rounds;
    /// unless a round ends it earlier, the run ends with the last.
    pub fn preprocess(&mut self, max_iter: usize)
        ensures
            final(self).weight_view().len() == 0,
            final(self).hypothesis_view().len() == 0,
            final(self).round_limit() == max_iter,
            final(self).ended() == max_iter,
    {
        self.max_iter = max_iter;
        self.terminated = max_iter;
        self.classifiers = Vec::new();
        self.weights = Vec::new();
    }

    /// Whether round `iteration` takes place: it breaks with its number
    /// where it lies past the limit.
    pub fn begin(&self, iteration: usize) -> (r: ControlFlow<usize>)
        ensures
            r == if self.round_limit() < iteration {
                ControlFlow::<usize, ()>::Break(iteration)
            } else {
                ControlFlow::<usize, ()>::Continue(())
            },
    {
        if self.max_iter < iteration {
            ControlFlow::Break(iteration)
        } else {
            ControlFlow::Continue(())
        }
    }

    /// Takes the hypothesis of round `iteration`. The first round keeps
    /// it with the weight one, and that is the whole round. Every later
    /// round gets it back.
    pub fn start(&mut self, iteration: usize, h: F) -> (r: Option<F>)
        ensures
            final(self).round_limit() == old(self).round_limit(),
            final(self).ended() == old(self).ended(),
            if iteration == 1 {
                &&& r is None
                &&& final(self).weight_view() == old(self).weight_view().push(
                    Scalar { bits: ONE_BITS },
                )
                &&& final(self).hypothesis_view() == old(self).hypothesis_view().push(h)
            } else {
                &&& r == Some(h)
                &&& final(self).weight_view() == old(self).weight_view()
                &&& final(self).hypothesis_view() == old(self).hypothesis_view()
            },
    {
        if iteration == 1 {
            self.classifiers.push(h);
            self.weights.push(Scalar::one());
            None
        } else {
            Some(h)
        }
    }

    /// Looks at the gap between the smallest edge and the objective in
    /// round `iteration`. With a gap of at most the tolerance the round
    /// is noted as the last and breaks with its number; otherwise it
    /// signals to continue.
    pub fn settle(&mut self, iteration: usize, gap: Scalar, tolerance: Scalar) -> (r: ControlFlow<
        usize,
    >)
        ensures
            final(self).weight_view() == old(self).weight_view(),
            final(self).hypothesis_view() == old(self).hypothesis_view(),
            final(self).round_limit() == old(self).round_limit(),
            if gap.below(tolerance) || gap.same(tolerance) {
                &&& final(self).ended() == iteration
                &&& r == ControlFlow::<usize, ()>::Break(iteration)
            } else {
                &&& final(self).ended() == old(self).ended()
                &&& r == ControlFlow::<usize, ()>::Continue(())
            },
    {
        if gap.at_most(tolerance) {
            self.terminated = iteration;
            return ControlFlow::Break(iteration);
        }
        ControlFlow::Continue(())
    }

    /// Finds the place of `h` among the hypotheses. A hypothesis that
    /// equals none of them joins the list with the weight zero, and its
    /// place is the last. The second part of the result says whether it
    /// was new.
    pub fn place(&mut self, h: F) -> (r: (usize, bool))
        ensures
            final(self).round_limit() == old(self).round_limit(),
            final(self).ended() == old(self).ended(),
            r.1 == (r.0 == old(self).hypothesis_view().len()),
            F::obeys_eq_spec() ==> r.0 == first_equal(old(self).hypothesis_view(), h, 0),
            if r.1 {
                &&& final(self).hypothesis_view() == old(self).hypothesis_view().push(h)
                &&& final(self).weight_view() == old(self).weight_view().push(Scalar { bits: 0 })
            } else {
                &&& final(self).hypothesis_view() == old(self).hypothesis_view()
                &&& final(self).weight_view() == old(self).weight_view()
            },
    {
        let pos: usize = position(&self.classifiers, &h);
        if pos == self.classifiers.len() {
            self.classifiers.push(h);
            self.weights.push(Scalar::zero());
            (pos, true)
        } else {
            (pos, false)
        }
    }

    /// Replaces the weights by the better of the two candidates.
    pub fn keep_better(&mut self, prim: Vec<Scalar>, seco: Vec<Scalar>, prim_val: Scalar, seco_val: Scalar)
        ensures
            final(self).weight_view() == if keeps_primary(prim_val, seco_val) {
                prim@
            } else {
                seco@
            },
            final(self).hypothesis_view() == old(self).hypothesis_view(),
            final(self).round_limit() == old(self).round_limit(),
            final(self).ended() == old(self).ended(),
    {
        self.weights = better_weight(prim, seco, prim_val, seco_val);
    }

    /// The weights on the hypotheses.
    pub fn weights(&self) -> (r: &Vec<Scalar>)
        ensures
            r@ == self.weight_view(),
    {
        &self.weights
    }

    /// The hypotheses obtained so far.
    pub fn classifiers(&self) -> (r: &Vec<F>)
        ensures
            r@ == self.hypothesis_view(),
    {
        &self.classifiers
    }

    /// The round that ended the boosting.
    pub fn terminated(&self) -> (r: usize)
        ensures
            r == self.ended(),
    {
        self.terminated
    }

    /// Hands back the hypotheses whose weight is above zero as a
    /// combined hypothesis: every such weight with a copy of its
    /// hypothesis, in order. The booster stays as it is.
    pub fn postprocess(&self) -> (r: CombinedHypothesis<F>) where F: Clone
        ensures
            r.constant.bits == 0,
            exists|copies: Seq<F>|
                {
                    &&& #[trigger] are_copies(self.hypothesis_view(), copies)
                    &&& r.inner@ == positive_pairs(
                        self.weight_view(),
                        copies,
                        shorter(self.weight_view().len(), self.hypothesis_view().len()),
                    )
                },
    {
        let classifiers: Vec<F> = copy_all(&self.classifiers);
        let weights: Vec<Scalar> = copy_weights(&self.weights);
        let ghost copies = classifiers@;
        let r = CombinedHypothesis::from_positive_weights(weights, classifiers);
        assert(are_copies(self.hypothesis_view(), copies));
        r
    }
}

} // verus!
