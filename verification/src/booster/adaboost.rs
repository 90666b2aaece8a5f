//! AdaBoost, after Freund and Schapire: what a round decides.
//!
//! A round asks the weak learner for a hypothesis under the current
//! distribution and computes its edge. A hypothesis whose edge is one or
//! more in absolute value is perfect on the weighted sample: it replaces
//! everything obtained so far, with the sign of its edge as its weight,
//! and boosting ends. Any other hypothesis joins the list with the
//! weight `ln((1 + edge) / (1 - edge)) / 2`, and the distribution is
//! updated. The edge, the weight and the distribution are computed by
//! the caller; the list and the decisions are kept here.
use crate::hypothesis::CombinedHypothesis;
use crate::scalar::Scalar;
use crate::scalar::ONE_BITS;
use std::ops::ControlFlow;
use vstd::prelude::*;

verus! {

/// Whether an edge is one or more in absolute value.
pub open spec fn perfect(edge: Scalar) -> bool {
    !edge.nan() && edge.magnitude() >= ONE_BITS
}

/// Whether `edge` is one or more in absolute value.
pub fn is_perfect(edge: Scalar) -> (r: bool)
    ensures
        r == perfect(edge),
{
    Scalar::one().at_most(edge.abs())
}

/// The state of AdaBoost between rounds.
pub struct AdaBoost<F> {
    weighted_classifiers: Vec<(Scalar, F)>,
    max_iter: usize,
    terminated: usize,
}

impl<F> AdaBoost<F> {
    /// The weights and hypotheses obtained so far.
    pub closed spec fn list(&self) -> Seq<(Scalar, F)> {
        self.weighted_classifiers@
    }

    /// The last round that may ask the weak learner.
    pub closed spec fn round_limit(&self) -> nat {
        self.max_iter as nat
    }

    /// The round in which a perfect hypothesis ended the boosting.
    pub closed spec fn ended(&self) -> nat {
        self.terminated as nat
    }

    /// A booster that has not run yet.
    pub fn init() -> (r: Self)
        ensures
            r.list().len() == 0,
            r.round_limit() == usize::MAX,
            r.ended() == usize::MAX,
    {
        AdaBoost { weighted_classifiers: Vec::new(), max_iter: usize::MAX, terminated: usize::MAX }
    }

    /// Resets the list for a new run of at most `max_iter` rounds.
    pub fn preprocess(&mut self, max_iter: usize)
        ensures
            final(self).list().len() == 0,
            final(self).round_limit() == max_iter,
            final(self).ended() == old(self).ended(),
    {
        self.weighted_classifiers = Vec::new();
        self.max_iter = max_iter;
    }

    /// Whether round `iteration` takes place: it breaks with its number
    /// where it lies past the limit.
    pub fn begin(&self, iteration: usize) -> (r: ControlFlow<usize>)
        ensures
            r == if self.round_limit() < iteration {
                ControlFlow::<usize, ()>::Break(iteration)
            } else {
                ControlFlow::<usize, ()>::Continue(())
            },
    {
        if self.max_iter < iteration {
            ControlFlow::Break(iteration)
        } else {
            ControlFlow::Continue(())
        }
    }

    /// Looks at the edge of the hypothesis of round `iteration`. A
    /// perfect hypothesis becomes the whole list, weighted by the sign
    /// of its edge, and the round is noted as the last. Any other is
    /// handed back, and nothing changes.
    pub fn settle(&mut self, iteration: usize, h: F, edge: Scalar) -> (r: Option<F>)
        ensures
            final(self).round_limit() == old(self).round_limit(),
            perfect(edge) ==> {
                &&& r is None
                &&& final(self).list() == seq![(Scalar { bits: edge.unit_bits() }, h)]
                &&& final(self).ended() == iteration
            },
            !perfect(edge) ==> {
                &&& r == Some(h)
                &&& final(self).list() == old(self).list()
                &&& final(self).ended() == old(self).ended()
            },
    {
        if is_perfect(edge) {
            self.terminated = iteration;
            let mut list: Vec<(Scalar, F)> = Vec::new();
            list.push((edge.unit(), h));
            self.weighted_classifiers = list;
            assert(self.weighted_classifiers@ =~= seq![(Scalar { bits: edge.unit_bits() }, h)]);
            None
        } else {
            Some(h)
        }
    }

    /// Adds a hypothesis with its weight to the list.
    pub fn append(&mut self, weight: Scalar, h: F)
        ensures
            final(self).list() == old(self).list().push((weight, h)),
            final(self).round_limit() == old(self).round_limit(),
            final(self).ended() == old(self).ended(),
    {
        self.weighted_classifiers.push((weight, h));
    }

    /// The weights and hypotheses obtained so far.
    pub fn weighted_classifiers(&self) -> (r: &Vec<(Scalar, F)>)
        ensures
            r@ == self.list(),
    {
        &self.weighted_classifiers
    }

    /// The round in which a perfect hypothesis ended the boosting; the
    /// largest number there is before that.
    pub fn terminated(&self) -> (r: usize)
        ensures
            r == self.ended(),
    {
        self.terminated
    }

    /// Hands back the list as a combined hypothesis: every weight with
    /// a copy of its hypothesis, in order. The booster stays as it is.
    pub fn postprocess(&self) -> (r: CombinedHypothesis<F>) where F: Clone
        ensures
            r.constant.bits == 0,
            r.inner@.len() == self.list().len(),
            forall|k: int|
                #![all_triggers]
                0 <= k < self.list().len() ==> r.inner@[k].0 == self.list()[k].0 && cloned::<F>(
                    self.list()[k].1,
                    r.inner@[k].1,
                ),
    {
        let mut inner: Vec<(Scalar, F)> = Vec::new();
        let mut k: usize = 0;
        while k < self.weighted_classifiers.len()
            invariant
                k <= self.weighted_classifiers@.len(),
                inner@.len() == k,
                forall|j: int|
                    #![all_triggers]
                    0 <= j < k ==> inner@[j].0 == self.weighted_classifiers@[j].0 && cloned::<F>(
                        self.weighted_classifiers@[j].1,
                        inner@[j].1,
                    ),
            decreases self.weighted_classifiers@.len() - k,
        {
            let weight: Scalar = self.weighted_classifiers[k].0;
            let copy: F = self.weighted_classifiers[k].1.clone();
            inner.push((weight, copy));
            k += 1;
        }
        CombinedHypothesis { inner, constant: Scalar::zero() }
    }
}

} // verus!
