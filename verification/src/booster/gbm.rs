//! The gradient boosting machine, after Friedman: what a round decides.
//!
//! A round asks the weak learner for a regressor on the current
//! predictions and finds the coefficient that lowers the loss most. A
//! coefficient of zero means that the new regressor changes nothing: it
//! is not kept, and boosting ends. Any other coefficient joins the list
//! with its regressor. The coefficient is computed by the caller.
use crate::hypothesis::CombinedHypothesis;
use crate::hypothesis::shorter;
use crate::scalar::Scalar;
use std::ops::ControlFlow;
use crate::hypothesis::copy_all;
use crate::hypothesis::copy_weights;
use vstd::prelude::*;

verus! {

/// The number of rounds of a run that was given no other limit.
pub const DEFAULT_MAX_ITER: usize = 100;

/// The state of the gradient boosting machine between rounds.
pub struct GBM<F> {
    weights: Vec<Scalar>,
    hypotheses: Vec<F>,
    max_iter: usize,
    terminated: usize,
}

impl<F> GBM<F> {
    /// The coefficients of the regressors obtained so far.
    pub closed spec fn weights(&self) -> Seq<Scalar> {
        self.weights@
    }

    /// The regressors obtained so far.
    pub closed spec fn hypotheses(&self) -> Seq<F> {
        self.hypotheses@
    }

    /// The last round that may ask the weak learner.
    pub closed spec fn round_limit(&self) -> nat {
        self.max_iter as nat
    }

    /// The round that ended the boosting.
    pub closed spec fn ended(&self) -> nat {
        self.terminated as nat
    }

    /// A booster that has not run yet, for a run of a hundred rounds.
    pub fn init() -> (r: Self)
        ensures
            r.weights().len() == 0,
            r.hypotheses().len() == 0,
            r.round_limit() == DEFAULT_MAX_ITER,
            r.ended() == usize::MAX,
    {
        GBM {
            weights: Vec::new(),
            hypotheses: Vec::new(),
            max_iter: DEFAULT_MAX_ITER,
            terminated: usize::MAX,
        }
    }

    /// Resets the lists for a new run; unless a round ends it earlier,
    /// the run ends with the last round.
    pub fn preprocess(&mut self)
        ensures
            final(self).weights().len() == 0,
            final(self).hypotheses().len() == 0,
            final(self).round_limit() == old(self).round_limit(),
            final(self).ended() == old(self).round_limit(),
    {
        self.weights = Vec::new();
        self.hypotheses = Vec::new();
        self.terminated = self.max_iter;
    }

    /// Whether round `iteration` takes place: it breaks with the number
    /// of the last round where it lies past it.
    pub fn begin(&self, iteration: usize) -> (r: ControlFlow<usize>)
        ensures
            r == if self.round_limit() < iteration {
                ControlFlow::<usize, ()>::Break(self.round_limit() as usize)
            } else {
                ControlFlow::<usize, ()>::Continue(())
            },
    {
        if self.max_iter < iteration {
            ControlFlow::Break(self.max_iter)
        } else {
            ControlFlow::Continue(())
        }
    }

    /// Takes the regressor of round `iteration` with its coefficient.
    /// With a coefficient that compares equal to zero the regressor is
    /// dropped, the round is noted as the last and breaks with its
    /// number. With any other the two join the lists, and the round
    /// signals to continue.
    pub fn settle(&mut self, iteration: usize, h: F, coef: Scalar) -> (r: ControlFlow<usize>)
        ensures
            final(self).round_limit() == old(self).round_limit(),
            coef.magnitude() == 0 ==> {
                &&& r == ControlFlow::<usize, ()>::Break(iteration)
                &&& final(self).weights() == old(self).weights()
                &&& final(self).hypotheses() == old(self).hypotheses()
                &&& final(self).ended() == iteration
            },
            coef.magnitude() != 0 ==> {
                &&& r == ControlFlow::<usize, ()>::Continue(())
                &&& final(self).weights() == old(self).weights().push(coef)
                &&& final(self).hypotheses() == old(self).hypotheses().push(h)
                &&& final(self).ended() == old(self).ended()
            },
    {
        if coef.is_zero() {
            self.terminated = iteration;
            return ControlFlow::Break(iteration);
        }
        self.weights.push(coef);
        self.hypotheses.push(h);
        ControlFlow::Continue(())
    }

    /// The round that ended the boosting.
    pub fn terminated(&self) -> (r: usize)
        ensures
            r == self.ended(),
    {
        self.terminated
    }

    /// Hands back the regressors with their coefficients as a combined
    /// hypothesis: every coefficient with a copy of its regressor, in
    /// order. The booster stays as it is.
    pub fn postprocess(&self) -> (r: CombinedHypothesis<F>) where F: Clone
        ensures
            r.constant.bits == 0,
            r.inner@.len() == shorter(self.weights().len(), self.hypotheses().len()),
            forall|k: int|
                #![all_triggers]
                0 <= k < r.inner@.len() ==> r.inner@[k].0 == self.weights()[k] && cloned::<F>(
                    self.hypotheses()[k],
                    r.inner@[k].1,
                ),
    {
        let hypotheses: Vec<F> = copy_all(&self.hypotheses);
        let weights: Vec<Scalar> = copy_weights(&self.weights);
        let ghost copies = hypotheses@;
        let r = CombinedHypothesis::from_lists(weights, hypotheses);
        assert forall|k: int| #![all_triggers] 0 <= k < r.inner@.len() implies r.inner@[k].0
            == self.weights()[k] && cloned::<F>(self.hypotheses()[k], r.inner@[k].1) by {
            assert(r.inner@[k] == (self.weights@[k], copies[k]));
        }
        r
    }
}

} // verus!
