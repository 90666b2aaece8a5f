//! SmoothBoost, after Servedio: what a round decides.
//!
//! The booster keeps a weight between zero and one for every row. A
//! round first adds the weights up: where the sum has fallen below the
//! number of rows times the accuracy parameter, boosting ends, and the
//! round before is noted as the last. Otherwise the weak learner is
//! asked under the weights divided by their sum, and its hypothesis is
//! kept. At the end every hypothesis gets the same weight. The sum, the
//! bound and the weight are computed by the caller.
use crate::hypothesis::CombinedHypothesis;
use crate::scalar::Scalar;
use std::ops::ControlFlow;
use crate::hypothesis::copy_all;
use vstd::prelude::*;

verus! {

/// The state of SmoothBoost between rounds.
pub struct SmoothBoost<F> {
    classifiers: Vec<F>,
    current: usize,
    max_iter: usize,
    terminated: usize,
}

impl<F> SmoothBoost<F> {
    /// The hypotheses obtained so far.
    pub closed spec fn hypothesis_view(&self) -> Seq<F> {
        self.classifiers@
    }

    /// The round that was begun last.
    pub closed spec fn current(&self) -> nat {
        self.current as nat
    }

    /// The last round that may ask the weak learner.
    pub closed spec fn round_limit(&self) -> nat {
        self.max_iter as nat
    }

    /// The last round that obtained a hypothesis.
    pub closed spec fn ended(&self) -> nat {
        self.terminated as nat
    }

    /// A booster that has not run yet.
    pub fn init() -> (r: Self)
        ensures
            r.hypothesis_view().len() == 0,
            r.current() == 0,
            r.round_limit() == usize::MAX,
            r.ended() == usize::MAX,
    {
        SmoothBoost {
            classifiers: Vec::new(),
            current: 0,
            max_iter: usize::MAX,
            terminated: usize::MAX,
        }
    }

    /// Resets the state for a new run of at most `max_iter` rounds;
    /// unless a round ends it earlier, the run ends with the last.
    pub fn preprocess(&mut self, max_iter: usize)
        ensures
            final(self).hypothesis_view().len() == 0,
            final(self).current() == 0,
            final(self).round_limit() == max_iter,
            final(self).ended() == max_iter,
    {
        self.current = 0;
        self.max_iter = max_iter;
        self.terminated = max_iter;
        self.classifiers = Vec::new();
    }

    /// Begins round `iteration`, given the sum of the rows' weights and
    /// the bound it must reach. Past the round limit the round breaks
    /// and nothing changes. With a sum below the bound the round before
    /// is noted as the last, and the round breaks. Otherwise the round
    /// goes on to ask the weak learner.
    pub fn begin(&mut self, iteration: usize, sum: Scalar, bound: Scalar) -> (r: ControlFlow<usize>)
        requires
            iteration >= 1,
        ensures
            final(self).hypothesis_view() == old(self).hypothesis_view(),
            final(self).round_limit() == old(self).round_limit(),
            old(self).round_limit() < iteration ==> {
                &&& r == ControlFlow::<usize, ()>::Break(iteration)
                &&& final(self).current() == old(self).current()
                &&& final(self).ended() == old(self).ended()
            },
            old(self).round_limit() >= iteration ==> {
                &&& final(self).current() == iteration
                &&& if sum.below(bound) {
                    &&& r == ControlFlow::<usize, ()>::Break(iteration)
                    &&& final(self).ended() == iteration - 1
                } else {
                    &&& r == ControlFlow::<usize, ()>::Continue(())
                    &&& final(self).ended() == old(self).ended()
                }
            },
    {
        if self.max_iter < iteration {
            return ControlFlow::Break(iteration);
        }
        self.current = iteration;
        if sum.less_than(bound) {
            self.terminated = iteration - 1;
            return ControlFlow::Break(iteration);
        }
        ControlFlow::Continue(())
    }

    /// Keeps the hypothesis of the round.
    pub fn append(&mut self, h: F)
        ensures
            final(self).hypothesis_view() == old(self).hypothesis_view().push(h),
            final(self).current() == old(self).current(),
            final(self).round_limit() == old(self).round_limit(),
            final(self).ended() == old(self).ended(),
    {
        self.classifiers.push(h);
    }

    /// The hypotheses obtained so far.
    pub fn classifiers(&self) -> (r: &Vec<F>)
        ensures
            r@ == self.hypothesis_view(),
    {
        &self.classifiers
    }

    /// The round that was begun last.
    pub fn current_round(&self) -> (r: usize)
        ensures
            r == self.current(),
    {
        self.current
    }

    /// The last round that obtained a hypothesis.
    pub fn terminated(&self) -> (r: usize)
        ensures
            r == self.ended(),
    {
        self.terminated
    }

    /// Hands back the hypotheses as a combined hypothesis: a copy of
    /// each, in order, every one with the weight `weight`. The booster
    /// stays as it is.
    pub fn postprocess(&self, weight: Scalar) -> (r: CombinedHypothesis<F>) where F: Clone
        ensures
            r.constant.bits == 0,
            r.inner@.len() == self.hypothesis_view().len(),
            forall|k: int|
                #![all_triggers]
                0 <= k < r.inner@.len() ==> r.inner@[k].0 == weight && cloned::<F>(
                    self.hypothesis_view()[k],
                    r.inner@[k].1,
                ),
    {
        let classifiers: Vec<F> = copy_all(&self.classifiers);
        let ghost copies = classifiers@;
        let r = CombinedHypothesis::uniform(weight, classifiers);
        assert forall|k: int| #![all_triggers] 0 <= k < r.inner@.len() implies r.inner@[k].0
            == weight && cloned::<F>(self.hypothesis_view()[k], r.inner@[k].1) by {
            assert(r.inner@[k] == (weight, copies[k]));
        }
        r
    }
}

} // verus!
