//! The corrective ERLPBoost of Shalev-Shwartz and Singer: what a round
//! decides.
//!
//! A round projects the scores of the rows onto the capped simplex,
//! asks the weak learner for a hypothesis under that distribution, and
//! measures how much the hypothesis gains on the current combination.
//! With a gain of at most the tolerance, boosting ends. Otherwise the
//! weights move a step towards the new hypothesis: the weight of every
//! entry that equals it grows by the step, the weight of every other
//! shrinks by the factor one less the step, and a hypothesis that is new
//! joins the list with the step as its weight. The gain, the step and
//! the grown and shrunk weights are computed by the caller.
use crate::hypothesis::nonzero_pairs;
use crate::hypothesis::CombinedHypothesis;
use crate::scalar::Scalar;
use std::ops::ControlFlow;
use crate::hypothesis::are_copies;
use vstd::prelude::*;
use vstd::std_specs::cmp::PartialEqSpec;

verus! {

/// The state of the corrective ERLPBoost between rounds.
pub struct CERLPBoost<F> {
    classifiers: Vec<(F, Scalar)>,
    max_iter: usize,
    terminated: usize,
}

/// The hypotheses of a list of pairs.
pub open spec fn firsts<F>(list: Seq<(F, Scalar)>) -> Seq<F> {
    Seq::new(list.len(), |k: int| list[k].0)
}

/// The weights of a list of pairs.
pub open spec fn seconds<F>(list: Seq<(F, Scalar)>) -> Seq<Scalar> {
    Seq::new(list.len(), |k: int| list[k].1)
}

/// Whether one of the first `upto` hypotheses equals `h`.
pub open spec fn known<F: PartialEq>(list: Seq<(F, Scalar)>, h: F, upto: int) -> bool {
    exists|k: int| 0 <= k < upto && k < list.len() && (#[trigger] list[k]).0.eq_spec(&h)
}

impl<F: PartialEq> CERLPBoost<F> {
    /// The hypotheses obtained so far, each with its weight.
    pub closed spec fn list(&self) -> Seq<(F, Scalar)> {
        self.classifiers@
    }

    /// The last round that may ask the weak learner.
    pub closed spec fn round_limit(&self) -> nat {
        self.max_iter as nat
    }

    /// The round that ended the boosting.
    pub closed spec fn ended(&self) -> nat {
        self.terminated as nat
    }

    /// A booster that has not run yet.
    pub fn init() -> (r: Self)
        ensures
            r.list().len() == 0,
            r.round_limit() == usize::MAX,
            r.ended() == usize::MAX,
    {
        CERLPBoost { classifiers: Vec::new(), max_iter: usize::MAX, terminated: usize::MAX }
    }

    /// Resets the state for a new run of at most `max_iter` rounds;
    /// unless a round ends it earlier, the run ends with the last.
    pub fn preprocess(&mut self, max_iter: usize)
        ensures
            final(self).list().len() == 0,
            final(self).round_limit() == max_iter,
            final(self).ended() == max_iter,
    {
        self.max_iter = max_iter;
        self.terminated = max_iter;
        self.classifiers = Vec::new();
    }

    /// Whether round `iteration` takes place: it breaks with its number
    /// where it lies past the limit.
    pub fn begin(&self, iteration: usize) -> (r: ControlFlow<usize>)
        ensures
            r == if self.round_limit() < iteration {
                ControlFlow::<usize, ()>::Break(iteration)
            } else {
                ControlFlow::<usize, ()>::Continue(())
            },
    {
        if self.max_iter < iteration {
            ControlFlow::Break(iteration)
        } else {
            ControlFlow::Continue(())
        }
    }

    /// Looks at the gain of the hypothesis of round `iteration`. With a
    /// gain of at most the tolerance the round is noted as the last and
    /// breaks with its number; otherwise it signals to continue.
    pub fn settle(&mut self, iteration: usize, gain: Scalar, tolerance: Scalar) -> (r: ControlFlow<
        usize,
    >)
        ensures
            final(self).list() == old(self).list(),
            final(self).round_limit() == old(self).round_limit(),
            if gain.below(tolerance) || gain.same(tolerance) {
                &&& final(self).ended() == iteration
                &&& r == ControlFlow::<usize, ()>::Break(iteration)
            } else {
                &&& final(self).ended() == old(self).ended()
                &&& r == ControlFlow::<usize, ()>::Continue(())
            },
    {
        if gain.at_most(tolerance) {
            self.terminated = iteration;
            return ControlFlow::Break(iteration);
        }
        ControlFlow::Continue(())
    }

    /// Moves the weights a step towards `new_clf`. Entry `k` gets the
    /// weight `grown[k]` where its hypothesis equals `new_clf` and
    /// `shrunk[k]` where it does not. Where no entry equals `new_clf`,
    /// it joins the list with the weight `weight`.
    pub fn update_clf_weight_mut(
        &mut self,
        new_clf: F,
        grown: &Vec<Scalar>,
        shrunk: &Vec<Scalar>,
        weight: Scalar,
    )
        requires
            grown@.len() == old(self).list().len(),
            shrunk@.len() == old(self).list().len(),
        ensures
            final(self).round_limit() == old(self).round_limit(),
            final(self).ended() == old(self).ended(),
            F::obeys_eq_spec() ==> {
                let before = old(self).list();
                let after = final(self).list();
                &&& after.len() == if known(before, new_clf, before.len() as int) {
                    before.len()
                } else {
                    before.len() + 1
                }
                &&& forall|k: int|
                    0 <= k < before.len() ==> (#[trigger] after[k]).0 == before[k].0 && after[k].1
                        == if before[k].0.eq_spec(&new_clf) {
                        grown@[k]
                    } else {
                        shrunk@[k]
                    }
                &&& !known(before, new_clf, before.len() as int) ==> after[before.len() as int] == (
                    new_clf,
                    weight,
                )
            },
    {
        let ghost before = self.classifiers@;
        let n: usize = self.classifiers.len();
        let mut already_exist: bool = false;
        let mut k: usize = 0;
        while k < n
            invariant
                n == before.len(),
                grown@.len() == n,
                shrunk@.len() == n,
                self.classifiers@.len() == n,
                self.max_iter == old(self).max_iter,
                self.terminated == old(self).terminated,
                k <= n,
                F::obeys_eq_spec() ==> already_exist == known(before, new_clf, k as int),
                forall|j: int| k <= j < n ==> self.classifiers@[j] == before[j],
                forall|j: int| 0 <= j < k ==> (#[trigger] self.classifiers@[j]).0 == before[j].0,
                F::obeys_eq_spec() ==> forall|j: int|
                    0 <= j < k ==> (#[trigger] self.classifiers@[j]).1 == if before[j].0.eq_spec(
                        &new_clf,
                    ) {
                        grown@[j]
                    } else {
                        shrunk@[j]
                    },
            decreases n - k,
        {
            let same: bool = self.classifiers[k].0 == new_clf;
            proof {
                if F::obeys_eq_spec() {
                    assert(same == before[k as int].0.eq_spec(&new_clf));
                    if same {
                        assert(known(before, new_clf, k as int + 1));
                    } else if known(before, new_clf, k as int + 1) {
                        let w = choose|w: int|
                            0 <= w < k + 1 && w < before.len() && (#[trigger] before[w]).0.eq_spec(
                                &new_clf,
                            );
                        assert(w < k);
                        assert(known(before, new_clf, k as int));
                    }
                    if known(before, new_clf, k as int) {
                        let w = choose|w: int|
                            0 <= w < k && w < before.len() && (#[trigger] before[w]).0.eq_spec(
                                &new_clf,
                            );
                        assert(known(before, new_clf, k as int + 1));
                    }
                }
            }
            if same {
                already_exist = true;
                self.classifiers[k].1 = grown[k];
            } else {
                self.classifiers[k].1 = shrunk[k];
            }
            k += 1;
        }
        if !already_exist {
            self.classifiers.push((new_clf, weight));
        }
    }

    /// The hypotheses obtained so far, each with its weight.
    pub fn classifiers(&self) -> (r: &Vec<(F, Scalar)>)
        ensures
            r@ == self.list(),
    {
        &self.classifiers
    }

    /// The round that ended the boosting.
    pub fn terminated(&self) -> (r: usize)
        ensures
            r == self.ended(),
    {
        self.terminated
    }

    /// Hands back the hypotheses whose weight is not zero as a combined
    /// hypothesis: every such weight with a copy of its hypothesis, in
    /// order. The booster stays as it is.
    pub fn postprocess(&self) -> (r: CombinedHypothesis<F>) where F: Clone
        ensures
            r.constant.bits == 0,
            exists|copies: Seq<F>|
                {
                    &&& #[trigger] are_copies(firsts(self.list()), copies)
                    &&& r.inner@ == nonzero_pairs(
                        seconds(self.list()),
                        copies,
                        self.list().len() as int,
                    )
                },
    {
        let mut weights: Vec<Scalar> = Vec::new();
        let mut hypotheses: Vec<F> = Vec::new();
        let mut k: usize = 0;
        while k < self.classifiers.len()
            invariant
                k <= self.classifiers@.len(),
                weights@.len() == k,
                hypotheses@.len() == k,
                forall|j: int| 0 <= j < k ==> weights@[j] == (#[trigger] self.classifiers@[j]).1,
                forall|j: int|
                    #![all_triggers]
                    0 <= j < k ==> cloned::<F>(self.classifiers@[j].0, hypotheses@[j]),
            decreases self.classifiers@.len() - k,
        {
            weights.push(self.classifiers[k].1);
            let copy: F = self.classifiers[k].0.clone();
            hypotheses.push(copy);
            k += 1;
        }
        let ghost copies = hypotheses@;
        assert(weights@ =~= seconds(self.list()));
        assert(are_copies(firsts(self.list()), copies));
        CombinedHypothesis::from_weights(weights, hypotheses)
    }
}

} // verus!
