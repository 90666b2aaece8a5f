//! The boosting protocol and its driver.
use std::ops::ControlFlow;
use vstd::prelude::*;

verus! {

/// Whether round `k + 1` led from state `k` of `trace` to the next one
/// and signalled to continue.
pub open spec fn continued<W, B: Booster<W>>(trace: Seq<B>, k: int) -> bool {
    B::advances(trace[k], (k + 1) as usize, trace[k + 1], ControlFlow::Continue(()))
}

/// Whether `trace` is the sequence of states of a whole run from
/// `start`: the first is what `preprocess` made of `start`, each further
/// one what the next round made of the one before, every round but the
/// last one signalled to continue, and the last one broke (or was the
/// last round that a counter can number).
pub open spec fn is_run<W, B: Booster<W>>(start: B, trace: Seq<B>) -> bool {
    &&& 2 <= trace.len() <= usize::MAX
    &&& B::restarts(start, trace[0])
    &&& forall|k: int| 0 <= k < trace.len() - 2 ==> #[trigger] continued::<W, B>(trace, k)
    &&& exists|flow: ControlFlow<usize>|
        {
            &&& #[trigger] B::advances(
                trace[trace.len() - 2],
                (trace.len() - 1) as usize,
                trace[trace.len() - 1],
                flow,
            )
            &&& (flow is Break || trace.len() == usize::MAX)
        }
    &&& forall|k: int| 0 <= k < trace.len() ==> (#[trigger] trace[k]).running()
}

/// A boosting algorithm, run against a weak learner of type `W`.
///
/// A run is `preprocess`, then `boost` for the rounds `1, 2, ...` until
/// one of them breaks, then `postprocess`. Each implementation says what
/// its steps do through the three relations `restarts`, `advances` and
/// `delivers`.
pub trait Booster<W>: Sized {
    /// What a run hands back.
    type Output;

    /// Whether the booster can be preprocessed. Always, unless the
    /// implementation states its own condition.
    closed spec fn ready(&self) -> bool {
        true
    }

    /// Whether the booster is between two rounds. Always, unless the
    /// implementation states its own condition.
    closed spec fn running(&self) -> bool {
        true
    }

    /// What `preprocess` makes of `pre`. An implementation that states
    /// nothing promises nothing.
    closed spec fn restarts(pre: Self, post: Self) -> bool {
        true
    }

    /// What round `iteration` makes of `pre`, and the signal it gives.
    /// An implementation that states nothing promises nothing.
    closed spec fn advances(pre: Self, iteration: usize, post: Self, flow: ControlFlow<usize>) -> bool {
        true
    }

    /// What `postprocess` makes of `pre`, and what it hands back. An
    /// implementation that states nothing promises nothing.
    closed spec fn delivers(pre: Self, post: Self, out: Self::Output) -> bool {
        true
    }

    /// Resets the state for a new run.
    fn preprocess(&mut self, weak_learner: &W)
        requires
            old(self).ready(),
        ensures
            final(self).running(),
            Self::restarts(*old(self), *final(self)),
    ;

    /// Performs exactly one round.
    fn boost(&mut self, weak_learner: &W, iteration: usize) -> (flow: ControlFlow<usize>)
        requires
            old(self).running(),
            1 <= iteration < usize::MAX,
        ensures
            final(self).running(),
            Self::advances(*old(self), iteration, *final(self), flow),
    ;

    /// Assembles what the run hands back. The state is read for it, not
    /// changed; what that means for an implementation it says in
    /// `delivers`.
    fn postprocess(&mut self, weak_learner: &W) -> (out: Self::Output)
        requires
            old(self).running(),
        ensures
            Self::delivers(*old(self), *final(self), out),
    ;
}

/// Runs the boosting algorithm: `preprocess`, then one round after
/// another until a round breaks, then `postprocess` on the state
/// that the last round left.
pub fn run<W, B: Booster<W>>(booster: &mut B, weak_learner: &W) -> (out: B::Output)
    requires
        old(booster).ready(),
    ensures
        exists|trace: Seq<B>|
            {
                &&& #[trigger] is_run::<W, B>(*old(booster), trace)
                &&& trace.len() >= 2
                &&& B::delivers(trace[trace.len() - 1], *final(booster), out)
            },
{
    booster.preprocess(weak_learner);
    let ghost mut trace: Seq<B> = seq![*booster];
    let mut iteration: usize = 1;
    loop
        invariant_except_break
            1 <= iteration < usize::MAX,
            trace.len() == iteration,
            trace.last() == *booster,
            B::restarts(*old(booster), trace[0]),
            forall|k: int| 0 <= k < trace.len() - 1 ==> #[trigger] continued::<W, B>(trace, k),
            forall|k: int| 0 <= k < trace.len() ==> (#[trigger] trace[k]).running(),
        ensures
            trace.last() == *booster,
            booster.running(),
            is_run::<W, B>(*old(booster), trace),
        decreases usize::MAX - iteration,
    {
        let ghost before = *booster;
        let ghost earlier = trace;
        let flow = booster.boost(weak_learner, iteration);
        proof {
            trace = earlier.push(*booster);
            assert(trace[trace.len() - 2] == before);
            assert forall|k: int| 0 <= k < trace.len() - 2 implies #[trigger] continued::<W, B>(
                trace,
                k,
            ) by {
                assert(continued::<W, B>(earlier, k));
                assert(trace[k] == earlier[k]);
                assert(trace[k + 1] == earlier[k + 1]);
            }
            assert forall|k: int| 0 <= k < trace.len() implies (#[trigger] trace[k]).running() by {
                if k < earlier.len() {
                    assert(trace[k] == earlier[k]);
                }
            }
            assert(trace[0] == earlier[0]);
            assert(trace[trace.len() - 1] == *booster);
            assert(B::advances(
                trace[trace.len() - 2],
                (trace.len() - 1) as usize,
                trace[trace.len() - 1],
                flow,
            ));
        }
        match flow {
            ControlFlow::Break(_) => {
                break;
            },
            ControlFlow::Continue(unit) => {
                assert(unit == ());
                assert(flow == ControlFlow::<usize>::Continue(()));
                if iteration == usize::MAX - 1 {
                    break;
                }
                assert(continued::<W, B>(trace, trace.len() - 2));
            },
        }
        iteration += 1;
    }
    booster.postprocess(weak_learner)
}

} // verus!
