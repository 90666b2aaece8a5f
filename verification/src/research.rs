//! Looking into a booster while it runs, and the time budget of a
//! logged run.
use std::ops::ControlFlow;
use vstd::prelude::*;

verus! {

/// The first line of a log: the names of its four columns.
pub const HEADER: &'static str = "ObjectiveValue,TrainLoss,TestLoss,Time\n";

/// A booster that can show the hypothesis it would hand back if it
/// stopped now.
pub trait Research {
    /// The combined hypothesis at middle stages.
    type Output;

    /// Returns the combined hypothesis at the current state.
    fn current_hypothesis(&self) -> Self::Output;
}

/// The time that a logged run has spent, in milliseconds, against the
/// limit it was given.
pub struct TimeBudget {
    limit: u128,
    spent: u128,
}

impl TimeBudget {
    /// The limit, in milliseconds.
    pub closed spec fn limit(&self) -> nat {
        self.limit as nat
    }

    /// The time spent so far, in milliseconds.
    pub closed spec fn spent(&self) -> nat {
        self.spent as nat
    }

    /// A budget with the largest limit there is and nothing spent.
    pub fn new() -> (r: Self)
        ensures
            r.limit() == u128::MAX,
            r.spent() == 0,
    {
        TimeBudget { limit: u128::MAX, spent: 0 }
    }

    /// Sets the time limit. A run that has spent more than the limit
    /// breaks after the round it is in.
    pub fn time_limit_as_millis(self, time_limit: u128) -> (r: Self)
        ensures
            r.limit() == time_limit,
            r.spent() == self.spent(),
    {
        let mut this = self;
        this.limit = time_limit;
        this
    }

    /// The cumulative time, in milliseconds.
    pub fn elapsed(&self) -> (r: u128)
        ensures
            r == self.spent(),
    {
        self.spent
    }

    /// Books the time that round `iteration` took and decides how the
    /// run goes on: it breaks with the round's number where more than
    /// the limit has been spent, and goes as the booster signalled where
    /// not.
    pub fn after_round(&mut self, elapsed: u128, iteration: usize, flow: ControlFlow<usize>) -> (r:
        ControlFlow<usize>)
        requires
            old(self).spent() + elapsed <= u128::MAX,
        ensures
            final(self).limit() == old(self).limit(),
            final(self).spent() == old(self).spent() + elapsed,
            r == if final(self).spent() > final(self).limit() {
                ControlFlow::<usize, ()>::Break(iteration)
            } else {
                flow
            },
    {
        self.spent = self.spent + elapsed;
        if self.spent > self.limit {
            ControlFlow::Break(iteration)
        } else {
            flow
        }
    }
}

} // verus!
