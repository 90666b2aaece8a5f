//! What the boosters make of the state in which a solver leaves a
//! linear or quadratic program.
use vstd::prelude::*;

verus! {

/// The state of a model after the solver has run.
pub enum Status {
    /// An optimal solution was found.
    Optimal,
    /// A solution was found, but could not be shown to be optimal.
    SubOptimal,
    /// The program has no feasible point.
    Infeasible,
    /// The program has no feasible point or is unbounded.
    InfOrUnbd,
    /// Any other state, under the name that the solver gives it.
    Other(String),
}

/// How a booster goes on after a solve.
#[derive(Clone, Copy, Debug, PartialEq, Eq, Structural)]
pub enum Outcome {
    /// There is a solution to read.
    Solved,
    /// The program admits no further step: the last solution is optimal
    /// to the tolerance asked for, and boosting ends.
    Converged,
}

/// The solver failed; `status` is the name of the state it reported.
pub struct SolverError {
    pub status: String,
}

/// What a status means to a booster: a solution, optimal or not, is
/// read; a program without a feasible point ends the boosting cleanly;
/// anything else is a failure that carries the name of the status.
pub open spec fn verdict(status: Status) -> Result<Outcome, SolverError> {
    match status {
        Status::Optimal => Ok(Outcome::Solved),
        Status::SubOptimal => Ok(Outcome::Solved),
        Status::Infeasible => Ok(Outcome::Converged),
        Status::InfOrUnbd => Ok(Outcome::Converged),
        Status::Other(name) => Err(SolverError { status: name }),
    }
}

/// Judges the status that a solve ended in.
pub fn judge(status: Status) -> (r: Result<Outcome, SolverError>)
    ensures
        r == verdict(status),
{
    match status {
        Status::Optimal => Ok(Outcome::Solved),
        Status::SubOptimal => Ok(Outcome::Solved),
        Status::Infeasible => Ok(Outcome::Converged),
        Status::InfOrUnbd => Ok(Outcome::Converged),
        Status::Other(name) => Err(SolverError { status: name }),
    }
}

} // verus!
