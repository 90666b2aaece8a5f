//! The ranges of the boosters' parameters.
//!
//! A builder checks what it is given before a run starts: the tolerance
//! lies strictly between zero and one half, the capping parameter between
//! one and the number of rows, and the parameters of smooth boosting in
//! their own ranges. A NaN lies in no range.
use crate::scalar::Scalar;
use vstd::prelude::*;

verus! {

/// The encoding of one half.
pub const HALF_BITS: u64 = 0x3FE0_0000_0000_0000;

/// Why a booster cannot be configured as asked.
#[derive(Clone, Copy, Debug, PartialEq, Eq, Structural)]
pub enum ConfigError {
    /// The sample has no row.
    EmptySample,
    /// The tolerance is not greater than zero and less than one half.
    Tolerance,
    /// The capping parameter is not between one and the number of rows.
    Nu,
    /// The accuracy parameter of smooth boosting is not greater than
    /// zero and less than one.
    Kappa,
    /// The edge guarantee of smooth boosting is less than the margin it
    /// implies, or not less than one half.
    Gamma,
}

/// Whether `low <= x < high` as binary64 numbers.
pub open spec fn in_half_open(x: Scalar, low: Scalar, high: Scalar) -> bool {
    (low.below(x) || low.same(x)) && x.below(high)
}

/// Whether `low <= x <= high` as binary64 numbers.
pub open spec fn in_closed(x: Scalar, low: Scalar, high: Scalar) -> bool {
    (low.below(x) || low.same(x)) && (x.below(high) || x.same(high))
}

/// Whether `low < x < high` as binary64 numbers.
pub open spec fn in_open(x: Scalar, low: Scalar, high: Scalar) -> bool {
    low.below(x) && x.below(high)
}

/// Checks that a sample of `n_sample` rows can be boosted: it has a row.
pub fn check_sample(n_sample: usize) -> (r: Result<(), ConfigError>)
    ensures
        r is Ok <==> n_sample != 0,
        r is Err ==> r == Err::<(), ConfigError>(ConfigError::EmptySample),
{
    if n_sample == 0 {
        Err(ConfigError::EmptySample)
    } else {
        Ok(())
    }
}

/// Checks a tolerance: it lies strictly between zero and one half.
pub fn check_tolerance(tolerance: Scalar) -> (r: Result<(), ConfigError>)
    ensures
        r is Ok <==> in_open(tolerance, Scalar { bits: 0 }, Scalar { bits: HALF_BITS }),
        r is Err ==> r == Err::<(), ConfigError>(ConfigError::Tolerance),
{
    if Scalar::zero().less_than(tolerance) && tolerance.less_than(Scalar::from_bits(HALF_BITS)) {
        Ok(())
    } else {
        Err(ConfigError::Tolerance)
    }
}

/// Whether `nu` is a number from one up to the whole number `m`, both
/// included.
pub open spec fn caps(nu: Scalar, m: nat) -> bool {
    let one = Scalar { bits: crate::scalar::ONE_BITS };
    (one.below(nu) || one.same(nu)) && nu.within_count(m)
}

/// Checks a capping parameter against the number of rows: it lies
/// between one and that number, both included.
pub fn check_nu(nu: Scalar, n_sample: usize) -> (r: Result<(), ConfigError>)
    ensures
        r is Ok <==> caps(nu, n_sample as nat),
        r is Err ==> r == Err::<(), ConfigError>(ConfigError::Nu),
{
    if Scalar::one().at_most(nu) && nu.at_most_count(n_sample) {
        Ok(())
    } else {
        Err(ConfigError::Nu)
    }
}

/// Checks the parameters of smooth boosting: `kappa` lies strictly
/// between zero and one, and `gamma` is at least `theta` and less than
/// one half. The accuracy parameter is checked first.
pub fn check_smooth(kappa: Scalar, gamma: Scalar, theta: Scalar) -> (r: Result<(), ConfigError>)
    ensures
        r is Ok <==> in_open(kappa, Scalar { bits: 0 }, Scalar { bits: crate::scalar::ONE_BITS })
            && in_half_open(gamma, theta, Scalar { bits: HALF_BITS }),
        r is Err ==> r == Err::<(), ConfigError>(
            if in_open(kappa, Scalar { bits: 0 }, Scalar { bits: crate::scalar::ONE_BITS }) {
                ConfigError::Gamma
            } else {
                ConfigError::Kappa
            },
        ),
{
    if !(Scalar::zero().less_than(kappa) && kappa.less_than(Scalar::one())) {
        Err(ConfigError::Kappa)
    } else if !(theta.at_most(gamma) && gamma.less_than(Scalar::from_bits(HALF_BITS))) {
        Err(ConfigError::Gamma)
    } else {
        Ok(())
    }
}

} // verus!
