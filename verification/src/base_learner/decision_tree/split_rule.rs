//! Split rules for decision trees.
use std::cmp::Ordering;
use vstd::prelude::*;
use vstd::std_specs::cmp::PartialOrdSpec;

verus! {

/// An instance whose features a split rule can read.
pub trait Data {
    /// What a feature holds.
    type Output;

    /// Whether the instance has a feature at `index`. It has every
    /// feature unless the implementation states otherwise.
    closed spec fn has(&self, index: int) -> bool {
        true
    }

    /// The feature at `index`. It is some fixed value unless the
    /// implementation states its own.
    closed spec fn value_of(&self, index: int) -> Self::Output {
        arbitrary()
    }

    /// Reads the feature at `index`.
    fn value_at(&self, index: usize) -> (r: Self::Output)
        requires
            self.has(index as int),
        ensures
            r == self.value_of(index as int),
    ;
}

impl<O: Copy> Data for Vec<O> {
    type Output = O;

    open spec fn has(&self, index: int) -> bool {
        0 <= index < self@.len()
    }

    open spec fn value_of(&self, index: int) -> O {
        self@[index]
    }

    fn value_at(&self, index: usize) -> (r: O) {
        self[index]
    }
}

/// The output of the function `split` of `SplitRule`.
#[derive(Debug, Clone, Copy, PartialEq, Eq, Structural)]
pub enum LR {
    Left,
    Right,
}

/// Defines the splitting rules.
pub enum SplitRule<O> {
    /// If `data[j] < threshold` then go left and go right otherwise.
    Stump(StumpSplit<O>),
}

/// Defines the split based on a feature.
pub struct StumpSplit<O> {
    pub index: usize,
    pub threshold: O,
}

impl<O> From<(usize, O)> for StumpSplit<O> {
    fn from(pair: (usize, O)) -> (r: Self) {
        StumpSplit { index: pair.0, threshold: pair.1 }
    }
}

impl<O> vstd::std_specs::convert::FromSpecImpl<(usize, O)> for StumpSplit<O> {
    open spec fn obeys_from_spec() -> bool {
        true
    }

    open spec fn from_spec(pair: (usize, O)) -> Self {
        StumpSplit { index: pair.0, threshold: pair.1 }
    }
}

impl<O: PartialOrd> SplitRule<O> {
    /// The feature that the rule reads.
    pub open spec fn feature(&self) -> int {
        match self {
            SplitRule::Stump(stump) => stump.index as int,
        }
    }

    /// The side that the rule sends `value` to: left where it is below
    /// the threshold, right where it is not or cannot be compared.
    pub open spec fn side(&self, value: O) -> LR {
        match self {
            SplitRule::Stump(stump) => if value.partial_cmp_spec(&stump.threshold) == Some(
                Ordering::Less,
            ) {
                LR::Left
            } else {
                LR::Right
            },
        }
    }

    /// Defines the splitting.
    pub fn split<D>(&self, data: &D) -> (r: LR) where D: Data<Output = O>
        requires
            data.has(self.feature()),
        ensures
            O::obeys_partial_cmp_spec() ==> r == self.side(data.value_of(self.feature())),
    {
        match self {
            SplitRule::Stump(stump) => {
                let value = data.value_at(stump.index);
                if value < stump.threshold {
                    LR::Left
                } else {
                    LR::Right
                }
            },
        }
    }
}

} // verus!
