//! Hypotheses and their aggregation.
use crate::sample::Sample;
use crate::scalar::Scalar;
use crate::scalar::NEG_ONE_BITS;
use crate::scalar::ONE_BITS;
use vstd::prelude::*;
use vstd::std_specs::cmp::PartialEqSpec;

verus! {

/// A classifier: it has a confidence in every row of a sample, and
/// predicts the sign of that confidence.
pub trait Classifier {
    /// The confidence of the classifier in row `row` of `sample`. It is
    /// positive zero unless the implementation states its own.
    closed spec fn confidence_of(&self, sample: &Sample, row: int) -> Scalar {
        Scalar { bits: 0 }
    }

    /// Computes the confidence in row `row` of `sample`.
    fn confidence(&self, sample: &Sample, row: usize) -> (r: Scalar)
        requires
            sample.wf(),
            row < sample.rows(),
        ensures
            r == self.confidence_of(sample, row as int),
    ;

    /// Predicts the label of row `row`: the sign of the confidence, as
    /// an integer.
    fn predict(&self, sample: &Sample, row: usize) -> (r: i64)
        requires
            sample.wf(),
            row < sample.rows(),
        ensures
            r == self.confidence_of(sample, row as int).sign(),
    {
        self.confidence(sample, row).signum()
    }

    /// Computes the confidence in every row of `sample`.
    fn confidence_all(&self, sample: &Sample) -> (r: Vec<Scalar>)
        requires
            sample.wf(),
        ensures
            r@.len() == sample.rows(),
            forall|row: int| 0 <= row < r@.len() ==> r@[row] == self.confidence_of(sample, row),
    {
        let m: usize = sample.shape().0;
        let mut out: Vec<Scalar> = Vec::new();
        let mut row: usize = 0;
        while row < m
            invariant
                sample.wf(),
                m == sample.rows(),
                row <= m,
                out@.len() == row,
                forall|k: int| 0 <= k < row ==> out@[k] == self.confidence_of(sample, k),
            decreases m - row,
        {
            let c = self.confidence(sample, row);
            out.push(c);
            row += 1;
        }
        out
    }

    /// Predicts the label of every row of `sample`.
    fn predict_all(&self, sample: &Sample) -> (r: Vec<i64>)
        requires
            sample.wf(),
        ensures
            r@.len() == sample.rows(),
            forall|row: int| 0 <= row < r@.len() ==> r@[row] == self.confidence_of(sample, row).sign(),
    {
        let m: usize = sample.shape().0;
        let mut out: Vec<i64> = Vec::new();
        let mut row: usize = 0;
        while row < m
            invariant
                sample.wf(),
                m == sample.rows(),
                row <= m,
                out@.len() == row,
                forall|k: int| 0 <= k < row ==> out@[k] == self.confidence_of(sample, k).sign(),
            decreases m - row,
        {
            let p = self.predict(sample, row);
            out.push(p);
            row += 1;
        }
        out
    }
}

/// A regressor: it predicts a target value for every row of a sample.
pub trait Regressor {
    /// The value that the regressor predicts for row `row` of `sample`.
    /// It is positive zero unless the implementation states its own.
    closed spec fn prediction_of(&self, sample: &Sample, row: int) -> Scalar {
        Scalar { bits: 0 }
    }

    /// Predicts the target value of row `row`.
    fn predict(&self, sample: &Sample, row: usize) -> (r: Scalar)
        requires
            sample.wf(),
            row < sample.rows(),
        ensures
            r == self.prediction_of(sample, row as int),
    ;

    /// Predicts the target value of every row of `sample`.
    fn predict_all(&self, sample: &Sample) -> (r: Vec<Scalar>)
        requires
            sample.wf(),
        ensures
            r@.len() == sample.rows(),
            forall|row: int| 0 <= row < r@.len() ==> r@[row] == self.prediction_of(sample, row),
    {
        let m: usize = sample.shape().0;
        let mut out: Vec<Scalar> = Vec::new();
        let mut row: usize = 0;
        while row < m
            invariant
                sample.wf(),
                m == sample.rows(),
                row <= m,
                out@.len() == row,
                forall|k: int| 0 <= k < row ==> out@[k] == self.prediction_of(sample, k),
            decreases m - row,
        {
            let p = self.predict(sample, row);
            out.push(p);
            row += 1;
        }
        out
    }
}

/// The sum of the first `upto` hypotheses' predictions for one row.
pub open spec fn vote<F: Classifier>(hypotheses: Seq<F>, sample: &Sample, row: int, upto: int) -> int
    decreases upto,
{
    if upto <= 0 || upto > hypotheses.len() {
        0
    } else {
        vote(hypotheses, sample, row, upto - 1) + hypotheses[upto - 1].confidence_of(
            sample,
            row,
        ).sign()
    }
}

/// Hypotheses that decide together by an unweighted vote.
pub struct NaiveAggregation<F> {
    /// The hypotheses that vote.
    pub hypotheses: Vec<F>,
}

impl<F: Classifier> NaiveAggregation<F> {
    /// The aggregation of the given hypotheses.
    pub fn new(hypotheses: Vec<F>) -> (r: Self)
        ensures
            r.hypotheses == hypotheses,
    {
        NaiveAggregation { hypotheses }
    }

    /// The sum of all predictions for row `row`.
    pub open spec fn tally(&self, sample: &Sample, row: int) -> int {
        vote(self.hypotheses@, sample, row, self.hypotheses@.len() as int)
    }

    /// Adds up the predictions of all hypotheses for row `row`.
    pub fn votes(&self, sample: &Sample, row: usize) -> (r: i128)
        requires
            sample.wf(),
            row < sample.rows(),
        ensures
            r == self.tally(sample, row as int),
    {
        let n: usize = self.hypotheses.len();
        let mut sum: i128 = 0;
        let mut j: usize = 0;
        while j < n
            invariant
                sample.wf(),
                row < sample.rows(),
                n == self.hypotheses@.len(),
                j <= n,
                sum == vote(self.hypotheses@, sample, row as int, j as int),
                -(j as int) <= sum <= j,
            decreases n - j,
        {
            let p: i64 = self.hypotheses[j].predict(sample, row);
            sum = sum + (p as i128);
            j += 1;
        }
        sum
    }
}

impl<F: Classifier> Classifier for NaiveAggregation<F> {
    /// `1` where the predictions add up to zero or more, `-1` where
    /// they add up to less.
    open spec fn confidence_of(&self, sample: &Sample, row: int) -> Scalar {
        if self.tally(sample, row) >= 0 {
            Scalar { bits: ONE_BITS }
        } else {
            Scalar { bits: NEG_ONE_BITS }
        }
    }

    fn confidence(&self, sample: &Sample, row: usize) -> (r: Scalar) {
        if self.votes(sample, row) >= 0 {
            Scalar::one()
        } else {
            Scalar::neg_one()
        }
    }
}

/// The vote of a single hypothesis is its own prediction, so an
/// aggregation of one hypothesis that predicts `1` or `-1` for a row
/// predicts as that hypothesis does.
pub proof fn lemma_single_vote<F: Classifier>(agg: NaiveAggregation<F>, sample: &Sample, row: int)
    requires
        agg.hypotheses@.len() == 1,
        agg.hypotheses@[0].confidence_of(sample, row).sign() != 0,
    ensures
        agg.tally(sample, row) == agg.hypotheses@[0].confidence_of(sample, row).sign(),
        agg.confidence_of(sample, row).sign() == agg.hypotheses@[0].confidence_of(
            sample,
            row,
        ).sign(),
{
    reveal_with_fuel(vote, 2);
}

/// Whether `copies` holds a copy of each of `sources`, in order.
pub open spec fn are_copies<F: Clone>(sources: Seq<F>, copies: Seq<F>) -> bool {
    &&& copies.len() == sources.len()
    &&& forall|k: int|
        #![all_triggers]
        0 <= k < sources.len() ==> cloned::<F>(sources[k], copies[k])
}

/// Copies every hypothesis of a list.
pub fn copy_all<F: Clone>(hypotheses: &Vec<F>) -> (r: Vec<F>)
    ensures
        are_copies(hypotheses@, r@),
{
    let mut out: Vec<F> = Vec::new();
    let mut k: usize = 0;
    while k < hypotheses.len()
        invariant
            k <= hypotheses@.len(),
            out@.len() == k,
            forall|j: int| #![all_triggers] 0 <= j < k ==> cloned::<F>(hypotheses@[j], out@[j]),
        decreases hypotheses@.len() - k,
    {
        let copy: F = hypotheses[k].clone();
        out.push(copy);
        k += 1;
    }
    out
}

/// The same weights in a list of their own.
pub fn copy_weights(weights: &Vec<Scalar>) -> (r: Vec<Scalar>)
    ensures
        r@ == weights@,
{
    let mut out: Vec<Scalar> = Vec::new();
    let mut k: usize = 0;
    while k < weights.len()
        invariant
            k <= weights@.len(),
            out@.len() == k,
            forall|j: int| 0 <= j < k ==> out@[j] == weights@[j],
        decreases weights@.len() - k,
    {
        out.push(weights[k]);
        k += 1;
    }
    assert(out@ =~= weights@);
    out
}

/// A weighted sum of hypotheses plus a constant. This is what the
/// boosting algorithms hand back.
pub struct CombinedHypothesis<F> {
    /// Each element is the pair of a weight and its hypothesis.
    pub inner: Vec<(Scalar, F)>,
    /// The constant hypothesis that is added to the weighted sum.
    pub constant: Scalar,
}

/// The pairs of weight and hypothesis among the first `upto` whose
/// weight does not compare equal to zero, in order.
pub open spec fn nonzero_pairs<F>(weights: Seq<Scalar>, hypotheses: Seq<F>, upto: int) -> Seq<
    (Scalar, F),
>
    decreases upto,
{
    if upto <= 0 || upto > weights.len() || upto > hypotheses.len() {
        Seq::empty()
    } else if weights[upto - 1].magnitude() != 0 {
        nonzero_pairs(weights, hypotheses, upto - 1).push(
            (weights[upto - 1], hypotheses[upto - 1]),
        )
    } else {
        nonzero_pairs(weights, hypotheses, upto - 1)
    }
}

/// The pairs of weight and hypothesis among the first `upto` whose
/// weight is greater than zero, in order.
pub open spec fn positive_pairs<F>(weights: Seq<Scalar>, hypotheses: Seq<F>, upto: int) -> Seq<
    (Scalar, F),
>
    decreases upto,
{
    if upto <= 0 || upto > weights.len() || upto > hypotheses.len() {
        Seq::empty()
    } else if (Scalar { bits: 0 }).below(weights[upto - 1]) {
        positive_pairs(weights, hypotheses, upto - 1).push(
            (weights[upto - 1], hypotheses[upto - 1]),
        )
    } else {
        positive_pairs(weights, hypotheses, upto - 1)
    }
}

/// Filtering keeps no weight that compares equal to zero, and no more
/// pairs than there were.
pub proof fn lemma_nonzero_pairs<F>(weights: Seq<Scalar>, hypotheses: Seq<F>, upto: int)
    ensures
        nonzero_pairs(weights, hypotheses, upto).len() <= if upto < 0 {
            0
        } else {
            upto
        },
        forall|k: int|
            0 <= k < nonzero_pairs(weights, hypotheses, upto).len() ==> (#[trigger] nonzero_pairs(
                weights,
                hypotheses,
                upto,
            )[k]).0.magnitude() != 0,
    decreases upto,
{
    if 0 < upto <= weights.len() && upto <= hypotheses.len() {
        lemma_nonzero_pairs(weights, hypotheses, upto - 1);
    }
}

/// Filtering for weights above zero keeps only such weights, and no
/// more pairs than there were.
pub proof fn lemma_positive_pairs<F>(weights: Seq<Scalar>, hypotheses: Seq<F>, upto: int)
    ensures
        positive_pairs(weights, hypotheses, upto).len() <= if upto < 0 {
            0
        } else {
            upto
        },
        forall|k: int|
            0 <= k < positive_pairs(weights, hypotheses, upto).len() ==> (Scalar { bits: 0 }).below(
                (#[trigger] positive_pairs(weights, hypotheses, upto)[k]).0,
            ),
    decreases upto,
{
    if 0 < upto <= weights.len() && upto <= hypotheses.len() {
        lemma_positive_pairs(weights, hypotheses, upto - 1);
    }
}

/// Of weights without a sign, filtering keeps those above zero: every
/// kept weight is above zero, unless it is a NaN.
pub proof fn lemma_unsigned_pairs<F>(weights: Seq<Scalar>, hypotheses: Seq<F>, upto: int)
    requires
        forall|i: int| 0 <= i < weights.len() ==> !(#[trigger] weights[i]).sign_bit(),
    ensures
        forall|k: int|
            0 <= k < nonzero_pairs(weights, hypotheses, upto).len() ==> (#[trigger] nonzero_pairs(
                weights,
                hypotheses,
                upto,
            )[k]).0.nan() || (Scalar { bits: 0 }).below(
                nonzero_pairs(weights, hypotheses, upto)[k].0,
            ),
    decreases upto,
{
    if 0 < upto <= weights.len() && upto <= hypotheses.len() {
        lemma_unsigned_pairs(weights, hypotheses, upto - 1);
        let before = nonzero_pairs(weights, hypotheses, upto - 1);
        let now = nonzero_pairs(weights, hypotheses, upto);
        let w = weights[upto - 1];
        assert(!w.sign_bit());
        assert forall|k: int| 0 <= k < now.len() implies (#[trigger] now[k]).0.nan() || (Scalar {
            bits: 0,
        }).below(now[k].0) by {
            if k < before.len() {
                assert(now[k] == before[k]);
            } else {
                assert(now[k].0 == w);
                assert(w.magnitude() != 0);
            }
        }
    }
}

/// The smaller of two lengths.
pub open spec fn shorter(a: nat, b: nat) -> int {
    if a <= b {
        a as int
    } else {
        b as int
    }
}

impl<F> CombinedHypothesis<F> {
    /// Sets the constant hypothesis that always predicts `value`.
    pub fn constant(self, value: Scalar) -> (r: Self)
        ensures
            r.inner == self.inner,
            r.constant == value,
    {
        let mut this = self;
        this.constant = value;
        this
    }

    /// Pairs each hypothesis with its weight and keeps the pairs whose
    /// weight does not compare equal to zero. Where one list is longer,
    /// what has no partner is left out. The constant is zero.
    pub fn from_weights(weights: Vec<Scalar>, hypotheses: Vec<F>) -> (r: Self)
        ensures
            r.constant.bits == 0,
            r.inner@ == nonzero_pairs(
                weights@,
                hypotheses@,
                shorter(weights@.len(), hypotheses@.len()),
            ),
    {
        let ghost hyps = hypotheses@;
        let mut inner: Vec<(Scalar, F)> = Vec::new();
        let mut k: usize = 0;
        for h in it: hypotheses
            invariant
                it.seq() == hyps,
                k == shorter(weights@.len(), it.index() as nat),
                inner@ == nonzero_pairs(weights@, hyps, k as int),
        {
            if k < weights.len() {
                let w: Scalar = weights[k];
                if !w.is_zero() {
                    inner.push((w, h));
                }
                k += 1;
            }
        }
        CombinedHypothesis { inner, constant: Scalar::zero() }
    }

    /// Pairs each hypothesis with its weight and keeps the pairs whose
    /// weight is greater than zero. Where one list is longer, what has
    /// no partner is left out. The constant is zero.
    pub fn from_positive_weights(weights: Vec<Scalar>, hypotheses: Vec<F>) -> (r: Self)
        ensures
            r.constant.bits == 0,
            r.inner@ == positive_pairs(
                weights@,
                hypotheses@,
                shorter(weights@.len(), hypotheses@.len()),
            ),
    {
        let ghost hyps = hypotheses@;
        let mut inner: Vec<(Scalar, F)> = Vec::new();
        let mut k: usize = 0;
        for h in it: hypotheses
            invariant
                it.seq() == hyps,
                k == shorter(weights@.len(), it.index() as nat),
                inner@ == positive_pairs(weights@, hyps, k as int),
        {
            if k < weights.len() {
                let w: Scalar = weights[k];
                if w.is_positive() {
                    inner.push((w, h));
                }
                k += 1;
            }
        }
        CombinedHypothesis { inner, constant: Scalar::zero() }
    }

    /// Pairs each hypothesis with its weight, in order. Where one list
    /// is longer, what has no partner is left out. The constant is zero.
    pub fn from_lists(weights: Vec<Scalar>, hypotheses: Vec<F>) -> (r: Self)
        ensures
            r.constant.bits == 0,
            r.inner@.len() == shorter(weights@.len(), hypotheses@.len()),
            forall|k: int|
                0 <= k < r.inner@.len() ==> r.inner@[k] == (weights@[k], #[trigger] hypotheses@[k]),
    {
        let ghost hyps = hypotheses@;
        let mut inner: Vec<(Scalar, F)> = Vec::new();
        let mut k: usize = 0;
        for h in it: hypotheses
            invariant
                it.seq() == hyps,
                k == shorter(weights@.len(), it.index() as nat),
                inner@.len() == k,
                forall|j: int| 0 <= j < k ==> inner@[j] == (weights@[j], #[trigger] hyps[j]),
        {
            if k < weights.len() {
                inner.push((weights[k], h));
                k += 1;
            }
        }
        CombinedHypothesis { inner, constant: Scalar::zero() }
    }

    /// Gives every hypothesis the same weight. The constant is zero.
    pub fn uniform(weight: Scalar, hypotheses: Vec<F>) -> (r: Self)
        ensures
            r.constant.bits == 0,
            r.inner@.len() == hypotheses@.len(),
            forall|k: int|
                0 <= k < hypotheses@.len() ==> r.inner@[k] == (weight, #[trigger] hypotheses@[k]),
    {
        let ghost hyps = hypotheses@;
        let mut inner: Vec<(Scalar, F)> = Vec::new();
        for h in it: hypotheses
            invariant
                it.seq() == hyps,
                inner@.len() == it.index(),
                forall|k: int| 0 <= k < inner@.len() ==> inner@[k] == (weight, #[trigger] hyps[k]),
        {
            inner.push((weight, h));
        }
        CombinedHypothesis { inner, constant: Scalar::zero() }
    }
}

impl<F> From<Vec<(Scalar, F)>> for CombinedHypothesis<F> {
    /// The weighted sum of the given pairs, with the constant zero.
    fn from(inner: Vec<(Scalar, F)>) -> (r: Self) {
        CombinedHypothesis { inner, constant: Scalar::zero() }
    }
}

impl<F> vstd::std_specs::convert::FromSpecImpl<Vec<(Scalar, F)>> for CombinedHypothesis<F> {
    open spec fn obeys_from_spec() -> bool {
        true
    }

    open spec fn from_spec(inner: Vec<(Scalar, F)>) -> Self {
        CombinedHypothesis { inner, constant: Scalar { bits: 0 } }
    }
}


/// The place of the first of the hypotheses from `start` on that equals
/// `h`, or their number where none does.
pub open spec fn first_equal<F: PartialEq>(hypotheses: Seq<F>, h: F, start: int) -> int
    decreases hypotheses.len() - start,
{
    if start < 0 || start >= hypotheses.len() {
        hypotheses.len() as int
    } else if hypotheses[start].eq_spec(&h) {
        start
    } else {
        first_equal(hypotheses, h, start + 1)
    }
}

/// Finds `h` among the hypotheses obtained so far: the place of the
/// first one that equals it, or their number where it is new.
pub fn position<F: PartialEq>(hypotheses: &Vec<F>, h: &F) -> (r: usize)
    ensures
        r <= hypotheses@.len(),
        F::obeys_eq_spec() ==> r == first_equal(hypotheses@, *h, 0),
{
    let mut k: usize = 0;
    while k < hypotheses.len()
        invariant
            k <= hypotheses@.len(),
            F::obeys_eq_spec() ==> first_equal(hypotheses@, *h, 0) == first_equal(
                hypotheses@,
                *h,
                k as int,
            ),
        decreases hypotheses@.len() - k,
    {
        if hypotheses[k] == *h {
            return k;
        }
        k += 1;
    }
    k
}


} // verus!
