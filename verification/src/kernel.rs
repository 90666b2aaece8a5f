//! The parts of the numeric kernels that order and test values.
//!
//! The log-domain normalisation adds up its terms from the smallest to
//! the largest, and the projection onto the capped simplex visits the
//! scores from the largest to the smallest. Both need the rows in the
//! order of their values, which is computed here. So are the two tests
//! that the soft-margin boosters make of a distribution: whether an
//! entry has become zero, and whether every entry lies within the cap.
use crate::scalar::order::compared;
use crate::scalar::Scalar;
use crate::scalar::ONE_BITS;
use std::cmp::Ordering;
use vstd::prelude::*;

verus! {

/// The key of the score of the row that stands at place `k` of `order`.
pub open spec fn ranked_key(scores: Seq<Scalar>, order: Seq<usize>, k: int) -> int {
    scores[order[k] as int].key()
}

/// Whether `order` holds each of the rows `0` to `n - 1` exactly once.
pub open spec fn is_permutation(order: Seq<usize>, n: nat) -> bool {
    &&& order.len() == n
    &&& forall|k: int| 0 <= k < order.len() ==> (#[trigger] order[k]) < n
    &&& forall|row: usize| row < n ==> order.contains(row)
    &&& order.no_duplicates()
}

/// Whether row `a` comes before row `b` where the rows are listed from
/// the largest score to the smallest and rows of equal score by their
/// number.
pub open spec fn precedes(scores: Seq<Scalar>, a: usize, b: usize) -> bool {
    ||| scores[a as int].key() > scores[b as int].key()
    ||| (scores[a as int].key() == scores[b as int].key() && a < b)
}

/// Whether none of the values is a NaN.
pub open spec fn all_numbers(values: Seq<Scalar>) -> bool {
    forall|i: int| 0 <= i < values.len() ==> !(#[trigger] values[i]).nan()
}

/// Whether `order` lists the rows from the smallest score to the
/// largest.
pub open spec fn is_ascending(scores: Seq<Scalar>, order: Seq<usize>) -> bool {
    &&& is_permutation(order, scores.len())
    &&& forall|a: int, b: int|
        0 <= a < b < order.len() ==> #[trigger] ranked_key(scores, order, a) <= #[trigger] ranked_key(
            scores,
            order,
            b,
        )
}

/// Whether `order` lists the rows from the largest score to the
/// smallest, rows of equal score by their number.
pub open spec fn is_descending(scores: Seq<Scalar>, order: Seq<usize>) -> bool {
    &&& is_permutation(order, scores.len())
    &&& forall|a: int, b: int|
        0 <= a < b < order.len() ==> {
            ||| #[trigger] ranked_key(scores, order, a) > #[trigger] ranked_key(scores, order, b)
            ||| (ranked_key(scores, order, a) == ranked_key(scores, order, b) && order[a] < order[b])
        }
}

/// The score of row `row`.
pub open spec fn score_of(scores: Seq<Scalar>, row: usize) -> Scalar {
    scores[row as int]
}

/// How the score of row `i` compares to that of row `j`.
fn ascending(scores: &Vec<Scalar>, i: usize, j: usize) -> (r: Ordering)
    requires
        all_numbers(scores@),
        i < scores@.len(),
        j < scores@.len(),
    ensures
        Some(r) == compared(score_of(scores@, i), score_of(scores@, j)),
{
    let a: Scalar = scores[i];
    let b: Scalar = scores[j];
    if a.less_than(b) {
        Ordering::Less
    } else if b.less_than(a) {
        Ordering::Greater
    } else {
        Ordering::Equal
    }
}

/// How the score of row `j` compares to that of row `i`.
fn descending(scores: &Vec<Scalar>, i: usize, j: usize) -> (r: Ordering)
    requires
        all_numbers(scores@),
        i < scores@.len(),
        j < scores@.len(),
    ensures
        Some(r) == compared(score_of(scores@, j), score_of(scores@, i)),
{
    ascending(scores, j, i)
}

/// Sorts row numbers by their scores, smallest first. This is the
/// standard library's `sort_unstable_by`: the result is a rearrangement
/// of what was there, in the order of the comparison; where scores are
/// equal, the order is not said.
#[verifier::external_body]
fn sort_unstable_by_score(indices: &mut Vec<usize>, scores: &Vec<Scalar>)
    requires
        all_numbers(scores@),
        forall|k: int| 0 <= k < old(indices)@.len() ==> (#[trigger] old(indices)@[k]) < scores@.len(),
    ensures
        final(indices)@.to_multiset() == old(indices)@.to_multiset(),
        forall|a: int, b: int|
            0 <= a < b < final(indices)@.len() ==> #[trigger] ranked_key(scores@, final(indices)@, a)
                <= #[trigger] ranked_key(scores@, final(indices)@, b),
{
    indices.sort_unstable_by(|i, j| ascending(scores, *i, *j));
}

/// Sorts row numbers by their scores, largest first. This is the
/// standard library's `sort_by`, which is stable: the result is a
/// rearrangement of what was there, in the order of the comparison, and
/// numbers of equal score stay in the order they had, which was the
/// increasing one.
#[verifier::external_body]
fn sort_by_score_descending(indices: &mut Vec<usize>, scores: &Vec<Scalar>)
    requires
        all_numbers(scores@),
        forall|k: int| 0 <= k < old(indices)@.len() ==> (#[trigger] old(indices)@[k]) < scores@.len(),
        forall|a: int, b: int|
            0 <= a < b < old(indices)@.len() ==> old(indices)@[a] < old(indices)@[b],
    ensures
        final(indices)@.to_multiset() == old(indices)@.to_multiset(),
        forall|a: int, b: int|
            0 <= a < b < final(indices)@.len() ==> {
                ||| #[trigger] ranked_key(scores@, final(indices)@, a) > #[trigger] ranked_key(
                    scores@,
                    final(indices)@,
                    b,
                )
                ||| (ranked_key(scores@, final(indices)@, a) == ranked_key(
                    scores@,
                    final(indices)@,
                    b,
                ) && final(indices)@[a] < final(indices)@[b])
            },
{
    indices.sort_by(|i, j| descending(scores, *i, *j));
}

/// The rows `0` to `n - 1`, in order.
fn identity_order(n: usize) -> (r: Vec<usize>)
    ensures
        r@.len() == n,
        forall|k: int| 0 <= k < n ==> r@[k] == k,
{
    let mut out: Vec<usize> = Vec::new();
    let mut k: usize = 0;
    while k < n
        invariant
            k <= n,
            out@.len() == k,
            forall|j: int| 0 <= j < k ==> out@[j] == j,
        decreases n - k,
    {
        out.push(k);
        k += 1;
    }
    out
}

/// A rearrangement of the rows `0` to `n - 1` holds each of them exactly
/// once.
proof fn lemma_rearranged(start: Seq<usize>, order: Seq<usize>, n: nat)
    requires
        start.len() == n,
        forall|k: int| 0 <= k < n ==> start[k] == k,
        order.to_multiset() == start.to_multiset(),
    ensures
        is_permutation(order, n),
{
    broadcast use vstd::seq_lib::to_multiset_len, vstd::seq_lib::to_multiset_contains;

    vstd::seq_lib::to_multiset_len(order);
    vstd::seq_lib::to_multiset_len(start);
    assert(order.len() == n);
    assert forall|k: int| 0 <= k < order.len() implies (#[trigger] order[k]) < n by {
        assert(order.contains(order[k]));
        assert(order.to_multiset().count(order[k]) > 0);
        assert(start.contains(order[k]));
        let p = choose|p: int| 0 <= p < start.len() && start[p] == order[k];
        assert(start[p] == p);
    }
    assert forall|row: usize| row < n implies order.contains(row) by {
        assert(start[row as int] == row);
        assert(start.contains(row));
        assert(start.to_multiset().count(row) > 0);
    }
    assert(start.no_duplicates());
    start.lemma_multiset_has_no_duplicates();
    order.lemma_multiset_has_no_duplicates_conv();
}

/// The scores fix the descending order: two lists of the rows from the
/// largest score to the smallest, rows of equal score by their number,
/// are the same list.
pub proof fn lemma_descending_is_unique(scores: Seq<Scalar>, first: Seq<usize>, second: Seq<usize>)
    requires
        is_descending(scores, first),
        is_descending(scores, second),
    ensures
        first == second,
{
    assert forall|k: int| 0 <= k < first.len() implies first[k] == second[k] by {
        lemma_same_place(scores, first, second, k);
    }
    assert(first =~= second);
}

/// Two descending orders of the same scores hold the same row at
/// place `k`.
proof fn lemma_same_place(scores: Seq<Scalar>, first: Seq<usize>, second: Seq<usize>, k: int)
    requires
        is_descending(scores, first),
        is_descending(scores, second),
        0 <= k < first.len(),
    ensures
        first[k] == second[k],
    decreases k,
{
    assert forall|j: int| 0 <= j < k implies first[j] == second[j] by {
        lemma_same_place(scores, first, second, j);
    }
    let x = first[k];
    let y = second[k];
    if x != y {
        assert(second.contains(x));
        let p = choose|p: int| 0 <= p < second.len() && second[p] == x;
        assert(first.contains(y));
        let q = choose|q: int| 0 <= q < first.len() && first[q] == y;
        if p < k {
            assert(first[p] == second[p]);
        }
        if q < k {
            assert(first[q] == second[q]);
        }
        assert(p > k);
        assert(q > k);
        assert(ranked_key(scores, second, k) == scores[y as int].key());
        assert(ranked_key(scores, second, p) == scores[x as int].key());
        assert(ranked_key(scores, first, k) == scores[x as int].key());
        assert(ranked_key(scores, first, q) == scores[y as int].key());
    }
}

/// The rows in the order of their scores, smallest first. Rows of equal
/// score come in no stated order.
pub fn ascending_order(scores: &Vec<Scalar>) -> (r: Vec<usize>)
    requires
        all_numbers(scores@),
    ensures
        is_ascending(scores@, r@),
{
    let mut order: Vec<usize> = identity_order(scores.len());
    let ghost start = order@;
    sort_unstable_by_score(&mut order, scores);
    proof {
        lemma_rearranged(start, order@, scores@.len());
    }
    order
}

/// The rows in the order of their scores, largest first. Rows of equal
/// score come by their number.
pub fn descending_order(scores: &Vec<Scalar>) -> (r: Vec<usize>)
    requires
        all_numbers(scores@),
    ensures
        is_descending(scores@, r@),
{
    let mut order: Vec<usize> = identity_order(scores.len());
    let ghost start = order@;
    sort_by_score_descending(&mut order, scores);
    proof {
        lemma_rearranged(start, order@, scores@.len());
    }
    order
}

/// Whether no value is a NaN.
pub fn no_nan(values: &Vec<Scalar>) -> (r: bool)
    ensures
        r == all_numbers(values@),
{
    let mut i: usize = 0;
    while i < values.len()
        invariant
            i <= values@.len(),
            forall|j: int| 0 <= j < i ==> !(#[trigger] values@[j]).nan(),
        decreases values@.len() - i,
    {
        if values[i].is_nan() {
            return false;
        }
        i += 1;
    }
    true
}

/// The values without their signs.
pub open spec fn absolutes(values: Seq<Scalar>) -> Seq<Scalar> {
    Seq::new(values.len(), |k: int| Scalar { bits: values[k].magnitude() as u64 })
}

/// Takes the sign off every value.
pub fn abs_all(values: &Vec<Scalar>) -> (r: Vec<Scalar>)
    ensures
        r@ == absolutes(values@),
        forall|k: int| 0 <= k < r@.len() ==> !(#[trigger] r@[k]).sign_bit(),
{
    let mut out: Vec<Scalar> = Vec::new();
    let mut k: usize = 0;
    while k < values.len()
        invariant
            k <= values@.len(),
            out@.len() == k,
            forall|j: int| 0 <= j < k ==> (#[trigger] out@[j]).bits == values@[j].magnitude(),
        decreases values@.len() - k,
    {
        out.push(values[k].abs());
        k += 1;
    }
    assert(out@ =~= absolutes(values@));
    out
}

/// The smaller of the running minimum and a new value: the new value
/// where it is below the minimum, the minimum otherwise. A new value
/// that is a NaN leaves the minimum as it is.
pub open spec fn lowered(minimum: Scalar, value: Scalar) -> Scalar {
    if value.below(minimum) {
        value
    } else {
        minimum
    }
}

/// Lowers a running minimum to a new value that is below it.
pub fn running_minimum(minimum: Scalar, value: Scalar) -> (r: Scalar)
    ensures
        r == lowered(minimum, value),
{
    if value.less_than(minimum) {
        value
    } else {
        minimum
    }
}

/// A step size cut to the range from zero to one: zero for what is
/// zero or below, one for what is above one, and the value itself
/// between. What is not a number is taken for one.
pub open spec fn clipped(value: Scalar) -> Scalar {
    if value.nan() || (Scalar { bits: ONE_BITS }).below(value) {
        Scalar { bits: ONE_BITS }
    } else if value.sign_bit() || value.magnitude() == 0 {
        Scalar { bits: 0 }
    } else {
        value
    }
}

/// Cuts a step size to the range from zero to one.
pub fn clip(value: Scalar) -> (r: Scalar)
    ensures
        r == clipped(value),
        !r.nan(),
        0 <= r.key() <= ONE_BITS,
{
    if value.is_nan() || Scalar::one().less_than(value) {
        Scalar::one()
    } else if value.at_most(Scalar::zero()) {
        Scalar::zero()
    } else {
        value
    }
}

/// Whether every value is a number other than the two infinities.
pub fn all_finite(values: &Vec<Scalar>) -> (r: bool)
    ensures
        r == forall|i: int| 0 <= i < values@.len() ==> (#[trigger] values@[i]).finite(),
{
    let mut i: usize = 0;
    while i < values.len()
        invariant
            i <= values@.len(),
            forall|j: int| 0 <= j < i ==> (#[trigger] values@[j]).finite(),
        decreases values@.len() - i,
    {
        if !values[i].is_finite() {
            return false;
        }
        i += 1;
    }
    true
}

/// Whether some entry compares equal to zero.
pub fn any_zero(dist: &Vec<Scalar>) -> (r: bool)
    ensures
        r == exists|i: int| 0 <= i < dist@.len() && (#[trigger] dist@[i]).magnitude() == 0,
{
    let mut i: usize = 0;
    while i < dist.len()
        invariant
            i <= dist@.len(),
            forall|j: int| 0 <= j < i ==> (#[trigger] dist@[j]).magnitude() != 0,
        decreases dist@.len() - i,
    {
        if dist[i].is_zero() {
            return true;
        }
        i += 1;
    }
    false
}

/// Whether the row at rank `k` takes its share without exceeding the
/// cap: its excess over the cap, in the log domain, is zero or less.
pub open spec fn fits(excess: Seq<Scalar>, k: int) -> bool {
    excess[k].below(Scalar { bits: 0 }) || excess[k].same(Scalar { bits: 0 })
}

/// The number of rows that the projection onto the capped simplex sets
/// to the cap: the rank of the first row that fits, or the number of
/// rows where none does. `excess[k]` is the excess of the row at rank
/// `k` over the cap, in the log domain, with the `k` rows before it
/// capped.
pub fn capped_count(excess: &Vec<Scalar>) -> (r: usize)
    ensures
        r <= excess@.len(),
        forall|k: int| 0 <= k < r ==> !fits(excess@, k),
        r < excess@.len() ==> fits(excess@, r as int),
{
    let mut k: usize = 0;
    while k < excess.len()
        invariant
            k <= excess@.len(),
            forall|j: int| 0 <= j < k ==> !fits(excess@, j),
        decreases excess@.len() - k,
    {
        if excess[k].at_most(Scalar::zero()) {
            return k;
        }
        k += 1;
    }
    k
}

/// Whether `d` is a number from zero to `cap`, both included.
pub open spec fn capped(d: Scalar, cap: Scalar) -> bool {
    &&& !d.nan()
    &&& !cap.nan()
    &&& 0 <= d.key() <= cap.key()
}

/// Whether every entry is a number from zero to `cap`, both included.
pub fn within_cap(dist: &Vec<Scalar>, cap: Scalar) -> (r: bool)
    ensures
        r == forall|i: int| 0 <= i < dist@.len() ==> capped(#[trigger] dist@[i], cap),
{
    let mut i: usize = 0;
    while i < dist.len()
        invariant
            i <= dist@.len(),
            forall|j: int| 0 <= j < i ==> capped(#[trigger] dist@[j], cap),
        decreases dist@.len() - i,
    {
        let d: Scalar = dist[i];
        if d.is_nan() || cap.is_nan() || d.less_than(Scalar::zero()) || cap.less_than(d) {
            assert(!capped(dist@[i as int], cap));
            return false;
        }
        i += 1;
    }
    true
}

} // verus!
