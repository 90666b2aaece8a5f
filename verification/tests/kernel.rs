use miniboosts::base_learner::decision_tree::split_rule::SplitRule;
use miniboosts::base_learner::decision_tree::split_rule::StumpSplit;
use miniboosts::base_learner::decision_tree::split_rule::LR;
use miniboosts::kernel::abs_all;
use miniboosts::kernel::all_finite;
use miniboosts::kernel::any_zero;
use miniboosts::kernel::ascending_order;
use miniboosts::kernel::capped_count;
use miniboosts::kernel::clip;
use miniboosts::kernel::descending_order;
use miniboosts::kernel::no_nan;
use miniboosts::kernel::running_minimum;
use miniboosts::kernel::within_cap;
use miniboosts::research::TimeBudget;
use miniboosts::research::HEADER;
use miniboosts::scalar::Scalar;
use miniboosts::solver::judge;
use miniboosts::solver::Outcome;
use miniboosts::solver::Status;
use std::ops::ControlFlow;

fn s(x: f64) -> Scalar {
    Scalar::from_bits(x.to_bits())
}

fn column(values: &[f64]) -> Vec<Scalar> {
    values.iter().map(|x| s(*x)).collect()
}

#[test]
fn ascending_order_sorts_the_rows() {
    let scores = column(&[0.5, -700.0, 700.0, -0.25, 1e-300]);
    assert_eq!(ascending_order(&scores), vec![1, 3, 4, 0, 2]);
    assert_eq!(ascending_order(&Vec::new()), Vec::<usize>::new());
    let tied = column(&[1.0, 0.0, 1.0, -0.0]);
    let order = ascending_order(&tied);
    let mut sorted = order.clone();
    sorted.sort();
    assert_eq!(sorted, vec![0, 1, 2, 3]);
    assert!(order[..2].contains(&1) && order[..2].contains(&3));
}

#[test]
fn descending_order_sorts_the_rows() {
    let scores = column(&[0.5, -700.0, 700.0, -0.25, 1e-300]);
    assert_eq!(descending_order(&scores), vec![2, 0, 4, 3, 1]);
    let infinite = column(&[f64::NEG_INFINITY, f64::INFINITY, 0.0]);
    assert_eq!(descending_order(&infinite), vec![1, 2, 0]);
}

#[test]
fn descending_order_keeps_equal_scores_by_number() {
    let scores = column(&[1.0, 2.0, 1.0, -0.0, 2.0, 0.0, 1.0]);
    assert_eq!(descending_order(&scores), vec![1, 4, 0, 2, 6, 3, 5]);
}

#[test]
fn no_nan_finds_a_nan() {
    assert!(no_nan(&column(&[1.0, f64::INFINITY, -0.0])));
    assert!(!no_nan(&column(&[1.0, f64::NAN])));
    assert!(no_nan(&Vec::new()));
}

#[test]
fn any_zero_finds_a_zero() {
    assert!(!any_zero(&column(&[0.25, 0.5, 5e-324])));
    assert!(any_zero(&column(&[0.25, 0.0, 0.75])));
    assert!(any_zero(&column(&[0.25, 0.75, -0.0])));
    assert!(!any_zero(&column(&[f64::NAN])));
    assert!(!any_zero(&Vec::new()));
}

#[test]
fn within_cap_checks_both_bounds() {
    let cap = s(0.5);
    assert!(within_cap(&column(&[0.0, 0.25, 0.5, -0.0]), cap));
    assert!(!within_cap(&column(&[0.25, 0.5000001]), cap));
    assert!(!within_cap(&column(&[0.25, -1e-300]), cap));
    assert!(!within_cap(&column(&[f64::NAN]), cap));
    assert!(!within_cap(&column(&[0.25]), s(f64::NAN)));
    assert!(within_cap(&Vec::new(), cap));
    assert!(within_cap(&column(&[1.0, 0.0]), s(1.0)));
}

#[test]
fn judge_reads_a_solution() {
    assert_eq!(judge(Status::Optimal).ok(), Some(Outcome::Solved));
    assert_eq!(judge(Status::SubOptimal).ok(), Some(Outcome::Solved));
}

#[test]
fn judge_takes_infeasible_for_converged() {
    assert_eq!(judge(Status::Infeasible).ok(), Some(Outcome::Converged));
    assert_eq!(judge(Status::InfOrUnbd).ok(), Some(Outcome::Converged));
}

#[test]
fn judge_fails_on_any_other_status() {
    let failure = judge(Status::Other("Numeric".to_string())).err().unwrap();
    assert_eq!(failure.status, "Numeric");
}

#[test]
fn header_names_the_four_columns() {
    assert_eq!(HEADER, "ObjectiveValue,TrainLoss,TestLoss,Time\n");
}

#[test]
fn time_budget_breaks_past_the_limit() {
    let mut budget = TimeBudget::new().time_limit_as_millis(100);
    assert_eq!(budget.after_round(40, 1, ControlFlow::Continue(())), ControlFlow::Continue(()));
    assert_eq!(budget.elapsed(), 40);
    assert_eq!(budget.after_round(60, 2, ControlFlow::Continue(())), ControlFlow::Continue(()));
    assert_eq!(budget.elapsed(), 100);
    assert_eq!(budget.after_round(1, 3, ControlFlow::Continue(())), ControlFlow::Break(3));
    assert_eq!(budget.after_round(0, 4, ControlFlow::Break(9)), ControlFlow::Break(4));
    assert_eq!(budget.elapsed(), 101);
}

#[test]
fn time_budget_passes_the_signal_on() {
    let mut budget = TimeBudget::new();
    assert_eq!(budget.after_round(u128::MAX, 1, ControlFlow::Break(7)), ControlFlow::Break(7));
    assert_eq!(budget.after_round(0, 2, ControlFlow::Continue(())), ControlFlow::Continue(()));
}

#[test]
fn split_sends_smaller_values_left() {
    let rule = SplitRule::Stump(StumpSplit::from((1, s(0.5))));
    assert_eq!(rule.split(&column(&[9.0, 0.25])), LR::Left);
    assert_eq!(rule.split(&column(&[0.0, 0.5])), LR::Right);
    assert_eq!(rule.split(&column(&[0.0, 0.75])), LR::Right);
    assert_eq!(rule.split(&column(&[0.0, f64::NAN])), LR::Right);
    assert_eq!(rule.split(&column(&[0.0, f64::NEG_INFINITY])), LR::Left);
    let zero = SplitRule::Stump(StumpSplit::from((0, s(0.0))));
    assert_eq!(zero.split(&column(&[-0.0])), LR::Right);
}

#[test]
fn split_on_integers() {
    let rule: SplitRule<i64> = SplitRule::Stump(StumpSplit::from((0, 3)));
    assert_eq!(rule.split(&vec![2_i64]), LR::Left);
    assert_eq!(rule.split(&vec![3_i64]), LR::Right);
}

#[test]
fn capped_count_is_the_first_rank_that_fits() {
    assert_eq!(capped_count(&column(&[0.5, 0.25, -0.1, 3.0])), 2);
    assert_eq!(capped_count(&column(&[0.0, 0.25])), 0);
    assert_eq!(capped_count(&column(&[1e-300, -0.0, -5.0])), 1);
    assert_eq!(capped_count(&column(&[0.5, f64::NAN, 0.25])), 3);
    assert_eq!(capped_count(&column(&[f64::NEG_INFINITY])), 0);
    assert_eq!(capped_count(&Vec::new()), 0);
}

#[test]
fn all_finite_rejects_infinities_and_nan() {
    assert!(all_finite(&column(&[0.0, -1.5, f64::MAX, f64::MIN, 5e-324])));
    assert!(!all_finite(&column(&[0.0, f64::INFINITY])));
    assert!(!all_finite(&column(&[f64::NEG_INFINITY])));
    assert!(!all_finite(&column(&[1.0, f64::NAN])));
    assert!(all_finite(&Vec::new()));
    for x in [0.0, -0.0, 1.0, f64::MAX, f64::INFINITY, f64::NEG_INFINITY, f64::NAN] {
        assert_eq!(s(x).is_finite(), x.is_finite());
    }
}

#[test]
fn abs_all_takes_every_sign_off() {
    let values = [0.5, -0.5, -0.0, 0.0, f64::NEG_INFINITY, -1e-310];
    let got: Vec<u64> = abs_all(&column(&values)).into_iter().map(|x| x.to_bits()).collect();
    let want: Vec<u64> = values.iter().map(|x| x.abs().to_bits()).collect();
    assert_eq!(got, want);
    assert!(abs_all(&Vec::new()).is_empty());
}

#[test]
fn running_minimum_takes_what_is_below() {
    let low = |a: f64, b: f64| f64::from_bits(running_minimum(s(a), s(b)).to_bits());
    assert_eq!(low(1.0, 0.25), 0.25);
    assert_eq!(low(0.25, 1.0), 0.25);
    assert_eq!(low(0.25, 0.25), 0.25);
    assert_eq!(low(1.0, -0.5), -0.5);
    assert_eq!(low(0.5, f64::NAN), 0.5);
    assert_eq!(low(1.0, f64::NEG_INFINITY), f64::NEG_INFINITY);
    for (a, b) in [(1.0, 0.25), (0.25, 1.0), (-3.0, 2.0), (0.5, 0.5)] {
        assert_eq!(low(a, b), if a > b { b } else { a });
    }
}

#[test]
fn clip_cuts_to_the_unit_range() {
    let cut = |x: f64| f64::from_bits(clip(s(x)).to_bits());
    for x in [0.25, 0.0, 1.0, 1.5, -0.5, 1e-300, f64::INFINITY, f64::NEG_INFINITY, f64::NAN] {
        assert_eq!(cut(x), 0.0_f64.max(1.0_f64.min(x)));
    }
    assert_eq!(cut(-0.0), 0.0);
    assert_eq!(cut(f64::NAN), 1.0);
    assert_eq!(cut(0.999), 0.999);
}
