use miniboosts::booster::adaboost::is_perfect;
use miniboosts::booster::adaboost::AdaBoost;
use miniboosts::booster::adaboostv::AdaBoostV;
use miniboosts::booster::cerlpboost::CERLPBoost;
use miniboosts::booster::erlpboost::is_settled;
use miniboosts::booster::erlpboost::ERLPBoost;
use miniboosts::booster::gbm::GBM;
use miniboosts::booster::lpboost::LPBoost;
use miniboosts::booster::mlpboost::better_weight;
use miniboosts::booster::mlpboost::MLPBoost;
use miniboosts::booster::parameters::check_nu;
use miniboosts::booster::parameters::check_sample;
use miniboosts::booster::parameters::check_smooth;
use miniboosts::booster::parameters::check_tolerance;
use miniboosts::booster::parameters::ConfigError;
use miniboosts::booster::smoothboost::SmoothBoost;
use miniboosts::booster::softboost::SoftBoost;
use miniboosts::scalar::Scalar;
use miniboosts::solver::Outcome;
use std::ops::ControlFlow;

fn s(x: f64) -> Scalar {
    Scalar::from_bits(x.to_bits())
}

fn f(x: Scalar) -> f64 {
    f64::from_bits(x.to_bits())
}

fn column(values: &[f64]) -> Vec<Scalar> {
    values.iter().map(|x| s(*x)).collect()
}

fn pairs(list: &[(Scalar, u32)]) -> Vec<(f64, u32)> {
    list.iter().map(|(w, h)| (f(*w), *h)).collect()
}

#[test]
fn perfect_edge_is_one_or_more() {
    for (edge, want) in [
        (1.0, true),
        (-1.0, true),
        (1.5, true),
        (f64::NEG_INFINITY, true),
        (0.9999999999999999, false),
        (-0.9999999999999999, false),
        (0.0, false),
        (f64::NAN, false),
    ] {
        assert_eq!(is_perfect(s(edge)), want);
        assert_eq!(is_perfect(s(edge)), edge.abs() >= 1.0);
    }
}

#[test]
fn scalar_abs_and_unit_agree_with_binary64() {
    for x in [0.0, -0.0, 2.5, -2.5, f64::INFINITY, f64::NEG_INFINITY, 1e-310, -1e-310] {
        assert_eq!(s(x).abs().to_bits(), x.abs().to_bits());
        assert_eq!(s(x).unit().to_bits(), x.signum().to_bits());
    }
    assert!(f(s(f64::NAN).unit()).is_nan());
    assert!(s(0.5).at_most(s(0.5)));
    assert!(s(-0.0).at_most(s(0.0)));
    assert!(!s(0.6).at_most(s(0.5)));
    assert!(!s(f64::NAN).at_most(s(f64::NAN)));
}

#[test]
fn adaboost_keeps_weighted_hypotheses() {
    let mut rounds: AdaBoost<u32> = AdaBoost::init();
    assert_eq!(rounds.terminated(), usize::MAX);
    rounds.preprocess(3);
    assert_eq!(rounds.begin(1), ControlFlow::Continue(()));
    assert_eq!(rounds.settle(1, 7, s(0.25)), Some(7));
    rounds.append(s(0.2554128118829953), 7);
    assert_eq!(rounds.begin(3), ControlFlow::Continue(()));
    assert_eq!(rounds.settle(3, 8, s(-0.5)), Some(8));
    rounds.append(s(-0.5493061443340549), 8);
    assert_eq!(rounds.begin(4), ControlFlow::Break(4));
    assert_eq!(
        pairs(rounds.weighted_classifiers()),
        vec![(0.2554128118829953, 7), (-0.5493061443340549, 8)]
    );
    let f = rounds.postprocess();
    assert_eq!(pairs(&f.inner), vec![(0.2554128118829953, 7), (-0.5493061443340549, 8)]);
    assert_eq!(f.constant.to_bits(), 0);
    assert_eq!(rounds.terminated(), usize::MAX);
}

#[test]
fn adaboost_ends_on_a_perfect_hypothesis() {
    let mut rounds: AdaBoost<u32> = AdaBoost::init();
    rounds.preprocess(100);
    rounds.append(s(0.3), 1);
    rounds.append(s(0.4), 2);
    assert_eq!(rounds.settle(3, 9, s(-1.0)), None);
    assert_eq!(rounds.terminated(), 3);
    assert_eq!(pairs(&rounds.postprocess().inner), vec![(-1.0, 9)]);
    rounds.preprocess(100);
    assert_eq!(rounds.settle(1, 5, s(1.0)), None);
    assert_eq!(pairs(&rounds.postprocess().inner), vec![(1.0, 5)]);
}

#[test]
fn adaboostv_drops_zero_weights_at_the_end() {
    let mut rounds: AdaBoostV<u32> = AdaBoostV::init();
    rounds.preprocess(10);
    assert_eq!(rounds.begin(10), ControlFlow::Continue(()));
    assert_eq!(rounds.begin(11), ControlFlow::Break(11));
    for (k, w) in [0.5, 0.0, -0.25].into_iter().enumerate() {
        let h = rounds.settle(k + 1, k as u32, s(0.1)).unwrap();
        rounds.append(s(w), h);
    }
    assert_eq!(rounds.weights().len(), 3);
    assert_eq!(rounds.classifiers(), &vec![0, 1, 2]);
    assert_eq!(pairs(&rounds.postprocess().inner), vec![(0.5, 0), (-0.25, 2)]);
}

#[test]
fn adaboostv_ends_on_a_perfect_hypothesis() {
    let mut rounds: AdaBoostV<u32> = AdaBoostV::init();
    rounds.preprocess(10);
    rounds.append(s(0.5), 1);
    assert_eq!(rounds.settle(2, 4, s(1.25)), None);
    assert_eq!(rounds.terminated(), 2);
    assert_eq!(pairs(&rounds.postprocess().inner), vec![(1.0, 4)]);
}

#[test]
fn gbm_ends_on_a_zero_coefficient() {
    let mut rounds: GBM<u32> = GBM::init();
    rounds.preprocess();
    assert_eq!(rounds.terminated(), 100);
    assert_eq!(rounds.begin(100), ControlFlow::Continue(()));
    assert_eq!(rounds.begin(101), ControlFlow::Break(100));
    assert_eq!(rounds.settle(1, 11, s(0.75)), ControlFlow::Continue(()));
    assert_eq!(rounds.settle(2, 12, s(-2.0)), ControlFlow::Continue(()));
    assert_eq!(rounds.settle(3, 13, s(-0.0)), ControlFlow::Break(3));
    assert_eq!(rounds.terminated(), 3);
    assert_eq!(pairs(&rounds.postprocess().inner), vec![(0.75, 11), (-2.0, 12)]);
}

#[test]
fn smoothboost_ends_when_the_weights_run_low() {
    let mut rounds: SmoothBoost<u32> = SmoothBoost::init();
    rounds.preprocess(5);
    assert_eq!(rounds.terminated(), 5);
    assert_eq!(rounds.begin(1, s(10.0), s(5.0)), ControlFlow::Continue(()));
    rounds.append(1);
    assert_eq!(rounds.begin(2, s(5.0), s(5.0)), ControlFlow::Continue(()));
    rounds.append(2);
    assert_eq!(rounds.current_round(), 2);
    assert_eq!(rounds.begin(3, s(4.999), s(5.0)), ControlFlow::Break(3));
    assert_eq!(rounds.terminated(), 2);
    assert_eq!(rounds.current_round(), 3);
    assert_eq!(rounds.classifiers(), &vec![1, 2]);
    assert_eq!(pairs(&rounds.postprocess(s(0.5)).inner), vec![(0.5, 1), (0.5, 2)]);
}

#[test]
fn smoothboost_stops_past_the_round_limit() {
    let mut rounds: SmoothBoost<u32> = SmoothBoost::init();
    rounds.preprocess(2);
    assert_eq!(rounds.begin(3, s(10.0), s(5.0)), ControlFlow::Break(3));
    assert_eq!(rounds.terminated(), 2);
    assert_eq!(rounds.current_round(), 0);
}

#[test]
fn lpboost_ends_when_the_optimum_reaches_the_bound() {
    let mut rounds: LPBoost<u32> = LPBoost::init();
    rounds.preprocess();
    assert_eq!(rounds.settle(1, s(0.1), s(0.3)), ControlFlow::Continue(()));
    assert_eq!(rounds.settle(2, s(f64::NAN), s(0.3)), ControlFlow::Continue(()));
    assert_eq!(rounds.terminated(), usize::MAX);
    assert_eq!(rounds.settle(3, s(0.3), s(0.3)), ControlFlow::Break(3));
    assert_eq!(rounds.terminated(), 3);
    let f = rounds.postprocess(column(&[0.25, 0.0, 0.75]));
    assert_eq!(pairs(&f.inner), vec![(0.25, 1), (0.75, 3)]);
}

#[test]
fn lpboost_weighs_by_the_absolute_value_of_the_duals() {
    let mut rounds: LPBoost<u32> = LPBoost::init();
    rounds.preprocess();
    for h in [1, 2, 3, 4] {
        let _ = rounds.settle(h, s(0.0), s(1.0));
    }
    let f = rounds.postprocess(column(&[-0.25, -0.0, 0.75, -1.0]));
    assert_eq!(pairs(&f.inner), vec![(0.25, 1), (0.75, 3), (1.0, 4)]);
    assert!(f.inner.iter().all(|(w, _)| f64::from_bits(w.to_bits()) > 0.0));
    let again = rounds.postprocess(column(&[-0.25, -0.0, 0.75, -1.0]));
    assert_eq!(pairs(&again.inner), pairs(&f.inner));
}

#[test]
fn postprocess_leaves_the_booster_as_it_was() {
    let mut ada: AdaBoost<u32> = AdaBoost::init();
    ada.preprocess(10);
    ada.append(s(0.5), 1);
    ada.append(s(-0.25), 2);
    let first = ada.postprocess();
    assert_eq!(pairs(&first.inner), vec![(0.5, 1), (-0.25, 2)]);
    assert_eq!(pairs(ada.weighted_classifiers()), vec![(0.5, 1), (-0.25, 2)]);
    assert_eq!(pairs(&ada.postprocess().inner), pairs(&first.inner));
    assert_eq!(ada.begin(10), ControlFlow::Continue(()));

    let mut adav: AdaBoostV<u32> = AdaBoostV::init();
    adav.preprocess(10);
    adav.append(s(0.5), 1);
    adav.append(s(0.0), 2);
    assert_eq!(pairs(&adav.postprocess().inner), vec![(0.5, 1)]);
    assert_eq!(adav.classifiers(), &vec![1, 2]);
    assert_eq!(adav.weights().len(), 2);

    let mut gbm: GBM<u32> = GBM::init();
    gbm.preprocess();
    let _ = gbm.settle(1, 5, s(2.0));
    assert_eq!(pairs(&gbm.postprocess().inner), vec![(2.0, 5)]);
    assert_eq!(pairs(&gbm.postprocess().inner), vec![(2.0, 5)]);

    let mut smooth: SmoothBoost<u32> = SmoothBoost::init();
    smooth.preprocess(3);
    smooth.append(4);
    let _ = smooth.postprocess(s(1.0));
    assert_eq!(smooth.classifiers(), &vec![4]);

    let mut soft: SoftBoost<u32> = SoftBoost::init();
    soft.preprocess(3);
    soft.append(4);
    assert_eq!(pairs(&soft.postprocess(column(&[0.5])).inner), vec![(0.5, 4)]);
    assert_eq!(pairs(&soft.postprocess(column(&[0.5])).inner), vec![(0.5, 4)]);

    let mut erlp: ERLPBoost<u32> = ERLPBoost::init();
    erlp.preprocess(3);
    let _ = erlp.settle(1, 4, s(1.0), s(0.1));
    assert_eq!(pairs(&erlp.postprocess(column(&[1.0])).inner), vec![(1.0, 4)]);
    assert_eq!(pairs(&erlp.postprocess(column(&[1.0])).inner), vec![(1.0, 4)]);

    let mut cerlp: CERLPBoost<u32> = CERLPBoost::init();
    cerlp.preprocess(3);
    cerlp.update_clf_weight_mut(10, &Vec::new(), &Vec::new(), s(1.0));
    assert_eq!(pairs(&cerlp.postprocess().inner), vec![(1.0, 10)]);
    assert_eq!(cerlp.classifiers().len(), 1);

    let mut mlp: MLPBoost<u32> = MLPBoost::init();
    mlp.preprocess(3);
    assert_eq!(mlp.start(1, 7), None);
    assert_eq!(pairs(&mlp.postprocess().inner), vec![(1.0, 7)]);
    assert_eq!(mlp.classifiers(), &vec![7]);
    assert_eq!(mlp.weights().len(), 1);
}

#[test]
fn softboost_inner_loop_stops_on_a_short_step() {
    assert!(miniboosts::booster::softboost::is_settled(s(1e-7), s(1e-6)));
    assert!(!miniboosts::booster::softboost::is_settled(s(1e-6), s(1e-6)));
    assert!(!miniboosts::booster::softboost::is_settled(s(1e-5), s(1e-6)));
    assert!(!miniboosts::booster::softboost::is_settled(s(f64::NAN), s(1e-6)));
}

#[test]
fn softboost_ends_when_the_distribution_is_exhausted() {
    let mut rounds: SoftBoost<u32> = SoftBoost::init();
    rounds.preprocess(7);
    assert_eq!(rounds.terminated(), 7);
    assert_eq!(rounds.begin(7), ControlFlow::Continue(()));
    assert_eq!(rounds.begin(8), ControlFlow::Break(8));
    rounds.append(1);
    let dist = column(&[0.5, 0.25, 0.25]);
    assert_eq!(rounds.settle(1, Outcome::Solved, &dist), ControlFlow::Continue(()));
    assert_eq!(rounds.terminated(), 7);
    rounds.append(2);
    assert_eq!(rounds.settle(2, Outcome::Solved, &column(&[0.5, 0.0, 0.5])), ControlFlow::Break(2));
    assert_eq!(rounds.terminated(), 2);
    assert_eq!(rounds.settle(3, Outcome::Converged, &dist), ControlFlow::Break(3));
    assert_eq!(rounds.terminated(), 3);
    let f = rounds.postprocess(column(&[0.0, 1.0]));
    assert_eq!(pairs(&f.inner), vec![(1.0, 2)]);
}

#[test]
fn erlpboost_drops_the_hypothesis_of_the_last_round() {
    let mut rounds: ERLPBoost<u32> = ERLPBoost::init();
    assert_eq!(rounds.terminated(), 0);
    rounds.preprocess(9);
    assert_eq!(rounds.begin(9), ControlFlow::Continue(()));
    assert_eq!(rounds.begin(10), ControlFlow::Break(10));
    assert_eq!(rounds.settle(1, 1, s(2.0), s(0.05)), ControlFlow::Continue(()));
    assert_eq!(rounds.settle(2, 2, s(0.06), s(0.05)), ControlFlow::Continue(()));
    assert_eq!(rounds.settle(3, 3, s(0.05), s(0.05)), ControlFlow::Break(3));
    assert_eq!(rounds.terminated(), 3);
    let f = rounds.postprocess(column(&[0.5, 0.5, 0.5]));
    assert_eq!(pairs(&f.inner), vec![(0.5, 1), (0.5, 2)]);
}

#[test]
fn erlpboost_inner_loop_stops_on_zero_or_small_decrease() {
    let dist = column(&[0.5, 0.5]);
    assert!(!is_settled(&dist, s(1e-3), s(1e-9)));
    assert!(is_settled(&dist, s(1e-10), s(1e-9)));
    assert!(is_settled(&dist, s(-1.0), s(1e-9)));
    assert!(!is_settled(&dist, s(1e-9), s(1e-9)));
    assert!(is_settled(&column(&[1.0, 0.0]), s(1.0), s(1e-9)));
    assert!(!is_settled(&dist, s(f64::NAN), s(1e-9)));
}

#[test]
fn cerlpboost_moves_the_weights_towards_a_hypothesis() {
    let mut rounds: CERLPBoost<u32> = CERLPBoost::init();
    rounds.preprocess(4);
    assert_eq!(rounds.terminated(), 4);
    assert_eq!(rounds.begin(5), ControlFlow::Break(5));
    assert_eq!(rounds.settle(1, s(0.5), s(0.1)), ControlFlow::Continue(()));
    rounds.update_clf_weight_mut(10, &Vec::new(), &Vec::new(), s(1.0));
    rounds.update_clf_weight_mut(20, &column(&[1.5]), &column(&[0.5]), s(0.5));
    rounds.update_clf_weight_mut(10, &column(&[0.75, 0.6]), &column(&[0.25, 0.1]), s(0.25));
    let list: Vec<(u32, f64)> = rounds.classifiers().iter().map(|(h, w)| (*h, f(*w))).collect();
    assert_eq!(list, vec![(10, 0.75), (20, 0.1)]);
    rounds.update_clf_weight_mut(30, &column(&[9.0, 9.0]), &column(&[0.0, 0.05]), s(0.9));
    assert_eq!(rounds.settle(4, s(0.1), s(0.1)), ControlFlow::Break(4));
    assert_eq!(rounds.terminated(), 4);
    assert_eq!(pairs(&rounds.postprocess().inner), vec![(0.05, 20), (0.9, 30)]);
}

#[test]
fn mlpboost_keeps_the_better_weights() {
    let prim = column(&[0.25, 0.75]);
    let seco = column(&[1.0, 0.0]);
    let kept = |a: f64, b: f64| -> Vec<f64> {
        better_weight(prim.clone(), seco.clone(), s(a), s(b)).into_iter().map(f).collect()
    };
    assert_eq!(kept(0.3, 0.2), vec![0.25, 0.75]);
    assert_eq!(kept(0.2, 0.2), vec![0.25, 0.75]);
    assert_eq!(kept(0.1, 0.2), vec![1.0, 0.0]);
    assert_eq!(kept(f64::NAN, 0.2), vec![1.0, 0.0]);
    assert_eq!(kept(0.1, f64::NAN), vec![1.0, 0.0]);
}

#[test]
fn mlpboost_places_hypotheses() {
    let mut rounds: MLPBoost<u32> = MLPBoost::init();
    rounds.preprocess(50);
    assert_eq!(rounds.begin(50), ControlFlow::Continue(()));
    assert_eq!(rounds.begin(51), ControlFlow::Break(51));
    assert_eq!(rounds.start(1, 7), None);
    assert_eq!(rounds.start(2, 9), Some(9));
    assert_eq!(rounds.weights().iter().map(|w| f(*w)).collect::<Vec<_>>(), vec![1.0]);
    assert_eq!(rounds.settle(2, s(0.5), s(0.01)), ControlFlow::Continue(()));
    assert_eq!(rounds.place(8), (1, true));
    assert_eq!(rounds.place(7), (0, false));
    assert_eq!(rounds.classifiers(), &vec![7, 8]);
    assert_eq!(rounds.weights().iter().map(|w| f(*w)).collect::<Vec<_>>(), vec![1.0, 0.0]);
    rounds.keep_better(column(&[0.5, 0.5]), column(&[0.0, 1.0]), s(0.1), s(0.2));
    assert_eq!(rounds.weights().iter().map(|w| f(*w)).collect::<Vec<_>>(), vec![0.0, 1.0]);
    assert_eq!(rounds.settle(3, s(0.01), s(0.01)), ControlFlow::Break(3));
    assert_eq!(rounds.terminated(), 3);
    assert_eq!(pairs(&rounds.postprocess().inner), vec![(1.0, 8)]);
}

#[test]
fn sample_must_have_a_row() {
    assert_eq!(check_sample(0), Err(ConfigError::EmptySample));
    assert_eq!(check_sample(1), Ok(()));
}

#[test]
fn tolerance_lies_between_zero_and_a_half() {
    assert_eq!(check_tolerance(s(0.1)), Ok(()));
    assert_eq!(check_tolerance(s(5e-324)), Ok(()));
    assert_eq!(check_tolerance(s(0.49999999999999994)), Ok(()));
    for bad in [0.0, -0.0, -0.1, 0.5, 1.0, f64::NAN, f64::INFINITY] {
        assert_eq!(check_tolerance(s(bad)), Err(ConfigError::Tolerance));
    }
}

#[test]
fn nu_lies_between_one_and_the_number_of_rows() {
    assert_eq!(check_nu(s(1.0), 10), Ok(()));
    assert_eq!(check_nu(s(10.0), 10), Ok(()));
    assert_eq!(check_nu(s(3.5), 10), Ok(()));
    assert_eq!(check_nu(s(1.0), 1), Ok(()));
    for bad in [0.9999999999999999, 10.000000000000002, 0.0, -1.0, f64::NAN, f64::INFINITY] {
        assert_eq!(check_nu(s(bad), 10), Err(ConfigError::Nu));
    }
    assert_eq!(check_nu(s(1.0), 0), Err(ConfigError::Nu));
    for m in [1_usize, 2, 3, 7, 150, 1000, 1 << 20] {
        for nu in [0.5, 1.0, 1.5, 2.0, 6.999, 7.0, 7.001, 150.0, 999.5, 1048576.0, 1048576.5] {
            assert_eq!(check_nu(s(nu), m).is_ok(), (1.0..=m as f64).contains(&nu));
        }
    }
}

#[test]
fn a_number_is_compared_with_a_count_exactly() {
    let counts = [0_usize, 1, 2, 3, 1000, (1 << 52) - 1, 1 << 52, (1 << 53) - 1];
    let numbers = [
        0.0,
        -0.0,
        5e-324,
        1e-300,
        0.5,
        1.0,
        1.5,
        2.0,
        2.5,
        999.999,
        1000.0,
        1000.0000000000001,
        4503599627370495.5,
        4503599627370496.0,
        9007199254740991.0,
        9007199254740992.0,
        1e300,
        -3.0,
        -1e300,
        f64::NEG_INFINITY,
        f64::INFINITY,
        f64::NAN,
    ];
    for m in counts {
        for x in numbers {
            assert_eq!(s(x).at_most_count(m), x <= m as f64);
        }
    }
    let above = (1_usize << 53) + 3;
    assert!(s(9007199254740992.0).at_most_count(above));
    assert!(s(9007199254740994.0).at_most_count(above));
    assert!(!s(9007199254740996.0).at_most_count(above));
    assert!(9007199254740996.0 <= above as f64);
    assert!(s(18446744073709549568.0).at_most_count(usize::MAX));
    assert!(!s(18446744073709551616.0).at_most_count(usize::MAX));
}

#[test]
fn smooth_parameters_lie_in_their_ranges() {
    let theta = |gamma: f64| gamma / (2.0 + gamma);
    assert_eq!(check_smooth(s(0.1), s(0.1), s(theta(0.1))), Ok(()));
    assert_eq!(check_smooth(s(0.5), s(0.2), s(0.2)), Ok(()));
    for bad in [0.0, 1.0, -0.5, f64::NAN] {
        assert_eq!(check_smooth(s(bad), s(0.1), s(theta(0.1))), Err(ConfigError::Kappa));
    }
    assert_eq!(check_smooth(s(0.1), s(0.5), s(theta(0.5))), Err(ConfigError::Gamma));
    assert_eq!(check_smooth(s(0.1), s(0.1), s(0.2)), Err(ConfigError::Gamma));
    assert_eq!(check_smooth(s(0.1), s(f64::NAN), s(0.1)), Err(ConfigError::Gamma));
    assert_eq!(check_smooth(s(2.0), s(0.9), s(0.1)), Err(ConfigError::Kappa));
}
