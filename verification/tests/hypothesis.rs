use miniboosts::hypothesis::position;
use miniboosts::hypothesis::Classifier;
use miniboosts::hypothesis::CombinedHypothesis;
use miniboosts::hypothesis::NaiveAggregation;
use miniboosts::hypothesis::Regressor;
use miniboosts::sample::feature::DenseFeature;
use miniboosts::sample::feature::Feature;
use miniboosts::sample::Sample;
use miniboosts::scalar::Scalar;

fn s(x: f64) -> Scalar {
    Scalar::from_bits(x.to_bits())
}

fn f(x: Scalar) -> f64 {
    f64::from_bits(x.to_bits())
}

fn sample(values: &[f64]) -> Sample {
    let column: Vec<Scalar> = values.iter().map(|x| s(*x)).collect();
    let target: Vec<Scalar> = values.iter().map(|_| s(1.0)).collect();
    Sample::new(vec![Feature::Dense(DenseFeature { name: "x".to_string(), sample: column })], target)
        .unwrap()
}

/// Confidence: the value of the first feature minus a threshold.
#[derive(Clone, Debug, PartialEq)]
struct Shift(f64);

impl Classifier for Shift {
    fn confidence(&self, sample: &Sample, row: usize) -> Scalar {
        s(f(sample.features()[0].value_at(row)) - self.0)
    }
}

impl Regressor for Shift {
    fn predict(&self, sample: &Sample, row: usize) -> Scalar {
        s(f(sample.features()[0].value_at(row)) * self.0)
    }
}

#[test]
fn predict_is_the_sign_of_the_confidence() {
    let data = sample(&[2.0, -3.0, 0.0, -0.0, f64::NAN, f64::INFINITY]);
    let h = Shift(0.0);
    let got: Vec<i64> = (0..6).map(|row| Classifier::predict(&h, &data, row)).collect();
    assert_eq!(got, vec![1, -1, 1, -1, 0, 1]);
    assert_eq!(Classifier::predict_all(&h, &data), vec![1, -1, 1, -1, 0, 1]);
    let confidences: Vec<f64> = h.confidence_all(&data).into_iter().map(f).collect();
    assert_eq!(confidences[..4], [2.0, -3.0, 0.0, -0.0]);
    assert!(confidences[4].is_nan());
}

#[test]
fn regressor_predicts_every_row() {
    let data = sample(&[2.0, -3.0, 0.5]);
    let h = Shift(2.0);
    let got: Vec<f64> = Regressor::predict_all(&h, &data).into_iter().map(f).collect();
    assert_eq!(got, vec![4.0, -6.0, 1.0]);
}

#[test]
fn naive_aggregation_takes_the_majority() {
    let data = sample(&[0.0, 1.0, 2.0, 3.0]);
    let agg = NaiveAggregation::new(vec![Shift(0.5), Shift(1.5), Shift(2.5)]);
    assert_eq!(agg.votes(&data, 0), -3);
    assert_eq!(agg.votes(&data, 1), -1);
    assert_eq!(agg.votes(&data, 2), 1);
    assert_eq!(agg.votes(&data, 3), 3);
    assert_eq!(agg.predict_all(&data), vec![-1, -1, 1, 1]);
    assert_eq!(f(agg.confidence(&data, 0)), -1.0);
    assert_eq!(f(agg.confidence(&data, 3)), 1.0);
}

#[test]
fn naive_aggregation_breaks_a_tie_upwards() {
    let data = sample(&[1.0]);
    let agg = NaiveAggregation::new(vec![Shift(0.5), Shift(1.5)]);
    assert_eq!(agg.votes(&data, 0), 0);
    assert_eq!(agg.predict(&data, 0), 1);
    let empty: NaiveAggregation<Shift> = NaiveAggregation::new(Vec::new());
    assert_eq!(empty.votes(&data, 0), 0);
    assert_eq!(empty.predict(&data, 0), 1);
}

#[test]
fn single_hypothesis_votes_for_itself() {
    let data = sample(&[0.0, 1.0, 2.0, -5.0]);
    let h = Shift(0.5);
    let agg = NaiveAggregation::new(vec![h.clone()]);
    for row in 0..4 {
        assert_eq!(agg.predict(&data, row), Classifier::predict(&h, &data, row));
    }
}

#[test]
fn combined_hypothesis_from_pairs() {
    let combined = CombinedHypothesis::from(vec![(s(0.5), Shift(1.0)), (s(0.0), Shift(2.0))]);
    assert_eq!(combined.inner.len(), 2);
    assert_eq!(combined.constant.to_bits(), 0.0_f64.to_bits());
    let combined = combined.constant(s(-2.5));
    assert_eq!(f(combined.constant), -2.5);
    assert_eq!(combined.inner.len(), 2);
    assert_eq!(combined.inner[1].1, Shift(2.0));
}

#[test]
fn from_weights_drops_zero_weights() {
    let weights = vec![s(0.5), s(0.0), s(-0.25), s(-0.0), s(f64::NAN), s(1.0)];
    let hypotheses: Vec<Shift> = (0..6).map(|k| Shift(k as f64)).collect();
    let combined = CombinedHypothesis::from_weights(weights, hypotheses);
    let kept: Vec<f64> = combined.inner.iter().map(|(_, h)| h.0).collect();
    assert_eq!(kept, vec![0.0, 2.0, 4.0, 5.0]);
    assert_eq!(f(combined.inner[0].0), 0.5);
    assert_eq!(f(combined.inner[1].0), -0.25);
    assert!(f(combined.inner[2].0).is_nan());
    assert_eq!(combined.constant.to_bits(), 0);
}

#[test]
fn from_weights_stops_at_the_shorter_list() {
    let combined =
        CombinedHypothesis::from_weights(vec![s(1.0)], vec![Shift(1.0), Shift(2.0), Shift(3.0)]);
    assert_eq!(combined.inner.len(), 1);
    let combined = CombinedHypothesis::from_weights(vec![s(1.0), s(2.0), s(3.0)], vec![Shift(1.0)]);
    assert_eq!(combined.inner.len(), 1);
    let combined = CombinedHypothesis::<Shift>::from_weights(vec![s(1.0)], Vec::new());
    assert!(combined.inner.is_empty());
}

#[test]
fn from_positive_weights_keeps_what_is_above_zero() {
    let weights = vec![s(0.5), s(0.0), s(-0.25), s(f64::NAN), s(f64::INFINITY), s(5e-324)];
    let hypotheses: Vec<Shift> = (0..6).map(|k| Shift(k as f64)).collect();
    let combined = CombinedHypothesis::from_positive_weights(weights, hypotheses);
    let kept: Vec<f64> = combined.inner.iter().map(|(_, h)| h.0).collect();
    assert_eq!(kept, vec![0.0, 4.0, 5.0]);
}

#[test]
fn uniform_gives_every_hypothesis_the_weight() {
    let combined = CombinedHypothesis::uniform(s(0.25), vec![Shift(1.0), Shift(2.0)]);
    let weights: Vec<f64> = combined.inner.iter().map(|(w, _)| f(*w)).collect();
    assert_eq!(weights, vec![0.25, 0.25]);
    assert_eq!(combined.inner[1].1, Shift(2.0));
}

#[test]
fn position_finds_the_first_equal() {
    let list = vec![Shift(1.0), Shift(2.0), Shift(1.0)];
    assert_eq!(position(&list, &Shift(1.0)), 0);
    assert_eq!(position(&list, &Shift(2.0)), 1);
    assert_eq!(position(&list, &Shift(3.0)), 3);
    assert_eq!(position(&Vec::new(), &Shift(3.0)), 0);
}
