use miniboosts::sample::feature::feature_name;
use miniboosts::sample::feature::DenseFeature;
use miniboosts::sample::feature::Feature;
use miniboosts::sample::feature::SparseFeature;
use miniboosts::sample::Sample;
use miniboosts::sample::SampleError;
use miniboosts::scalar::Scalar;

fn s(x: f64) -> Scalar {
    Scalar::from_bits(x.to_bits())
}

fn f(x: Scalar) -> f64 {
    f64::from_bits(x.to_bits())
}

fn column(values: &[f64]) -> Vec<Scalar> {
    values.iter().map(|x| s(*x)).collect()
}

fn floats(values: &[Scalar]) -> Vec<f64> {
    values.iter().map(|x| f(*x)).collect()
}

fn dense(name: &str, values: &[f64]) -> Feature {
    Feature::Dense(DenseFeature { name: name.to_string(), sample: column(values) })
}

fn sparse(name: &str, entries: &[(usize, f64)], n_sample: usize) -> Feature {
    Feature::Sparse(SparseFeature {
        name: name.to_string(),
        sample: entries.iter().map(|(i, x)| (*i, s(*x))).collect(),
        n_sample,
    })
}

fn toy() -> Sample {
    Sample::new(
        vec![
            dense("a", &[1.2, 0.1, -21.0]),
            dense("b", &[0.5, 0.2, 2.0]),
            dense("class", &[1.0, -1.0, 1.0]),
            sparse("d", &[(0, 2.0), (2, 7.1)], 3),
        ],
        column(&[0.0, 0.0, 0.0]),
    )
    .unwrap()
}

fn names(sample: &Sample) -> Vec<String> {
    sample.features().iter().map(|feature| feature.name().clone()).collect()
}

#[test]
fn new_keeps_columns_and_target() {
    let sample = toy();
    assert_eq!(sample.shape(), (3, 4));
    assert_eq!(floats(sample.target()), vec![0.0, 0.0, 0.0]);
    assert_eq!(names(&sample), vec!["a", "b", "class", "d"]);
}

#[test]
fn new_rejects_first_misfit() {
    let r = Sample::new(
        vec![dense("a", &[1.0, 2.0]), dense("b", &[1.0]), dense("c", &[])],
        column(&[1.0, -1.0]),
    );
    assert_eq!(r.err(), Some(SampleError::Column(1)));
    let r = Sample::new(vec![sparse("a", &[(2, 1.0)], 2)], column(&[1.0, -1.0]));
    assert_eq!(r.err(), Some(SampleError::Column(0)));
    let r = Sample::new(vec![sparse("a", &[(1, 1.0)], 3)], column(&[1.0, -1.0]));
    assert_eq!(r.err(), Some(SampleError::Column(0)));
    assert!(Sample::new(vec![sparse("a", &[(1, 1.0)], 2)], column(&[1.0, -1.0])).is_ok());
}

#[test]
fn at_reads_a_row() {
    let sample = toy().set_target("class").unwrap();
    let (x, y) = sample.at(0);
    assert_eq!(floats(&x), vec![1.2, 0.5, 2.0]);
    assert_eq!(f(y), 1.0);
    let (x, y) = sample.at(1);
    assert_eq!(floats(&x), vec![0.1, 0.2, 0.0]);
    assert_eq!(f(y), -1.0);
    let (x, y) = sample.at(2);
    assert_eq!(floats(&x), vec![-21.0, 2.0, 7.1]);
    assert_eq!(f(y), 1.0);
}

#[test]
fn set_target_moves_the_column() {
    let sample = toy().set_target("class").unwrap();
    assert_eq!(sample.shape(), (3, 3));
    assert_eq!(names(&sample), vec!["a", "b", "d"]);
    assert_eq!(floats(sample.target()), vec![1.0, -1.0, 1.0]);
    assert!(sample.is_valid_binary_instance());
}

#[test]
fn set_target_takes_a_sparse_column_row_by_row() {
    let sample = toy().set_target("d").unwrap();
    assert_eq!(floats(sample.target()), vec![2.0, 0.0, 7.1]);
    assert!(!sample.is_valid_binary_instance());
}

#[test]
fn set_target_takes_the_first_of_equal_names() {
    let sample = Sample::new(
        vec![dense("y", &[1.0, 2.0]), dense("x", &[5.0, 6.0]), dense("y", &[3.0, 4.0])],
        column(&[0.0, 0.0]),
    )
    .unwrap()
    .set_target("y")
    .unwrap();
    assert_eq!(floats(sample.target()), vec![1.0, 2.0]);
    assert_eq!(names(&sample), vec!["x", "y"]);
}

#[test]
fn set_target_fails_on_a_missing_name() {
    let r = toy().set_target("label");
    assert_eq!(r.err(), Some(SampleError::MissingTarget));
}

#[test]
fn get_finds_the_last_of_equal_names() {
    let sample = Sample::new(
        vec![dense("y", &[1.0, 2.0]), dense("x", &[5.0, 6.0]), dense("y", &[3.0, 4.0])],
        column(&[0.0, 0.0]),
    )
    .unwrap();
    let found = sample.get("y").unwrap();
    assert_eq!(f(found.value_at(0)), 3.0);
    assert_eq!(f(sample.get("x").unwrap().value_at(1)), 6.0);
    assert!(sample.get("z").is_none());
}

#[test]
fn replace_names_hands_back_the_old_ones() {
    let mut sample = toy();
    let new_names: Vec<String> = vec!["p", "q", "r", "s"].into_iter().map(String::from).collect();
    let old = sample.replace_names(new_names).unwrap();
    assert_eq!(old, vec!["a", "b", "class", "d"]);
    assert_eq!(names(&sample), vec!["p", "q", "r", "s"]);
    assert_eq!(f(sample.get("s").unwrap().value_at(2)), 7.1);
    assert_eq!(sample.shape(), (3, 4));
}

#[test]
fn replace_names_rejects_a_wrong_count() {
    let mut sample = toy();
    let r = sample.replace_names(vec!["p".to_string()]);
    assert_eq!(r.err(), Some(SampleError::NameCount));
    assert_eq!(names(&sample), vec!["a", "b", "class", "d"]);
}

#[test]
fn remove_allzero_features_drops_empty_columns() {
    let mut sample = Sample::new(
        vec![
            sparse("a", &[], 2),
            sparse("b", &[(1, 3.0)], 2),
            sparse("c", &[], 2),
            dense("d", &[1.0, 2.0]),
        ],
        column(&[1.0, -1.0]),
    )
    .unwrap();
    sample.remove_allzero_features();
    assert_eq!(names(&sample), vec!["b", "d"]);
    assert_eq!(sample.shape(), (2, 2));
    assert_eq!(floats(sample.target()), vec![1.0, -1.0]);
}

#[test]
fn target_mut_writes_through() {
    let mut sample = toy();
    sample.target_mut()[1] = s(4.5);
    assert_eq!(floats(sample.target()), vec![0.0, 4.5, 0.0]);
}

#[test]
fn binary_instance_wants_plus_or_minus_one() {
    let good = Sample::new(vec![dense("a", &[1.0, 2.0])], column(&[1.0, -1.0])).unwrap();
    assert!(good.is_valid_binary_instance());
    let bad = Sample::new(vec![dense("a", &[1.0, 2.0])], column(&[1.0, 0.0])).unwrap();
    assert!(!bad.is_valid_binary_instance());
    let nan = Sample::new(vec![dense("a", &[1.0, 2.0])], column(&[1.0, f64::NAN])).unwrap();
    assert!(!nan.is_valid_binary_instance());
}

#[test]
fn feature_names_count_in_decimal() {
    assert_eq!(feature_name(0), "Feat. [0]");
    assert_eq!(feature_name(1), "Feat. [1]");
    assert_eq!(feature_name(9), "Feat. [9]");
    assert_eq!(feature_name(10), "Feat. [10]");
    assert_eq!(feature_name(12), "Feat. [12]");
    assert_eq!(feature_name(1203), "Feat. [1203]");
    assert_eq!(feature_name(usize::MAX), format!("Feat. [{}]", usize::MAX));
}

#[test]
fn sparse_feature_skips_zero_and_reads_zero() {
    let mut feature = SparseFeature::new("x".to_string());
    feature.append(0, s(0.0));
    feature.append(1, s(2.5));
    feature.append(2, s(-0.0));
    feature.append(4, s(-1.0));
    feature.n_sample = 5;
    let feature = Feature::Sparse(feature);
    assert_eq!(feature.len(), 2);
    assert_eq!(feature.len_rows(), 5);
    assert!(feature.is_sparse());
    assert!(feature.check(5));
    assert!(!feature.check(4));
    let values: Vec<f64> = (0..5).map(|row| f(feature.value_at(row))).collect();
    assert_eq!(values, vec![0.0, 2.5, 0.0, 0.0, -1.0]);
    assert_eq!(floats(&feature.into_target()), vec![0.0, 2.5, 0.0, 0.0, -1.0]);
}

#[test]
fn dense_feature_appends_in_order() {
    let mut feature = DenseFeature::new("x".to_string());
    feature.append(s(1.0));
    feature.append(s(0.0));
    let mut feature = Feature::dense(feature);
    assert_eq!(feature.len(), 2);
    assert!(!feature.is_sparse());
    assert_eq!(feature.replace_name("y".to_string()), "x");
    assert_eq!(feature.name(), "y");
    assert_eq!(floats(&feature.into_target()), vec![1.0, 0.0]);
}

#[test]
fn csv_records_with_header() {
    let header = Some(vec!["a".to_string(), " b".to_string(), "class".to_string()]);
    let records = vec![column(&[1.0, 2.0, 1.0]), column(&[3.0, 4.0, -1.0])];
    let sample = Sample::from_csv_records(header, records).unwrap();
    assert_eq!(sample.shape(), (2, 3));
    assert_eq!(names(&sample), vec!["a", " b", "class"]);
    assert!(sample.target().is_empty());
    assert!(sample.features().iter().all(|feature| !feature.is_sparse()));
    let sample = sample.set_target("class").unwrap();
    assert_eq!(sample.shape(), (2, 2));
    assert_eq!(floats(sample.target()), vec![1.0, -1.0]);
    assert_eq!(floats(&sample.at(1).0), vec![3.0, 4.0]);
}

#[test]
fn csv_records_without_header_get_numbered_names() {
    let records = vec![column(&[1.0, 2.0]), column(&[3.0, 4.0]), column(&[5.0, 6.0])];
    let sample = Sample::from_csv_records(None, records).unwrap();
    assert_eq!(sample.shape(), (3, 2));
    assert_eq!(names(&sample), vec!["Feat. [1]", "Feat. [2]"]);
    assert_eq!(f(sample.get("Feat. [2]").unwrap().value_at(2)), 6.0);
}

#[test]
fn csv_records_empty_table() {
    let sample = Sample::from_csv_records(None, Vec::new()).unwrap();
    assert_eq!(sample.shape(), (0, 0));
    let sample = Sample::from_csv_records(Some(vec!["a".to_string()]), Vec::new()).unwrap();
    assert_eq!(sample.shape(), (0, 1));
}

#[test]
fn csv_records_reject_a_ragged_record() {
    let header = Some(vec!["a".to_string(), "b".to_string()]);
    let records = vec![column(&[1.0, 2.0]), column(&[3.0]), column(&[1.0, 2.0, 3.0])];
    assert_eq!(Sample::from_csv_records(header, records).err(), Some(SampleError::Record(1)));
    let records = vec![column(&[1.0, 2.0]), column(&[3.0, 4.0]), column(&[1.0, 2.0, 3.0])];
    assert_eq!(Sample::from_csv_records(None, records).err(), Some(SampleError::Record(2)));
}

#[test]
fn svmlight_records_build_sparse_columns() {
    let records = vec![
        (s(1.0), vec![(1, s(0.5)), (3, s(2.0))]),
        (s(-1.0), vec![(3, s(-4.0))]),
        (s(1.0), vec![(1, s(0.0)), (4, s(0.0))]),
        (s(-1.0), vec![(1, s(7.0))]),
    ];
    let sample = Sample::from_svmlight_records(records).unwrap();
    assert_eq!(sample.shape(), (4, 2));
    assert_eq!(names(&sample), vec!["Feat. [2]", "Feat. [4]"]);
    assert_eq!(floats(sample.target()), vec![1.0, -1.0, 1.0, -1.0]);
    assert!(sample.features().iter().all(|feature| feature.is_sparse()));
    assert_eq!(sample.features()[0].len(), 2);
    assert_eq!(sample.features()[1].len(), 2);
    assert_eq!(floats(&sample.at(0).0), vec![0.5, 2.0]);
    assert_eq!(floats(&sample.at(1).0), vec![0.0, -4.0]);
    assert_eq!(floats(&sample.at(2).0), vec![0.0, 0.0]);
    assert_eq!(floats(&sample.at(3).0), vec![7.0, 0.0]);
}

#[test]
fn svmlight_records_empty_table() {
    let sample = Sample::from_svmlight_records(Vec::new()).unwrap();
    assert_eq!(sample.shape(), (0, 0));
    let sample = Sample::from_svmlight_records(vec![(s(1.0), Vec::new())]).unwrap();
    assert_eq!(sample.shape(), (1, 0));
    assert_eq!(floats(sample.target()), vec![1.0]);
}

#[test]
fn svmlight_records_reject_the_largest_index() {
    let records = vec![
        (s(1.0), vec![(0, s(0.5))]),
        (s(-1.0), vec![(1, s(1.0)), (usize::MAX, s(-4.0))]),
    ];
    assert_eq!(Sample::from_svmlight_records(records).err(), Some(SampleError::Index(1)));
}
