use ruscikit::{Dataset, Error, Matrix, Parameter};

fn table(rows: usize) -> Matrix<f64> {
    let mut cells = Vec::new();
    for i in 0..rows {
        cells.push(vec![i as f64, (i * i) as f64]);
    }
    Matrix::from_rows(cells, 2).unwrap()
}

fn dataset(rows: usize) -> Dataset<f64> {
    let targets = (0..rows).map(|i| 10.0 * i as f64).collect();
    Dataset::new(table(rows), Some(targets))
}

#[test]
fn dataset_new_has_no_labels() {
    let d = dataset(4);
    assert_eq!(d.n_samples(), 4);
    assert_eq!(d.n_features(), 2);
    assert_eq!(d.features().rows(), table(4).rows());
    assert_eq!(d.targets(), Some(&vec![0.0, 10.0, 20.0, 30.0]));
    assert_eq!(d.get_feature_names(), None);
    assert_eq!(d.get_target_name(), None);
}

#[test]
fn dataset_without_targets() {
    let d = Dataset::new(table(3), None);
    assert_eq!(d.targets(), None);
    assert_eq!(d.n_samples(), 3);
}

#[test]
fn dataset_set_feature_names_needs_one_name_for_each_feature() {
    let mut d = dataset(3);
    let one = d.set_feature_names(vec!["a".to_string()]);
    assert_eq!(
        one,
        Err(Error::InvalidParameter(Parameter::FeatureNames { names: 1, features: 2 }))
    );
    assert_eq!(d.get_feature_names(), None);
    let three = d.set_feature_names(vec!["a".to_string(), "b".to_string(), "c".to_string()]);
    assert_eq!(
        three,
        Err(Error::InvalidParameter(Parameter::FeatureNames { names: 3, features: 2 }))
    );
    assert_eq!(d.set_feature_names(vec!["a".to_string(), "b".to_string()]), Ok(()));
    assert_eq!(d.get_feature_names(), Some(&vec!["a".to_string(), "b".to_string()]));
    // a refused list leaves the names that were set
    assert!(d.set_feature_names(Vec::new()).is_err());
    assert_eq!(d.get_feature_names(), Some(&vec!["a".to_string(), "b".to_string()]));
}

#[test]
fn dataset_set_target_name() {
    let mut d = dataset(3);
    d.set_target_name("price".to_string());
    assert_eq!(d.get_target_name(), Some(&"price".to_string()));
    d.set_target_name("cost".to_string());
    assert_eq!(d.get_target_name(), Some(&"cost".to_string()));
}

#[test]
fn dataset_set_features_checks_the_rows_against_the_targets() {
    let mut d = dataset(3);
    assert_eq!(
        d.set_features(table(4)),
        Err(Error::DimensionMismatch { expected: 3, actual: 4 })
    );
    assert_eq!(d.n_samples(), 3);
    let other = Matrix::from_rows(vec![vec![9.0], vec![8.0], vec![7.0]], 1).unwrap();
    assert_eq!(d.set_features(other), Ok(()));
    assert_eq!(d.n_features(), 1);
    assert_eq!(d.features().get(2, 0), 7.0);
    assert_eq!(d.targets(), Some(&vec![0.0, 10.0, 20.0]));
}

#[test]
fn dataset_set_features_checks_the_columns_against_the_names() {
    let mut d = Dataset::new(table(3), None);
    d.set_feature_names(vec!["a".to_string(), "b".to_string()]).unwrap();
    let narrow = Matrix::from_rows(vec![vec![9.0], vec![8.0]], 1).unwrap();
    assert_eq!(
        d.set_features(narrow),
        Err(Error::DimensionMismatch { expected: 2, actual: 1 })
    );
    assert_eq!(d.n_samples(), 3);
    // without targets the number of rows is free
    assert_eq!(d.set_features(table(5)), Ok(()));
    assert_eq!(d.n_samples(), 5);
}

#[test]
fn dataset_select_samples_copies_rows_targets_and_labels() {
    let mut d = dataset(5);
    d.set_feature_names(vec!["x".to_string(), "x2".to_string()]).unwrap();
    d.set_target_name("y".to_string());
    let picked = d.select_samples(&vec![4, 1, 1]);
    assert_eq!(picked.n_samples(), 3);
    assert_eq!(
        picked.features().rows(),
        &vec![vec![4.0, 16.0], vec![1.0, 1.0], vec![1.0, 1.0]]
    );
    assert_eq!(picked.targets(), Some(&vec![40.0, 10.0, 10.0]));
    assert_eq!(picked.get_feature_names(), d.get_feature_names());
    assert_eq!(picked.get_target_name(), d.get_target_name());
    // the dataset that was selected from is untouched
    assert_eq!(d.n_samples(), 5);
}

#[test]
fn dataset_select_samples_without_targets() {
    let d = Dataset::new(table(3), None);
    let picked = d.select_samples(&vec![2]);
    assert_eq!(picked.targets(), None);
    assert_eq!(picked.features().rows(), &vec![vec![2.0, 4.0]]);
}

#[test]
fn dataset_clone_holds_the_same() {
    let mut d = dataset(3);
    d.set_target_name("y".to_string());
    let copy = d.clone();
    assert_eq!(copy.features().rows(), d.features().rows());
    assert_eq!(copy.targets(), d.targets());
    assert_eq!(copy.get_target_name(), d.get_target_name());
}
