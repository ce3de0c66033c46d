use ruscikit::model::check_predictions;
use ruscikit::preprocessing::check_scaled;
use ruscikit::{Dataset, Error, Estimator, LinearRegression, Matrix, ModelParameters, ParamValue, StandardScaler};

/// Solves the normal equations of a design matrix by elimination with
/// partial pivoting.
fn solve(design: &Matrix<f64>, targets: &Vec<f64>) -> Option<Vec<f64>> {
    let n = design.nrows();
    let m = design.ncols();
    let mut a = vec![vec![0.0; m + 1]; m];
    for i in 0..m {
        for j in 0..m {
            for r in 0..n {
                a[i][j] += design.get(r, i) * design.get(r, j);
            }
        }
        for r in 0..n {
            a[i][m] += design.get(r, i) * targets[r];
        }
    }
    for col in 0..m {
        let mut pivot = col;
        for row in col + 1..m {
            if a[row][col].abs() > a[pivot][col].abs() {
                pivot = row;
            }
        }
        if a[pivot][col].abs() < 1e-12 {
            return None;
        }
        a.swap(col, pivot);
        for row in 0..m {
            if row != col {
                let factor = a[row][col] / a[col][col];
                for k in col..=m {
                    a[row][k] -= factor * a[col][k];
                }
            }
        }
    }
    Some((0..m).map(|i| a[i][m] / a[i][i]).collect())
}

fn affine(features: &Matrix<f64>, coefficients: &Vec<f64>, intercept: f64) -> Vec<f64> {
    features
        .rows()
        .iter()
        .map(|row| row.iter().zip(coefficients).map(|(x, c)| x * c).sum::<f64>() + intercept)
        .collect()
}

fn statistics(x: &Matrix<f64>) -> (Vec<f64>, Vec<f64>) {
    let n = x.nrows() as f64;
    let mut mean = Vec::new();
    let mut std = Vec::new();
    for j in 0..x.ncols() {
        let m = x.rows().iter().map(|r| r[j]).sum::<f64>() / n;
        let v = x.rows().iter().map(|r| (r[j] - m) * (r[j] - m)).sum::<f64>() / n;
        mean.push(m);
        std.push(v.sqrt());
    }
    (mean, std)
}

fn scale(x: &Matrix<f64>, mean: &Vec<f64>, std: &Vec<f64>) -> Matrix<f64> {
    let rows = x
        .rows()
        .iter()
        .map(|r| r.iter().enumerate().map(|(j, c)| (c - mean[j]) / std[j]).collect())
        .collect();
    Matrix::from_rows(rows, x.ncols()).unwrap()
}

fn close(a: f64, b: f64) -> bool {
    (a - b).abs() < 1e-9
}

fn plane() -> Dataset<f64> {
    let features = Matrix::from_rows(
        vec![vec![1.0, 1.0], vec![1.0, 2.0], vec![2.0, 2.0], vec![2.0, 3.0]],
        2,
    )
    .unwrap();
    Dataset::new(features, Some(vec![6.0, 8.0, 9.0, 11.0]))
}

#[test]
fn linear_regression_starts_unfitted() {
    let model = LinearRegression::new(1.0, solve, affine);
    assert_eq!(model.coefficients(), None);
    assert_eq!(model.intercept(), None);
    assert!(model.get_params().get("fit_intercept").is_none());
}

#[test]
fn linear_regression_predict_before_fit_is_not_fitted() {
    let model = LinearRegression::new(1.0, solve, affine);
    let features = Matrix::from_rows(vec![vec![1.0, 2.0]], 2).unwrap();
    assert_eq!(model.predict(&features), Err(Error::NotFitted));
}

#[test]
fn linear_regression_fit_without_targets_is_missing_target() {
    let mut model = LinearRegression::new(1.0, solve, affine);
    let d = Dataset::new(Matrix::from_rows(vec![vec![1.0], vec![2.0]], 1).unwrap(), None);
    assert_eq!(model.fit(&d), Err(Error::MissingTarget));
    assert_eq!(model.coefficients(), None);
    assert_eq!(model.intercept(), None);
}

#[test]
fn linear_regression_hands_the_design_matrix_to_the_solver() {
    let seen = std::cell::RefCell::new(Vec::new());
    let recording = |design: &Matrix<f64>, targets: &Vec<f64>| {
        seen.borrow_mut().push((design.rows().clone(), targets.clone()));
        Some(vec![0.5, 1.5, 2.5])
    };
    let mut model = LinearRegression::new(1.0, recording, affine);
    let result = model.fit(&plane());
    assert_eq!(result, Ok(()));
    let seen = seen.borrow().clone();
    assert_eq!(seen.len(), 1);
    assert_eq!(
        seen[0].0,
        vec![vec![1.0, 1.0, 1.0], vec![1.0, 1.0, 2.0], vec![1.0, 2.0, 2.0], vec![1.0, 2.0, 3.0]]
    );
    assert_eq!(seen[0].1, vec![6.0, 8.0, 9.0, 11.0]);
    // the first component is the intercept, the others the coefficients
    assert_eq!(model.intercept(), Some(0.5));
    assert_eq!(model.coefficients(), Some(&vec![1.5, 2.5]));
}

#[test]
fn linear_regression_recovers_a_plane() {
    // the targets are x1 + 2 x2 + 3
    let mut model = LinearRegression::new(1.0, solve, affine);
    let d = plane();
    assert_eq!(model.fit(&d), Ok(()));
    let coefficients = model.coefficients().unwrap();
    assert_eq!(coefficients.len(), 2);
    assert!(close(coefficients[0], 1.0));
    assert!(close(coefficients[1], 2.0));
    assert!(close(model.intercept().unwrap(), 3.0));
    let predictions = model.predict(d.features()).unwrap();
    for (p, y) in predictions.iter().zip(d.targets().unwrap()) {
        assert!(close(*p, *y));
    }
    let other = Matrix::from_rows(vec![vec![3.0, 5.0]], 2).unwrap();
    assert!(close(model.predict(&other).unwrap()[0], 16.0));
}

#[test]
fn linear_regression_recovers_two_equal_slopes() {
    // y = 2 x1 + 2 x2
    let features = Matrix::from_rows(
        vec![vec![1.0, 1.0], vec![1.0, 2.0], vec![2.0, 2.0], vec![2.0, 3.0], vec![3.0, 1.0]],
        2,
    )
    .unwrap();
    let d = Dataset::new(features, Some(vec![4.0, 6.0, 8.0, 10.0, 8.0]));
    let mut model = LinearRegression::new(1.0, solve, affine);
    assert_eq!(model.fit(&d), Ok(()));
    let coefficients = model.coefficients().unwrap();
    assert!(close(coefficients[0], 2.0));
    assert!(close(coefficients[1], 2.0));
    assert!(close(model.intercept().unwrap(), 0.0));
}

#[test]
fn linear_regression_singular_system() {
    // two identical columns: the normal equations have no single solution
    let features = Matrix::from_rows(vec![vec![1.0, 1.0], vec![2.0, 2.0], vec![3.0, 3.0]], 2).unwrap();
    let d = Dataset::new(features, Some(vec![1.0, 2.0, 3.0]));
    let mut model = LinearRegression::new(1.0, solve, affine);
    assert_eq!(model.fit(&d), Err(Error::SingularSystem));
    assert_eq!(model.coefficients(), None);
    // a failed fit leaves an earlier fit in place
    assert_eq!(model.fit(&plane()), Ok(()));
    let kept = model.coefficients().unwrap().clone();
    assert_eq!(model.fit(&d), Err(Error::SingularSystem));
    assert_eq!(model.coefficients(), Some(&kept));
}

#[test]
fn linear_regression_refit_replaces_the_state() {
    let mut model = LinearRegression::new(1.0, solve, affine);
    assert_eq!(model.accept_solution(Some(vec![1.0, 2.0, 3.0]), 2), Ok(()));
    assert_eq!(model.accept_solution(Some(vec![9.0, 8.0]), 1), Ok(()));
    assert_eq!(model.intercept(), Some(9.0));
    assert_eq!(model.coefficients(), Some(&vec![8.0]));
}

#[test]
fn linear_regression_accept_solution_checks_the_length() {
    let mut model = LinearRegression::new(1.0, solve, affine);
    assert_eq!(
        model.accept_solution(Some(vec![1.0, 2.0]), 2),
        Err(Error::DimensionMismatch { expected: 3, actual: 2 })
    );
    assert_eq!(
        model.accept_solution(Some(Vec::new()), 0),
        Err(Error::DimensionMismatch { expected: 1, actual: 0 })
    );
    assert_eq!(model.accept_solution(None, 2), Err(Error::SingularSystem));
    assert_eq!(model.intercept(), None);
    assert_eq!(model.accept_solution(Some(vec![4.0]), 0), Ok(()));
    assert_eq!(model.intercept(), Some(4.0));
    assert_eq!(model.coefficients(), Some(&Vec::new()));
}

#[test]
fn linear_regression_predict_checks_the_number_of_features() {
    let mut model = LinearRegression::new(1.0, solve, affine);
    model.accept_solution(Some(vec![0.0, 1.0, 1.0]), 2).unwrap();
    let narrow = Matrix::from_rows(vec![vec![1.0]], 1).unwrap();
    assert_eq!(
        model.predict(&narrow),
        Err(Error::DimensionMismatch { expected: 2, actual: 1 })
    );
}

#[test]
fn linear_regression_predict_checks_the_number_of_predictions() {
    let features = Matrix::from_rows(vec![vec![1.0], vec![2.0]], 1).unwrap();
    let mut careless = LinearRegression::new(1.0, solve, |_: &Matrix<f64>, _: &Vec<f64>, _: f64| vec![1.0]);
    careless.accept_solution(Some(vec![0.0, 1.0]), 1).unwrap();
    assert_eq!(
        careless.predict(&features),
        Err(Error::DimensionMismatch { expected: 2, actual: 1 })
    );
    let mut model = LinearRegression::new(1.0, solve, affine);
    model.accept_solution(Some(vec![0.0, 1.0]), 1).unwrap();
    assert_eq!(model.predict(&features), Ok(vec![1.0, 2.0]));
}

#[test]
fn linear_regression_uses_the_one_it_was_given() {
    let seen = std::cell::RefCell::new(Vec::new());
    let recording = |design: &Matrix<f64>, _: &Vec<f64>| {
        seen.borrow_mut().push(design.get(0, 0));
        None
    };
    let mut model = LinearRegression::new(-7.0, recording, affine);
    assert_eq!(model.fit(&plane()), Err(Error::SingularSystem));
    assert_eq!(seen.borrow().clone(), vec![-7.0]);
}

#[test]
fn linear_regression_parameters_can_be_read_and_replaced() {
    let mut model = LinearRegression::new(1.0, solve, affine);
    model.fit(&plane()).unwrap();
    let mut params = ModelParameters::new();
    params.set("fit_intercept", ParamValue::Bool(true));
    params.set("tolerance", ParamValue::Float(0.5));
    assert_eq!(model.set_params(params), Ok(()));
    assert!(matches!(model.get_params().get("fit_intercept"), Some(ParamValue::Bool(true))));
    assert!(matches!(model.get_params().get("tolerance"), Some(ParamValue::Float(t)) if *t == 0.5));
    assert!(model.get_params().get("missing").is_none());
    // what the model has learnt stays
    assert!(close(model.intercept().unwrap(), 3.0));
}

#[test]
fn linear_regression_clone_keeps_the_fit() {
    let mut model = LinearRegression::new(1.0, solve, affine);
    model.fit(&plane()).unwrap();
    let copy = model.clone();
    assert_eq!(copy.coefficients(), model.coefficients());
    assert_eq!(copy.intercept(), model.intercept());
}

#[test]
fn standard_scaler_transform_before_fit_is_not_fitted() {
    let scaler = StandardScaler::new(statistics, scale);
    let x = Matrix::from_rows(vec![vec![1.0, 2.0]], 2).unwrap();
    assert_eq!(scaler.transform(&x).unwrap_err(), Error::NotFitted);
}

#[test]
fn standard_scaler_fit_transform_centres_and_scales() {
    let x = Matrix::from_rows(
        vec![vec![1.0, 10.0], vec![2.0, 30.0], vec![3.0, 20.0], vec![6.0, 40.0]],
        2,
    )
    .unwrap();
    let mut scaler = StandardScaler::new(statistics, scale);
    let scaled = scaler.fit_transform(&x).unwrap();
    assert_eq!(scaled.nrows(), 4);
    assert_eq!(scaled.ncols(), 2);
    let (mean, std) = statistics(&scaled);
    for j in 0..2 {
        assert!(close(mean[j], 0.0));
        assert!(close(std[j], 1.0));
    }
}

#[test]
fn standard_scaler_fit_transform_is_fit_then_transform() {
    let x = Matrix::from_rows(vec![vec![1.0, 5.0], vec![3.0, 9.0], vec![8.0, 1.0]], 2).unwrap();
    let mut together = StandardScaler::new(statistics, scale);
    let at_once = together.fit_transform(&x).unwrap();
    let mut apart = StandardScaler::new(statistics, scale);
    assert_eq!(apart.fit(&x), Ok(()));
    let in_steps = apart.transform(&x).unwrap();
    assert_eq!(at_once.rows(), in_steps.rows());
    // both leave the same fitted state behind
    let other = Matrix::from_rows(vec![vec![0.0, 0.0]], 2).unwrap();
    assert_eq!(
        together.transform(&other).unwrap().rows(),
        apart.transform(&other).unwrap().rows()
    );
}

#[test]
fn standard_scaler_transform_uses_the_fitted_statistics() {
    let mut scaler = StandardScaler::new(statistics, scale);
    assert_eq!(scaler.accept_statistics(vec![1.0, 10.0], vec![2.0, 5.0], 2), Ok(()));
    let x = Matrix::from_rows(vec![vec![3.0, 0.0], vec![1.0, 20.0]], 2).unwrap();
    let scaled = scaler.transform(&x).unwrap();
    assert_eq!(scaled.rows(), &vec![vec![1.0, -2.0], vec![0.0, 2.0]]);
}

#[test]
fn standard_scaler_zero_deviation_propagates() {
    let x = Matrix::from_rows(vec![vec![2.0, 1.0], vec![2.0, 3.0]], 2).unwrap();
    let mut scaler = StandardScaler::new(statistics, scale);
    let scaled = scaler.fit_transform(&x).unwrap();
    assert!(scaled.get(0, 0).is_nan());
    assert!(close(scaled.get(0, 1), -1.0));
}

#[test]
fn standard_scaler_checks_the_number_of_columns() {
    let mut scaler = StandardScaler::new(statistics, scale);
    let x = Matrix::from_rows(vec![vec![1.0, 2.0], vec![3.0, 4.0]], 2).unwrap();
    scaler.fit(&x).unwrap();
    let wide = Matrix::from_rows(vec![vec![1.0, 2.0, 3.0]], 3).unwrap();
    assert_eq!(
        scaler.transform(&wide).unwrap_err(),
        Error::DimensionMismatch { expected: 2, actual: 3 }
    );
}

#[test]
fn standard_scaler_refuses_statistics_of_another_width() {
    let mut scaler = StandardScaler::new(statistics, scale);
    assert_eq!(
        scaler.accept_statistics(vec![1.0], vec![2.0, 5.0], 2),
        Err(Error::DimensionMismatch { expected: 2, actual: 1 })
    );
    assert_eq!(
        scaler.accept_statistics(vec![1.0, 1.0], vec![2.0, 5.0, 6.0], 2),
        Err(Error::DimensionMismatch { expected: 2, actual: 3 })
    );
    let x = Matrix::from_rows(vec![vec![1.0, 2.0]], 2).unwrap();
    assert_eq!(scaler.transform(&x).unwrap_err(), Error::NotFitted);
    let mut careless = StandardScaler::new(|_: &Matrix<f64>| (vec![0.0], vec![1.0]), scale);
    assert_eq!(careless.fit(&x), Err(Error::DimensionMismatch { expected: 2, actual: 1 }));
    assert_eq!(careless.transform(&x).unwrap_err(), Error::NotFitted);
    assert_eq!(
        careless.fit_transform(&x).unwrap_err(),
        Error::DimensionMismatch { expected: 2, actual: 1 }
    );
}

#[test]
fn standard_scaler_checks_the_shape_of_the_scaled_table() {
    let x = Matrix::from_rows(vec![vec![1.0, 2.0], vec![3.0, 4.0]], 2).unwrap();
    let mut short = StandardScaler::new(statistics, |_: &Matrix<f64>, _: &Vec<f64>, _: &Vec<f64>| {
        Matrix::from_rows(vec![vec![0.0, 0.0]], 2).unwrap()
    });
    short.fit(&x).unwrap();
    assert_eq!(
        short.transform(&x).unwrap_err(),
        Error::DimensionMismatch { expected: 2, actual: 1 }
    );
    let mut narrow = StandardScaler::new(statistics, |_: &Matrix<f64>, _: &Vec<f64>, _: &Vec<f64>| {
        Matrix::from_rows(vec![vec![0.0], vec![0.0]], 1).unwrap()
    });
    narrow.fit(&x).unwrap();
    assert_eq!(
        narrow.transform(&x).unwrap_err(),
        Error::DimensionMismatch { expected: 2, actual: 1 }
    );
}

#[test]
fn dataset_apply_standard_scaler_replaces_the_features() {
    let features = Matrix::from_rows(vec![vec![1.0, 10.0], vec![3.0, 30.0], vec![5.0, 20.0]], 2).unwrap();
    let mut d = Dataset::new(features, Some(vec![1.0, 2.0, 3.0]));
    d.set_feature_names(vec!["a".to_string(), "b".to_string()]).unwrap();
    assert_eq!(d.apply_standard_scaler(statistics, scale), Ok(()));
    assert_eq!(d.n_samples(), 3);
    assert_eq!(d.n_features(), 2);
    let (mean, std) = statistics(d.features());
    for j in 0..2 {
        assert!(close(mean[j], 0.0));
        assert!(close(std[j], 1.0));
    }
    // targets and labels stay
    assert_eq!(d.targets(), Some(&vec![1.0, 2.0, 3.0]));
    assert_eq!(d.get_feature_names(), Some(&vec!["a".to_string(), "b".to_string()]));
}

#[test]
fn dataset_apply_standard_scaler_fails_without_change() {
    let features = Matrix::from_rows(vec![vec![1.0, 10.0], vec![3.0, 30.0]], 2).unwrap();
    let mut d = Dataset::new(features, None);
    let failed = d.apply_standard_scaler(|_: &Matrix<f64>| (vec![0.0], vec![1.0]), scale);
    assert_eq!(failed, Err(Error::DimensionMismatch { expected: 2, actual: 1 }));
    assert_eq!(d.features().rows(), &vec![vec![1.0, 10.0], vec![3.0, 30.0]]);
}

#[test]
fn standard_scaler_clone_keeps_the_fit() {
    let mut scaler = StandardScaler::new(statistics, scale);
    let x = Matrix::from_rows(vec![vec![1.0, 2.0], vec![3.0, 6.0]], 2).unwrap();
    scaler.fit(&x).unwrap();
    let copy = scaler.clone();
    assert_eq!(copy.transform(&x).unwrap().rows(), scaler.transform(&x).unwrap().rows());
}

#[test]
fn model_parameters_set_and_get() {
    let mut params: ModelParameters<f64> = ModelParameters::new();
    assert!(params.get("alpha").is_none());
    params.set("alpha", ParamValue::Float(0.1));
    params.set("max_iter", ParamValue::Int(100));
    params.set("warm_start", ParamValue::Bool(false));
    params.set("solver", ParamValue::String("auto".to_string()));
    assert!(matches!(params.get("alpha"), Some(ParamValue::Float(a)) if *a == 0.1));
    assert!(matches!(params.get("max_iter"), Some(ParamValue::Int(100))));
    assert!(matches!(params.get("warm_start"), Some(ParamValue::Bool(false))));
    assert!(matches!(params.get("solver"), Some(ParamValue::String(s)) if s == "auto"));
    assert!(params.get("Alpha").is_none());
    assert!(params.get("").is_none());
}

#[test]
fn model_parameters_set_replaces_a_value() {
    let mut params: ModelParameters<f64> = ModelParameters::new();
    params.set("alpha", ParamValue::Float(0.1));
    params.set("beta", ParamValue::Int(1));
    params.set("alpha", ParamValue::Int(7));
    assert!(matches!(params.get("alpha"), Some(ParamValue::Int(7))));
    assert!(matches!(params.get("beta"), Some(ParamValue::Int(1))));
    params.set("beta", ParamValue::Bool(true));
    assert!(matches!(params.get("beta"), Some(ParamValue::Bool(true))));
    assert!(matches!(params.get("alpha"), Some(ParamValue::Int(7))));
}

#[test]
fn model_parameters_clone_and_default() {
    let mut params: ModelParameters<f64> = ModelParameters::default();
    assert!(params.get("alpha").is_none());
    params.set("alpha", ParamValue::String("x".to_string()));
    let copy = params.clone();
    params.set("alpha", ParamValue::Int(2));
    assert!(matches!(copy.get("alpha"), Some(ParamValue::String(s)) if s == "x"));
    assert!(matches!(params.get("alpha"), Some(ParamValue::Int(2))));
}

#[test]
fn linear_regression_refuses_a_table_that_cannot_be_widened() {
    // cells without size let a row be as long as a machine word allows
    let row = vec![(); usize::MAX];
    let features = Matrix::from_rows(vec![row], usize::MAX).unwrap();
    let d = Dataset::new(features, Some(vec![()]));
    let mut model = LinearRegression::new(
        (),
        |_: &Matrix<()>, _: &Vec<()>| None,
        |_: &Matrix<()>, _: &Vec<()>, _: ()| Vec::new(),
    );
    assert_eq!(
        model.fit(&d),
        Err(Error::DimensionMismatch { expected: usize::MAX - 1, actual: usize::MAX })
    );
}

#[test]
fn check_predictions_wants_one_for_each_row() {
    assert_eq!(check_predictions(vec![1.0, 2.0], 2), Ok(vec![1.0, 2.0]));
    assert_eq!(
        check_predictions(vec![1.0, 2.0], 3),
        Err(Error::DimensionMismatch { expected: 3, actual: 2 })
    );
    assert_eq!(check_predictions(Vec::<f64>::new(), 0), Ok(Vec::new()));
}

#[test]
fn check_scaled_wants_the_shape_of_the_table() {
    let table = Matrix::from_rows(vec![vec![1.0, 2.0], vec![3.0, 4.0]], 2).unwrap();
    assert_eq!(check_scaled(table.clone(), 2, 2).unwrap().rows(), table.rows());
    assert_eq!(
        check_scaled(table.clone(), 3, 2).unwrap_err(),
        Error::DimensionMismatch { expected: 3, actual: 2 }
    );
    assert_eq!(
        check_scaled(table, 2, 1).unwrap_err(),
        Error::DimensionMismatch { expected: 1, actual: 2 }
    );
}
