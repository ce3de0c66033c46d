use ruscikit::model_selection::score_fold;
use ruscikit::{
    cross_val_score, Dataset, Error, Estimator, KFold, LinearRegression, Matrix, ModelParameters, ParamValue,
    Parameter,
};

/// Predicts the mean of the targets that it was fitted to.
#[derive(Clone)]
struct MeanModel {
    mean: Option<f64>,
    params: ModelParameters<f64>,
}

fn mean_model() -> MeanModel {
    MeanModel { mean: None, params: ModelParameters::new() }
}

impl Estimator<f64> for MeanModel {
    fn fit(&mut self, dataset: &Dataset<f64>) -> Result<(), Error> {
        let targets = dataset.targets().ok_or(Error::MissingTarget)?;
        self.mean = Some(targets.iter().sum::<f64>() / targets.len() as f64);
        Ok(())
    }

    fn predict(&self, features: &Matrix<f64>) -> Result<Vec<f64>, Error> {
        match self.mean {
            Some(mean) => Ok(vec![mean; features.nrows()]),
            None => Err(Error::NotFitted),
        }
    }

    fn get_params(&self) -> &ModelParameters<f64> {
        &self.params
    }

    fn set_params(&mut self, params: ModelParameters<f64>) -> Result<(), Error> {
        self.params = params;
        Ok(())
    }
}

/// Fails to fit a training set that holds the sample whose feature is `poison`.
#[derive(Clone)]
struct Fragile {
    poison: f64,
    short: bool,
    params: ModelParameters<f64>,
}

fn fragile(poison: f64, short: bool) -> Fragile {
    Fragile { poison, short, params: ModelParameters::new() }
}

impl Estimator<f64> for Fragile {
    fn fit(&mut self, dataset: &Dataset<f64>) -> Result<(), Error> {
        if dataset.features().rows().iter().any(|r| r[0] == self.poison) {
            Err(Error::SingularSystem)
        } else {
            Ok(())
        }
    }

    fn predict(&self, features: &Matrix<f64>) -> Result<Vec<f64>, Error> {
        if self.short {
            Ok(Vec::new())
        } else {
            Ok(vec![0.0; features.nrows()])
        }
    }

    fn get_params(&self) -> &ModelParameters<f64> {
        &self.params
    }

    fn set_params(&mut self, params: ModelParameters<f64>) -> Result<(), Error> {
        self.params = params;
        Ok(())
    }
}

fn mean_squared_error(truth: &Vec<f64>, predicted: &Vec<f64>) -> f64 {
    truth.iter().zip(predicted).map(|(t, p)| (t - p) * (t - p)).sum::<f64>() / truth.len() as f64
}

fn dataset(targets: Vec<f64>) -> Dataset<f64> {
    let rows = (0..targets.len()).map(|i| vec![i as f64]).collect();
    Dataset::new(Matrix::from_rows(rows, 1).unwrap(), Some(targets))
}

#[test]
fn cross_val_score_gives_one_score_for_each_fold_in_order() {
    let d = dataset(vec![1.0, 1.0, 3.0, 3.0, 5.0, 5.0]);
    let model = mean_model();
    let scores = cross_val_score(&model, &d, &KFold::new(3, false, None), mean_squared_error).unwrap();
    // fold 0 trains on 3,3,5,5 (mean 4) and tests on 1,1; fold 1 on mean 3 and 3,3; fold 2 on mean 2 and 5,5
    assert_eq!(scores, vec![9.0, 0.0, 9.0]);
    // the estimator itself is not fitted
    assert_eq!(model.mean, None);
}

#[test]
fn cross_val_score_hands_the_test_targets_to_the_scoring() {
    let d = dataset(vec![10.0, 20.0, 30.0, 40.0, 50.0]);
    let model = mean_model();
    let sums = cross_val_score(&model, &d, &KFold::new(2, false, None), |truth: &Vec<f64>, predicted: &Vec<f64>| {
        (truth.clone(), predicted.clone())
    })
    .unwrap();
    assert_eq!(sums[0], (vec![10.0, 20.0], vec![40.0, 40.0]));
    assert_eq!(sums[1], (vec![30.0, 40.0, 50.0], vec![15.0, 15.0, 15.0]));
}

#[test]
fn cross_val_score_with_shuffled_folds_is_repeatable() {
    let d = dataset((0..20).map(|i| (i * i) as f64).collect());
    let model = mean_model();
    let cv = KFold::new(4, true, Some(11));
    let first = cross_val_score(&model, &d, &cv, mean_squared_error).unwrap();
    let second = cross_val_score(&model, &d, &cv, mean_squared_error).unwrap();
    assert_eq!(first.len(), 4);
    assert_eq!(first, second);
}

#[test]
fn cross_val_score_without_targets_is_missing_target() {
    let rows = (0..6).map(|i| vec![i as f64]).collect();
    let d: Dataset<f64> = Dataset::new(Matrix::from_rows(rows, 1).unwrap(), None);
    let model = fragile(-1.0, false);
    let result = cross_val_score(&model, &d, &KFold::new(2, false, None), mean_squared_error);
    assert_eq!(result, Err(Error::MissingTarget));
}

#[test]
fn cross_val_score_refuses_an_invalid_number_of_folds() {
    let d = dataset(vec![1.0, 2.0, 3.0]);
    let model = mean_model();
    let result = cross_val_score(&model, &d, &KFold::new(4, false, None), mean_squared_error);
    assert_eq!(
        result,
        Err(Error::InvalidParameter(Parameter::NSplits { n_splits: 4, n_samples: 3 }))
    );
    let one = cross_val_score(&model, &d, &KFold::new(1, false, None), mean_squared_error);
    assert_eq!(
        one,
        Err(Error::InvalidParameter(Parameter::NSplits { n_splits: 1, n_samples: 3 }))
    );
}

#[test]
fn cross_val_score_stops_at_the_first_failure() {
    let d = dataset(vec![1.0, 2.0, 3.0, 4.0, 5.0, 6.0]);
    let calls = std::cell::Cell::new(0);
    let counting = |truth: &Vec<f64>, predicted: &Vec<f64>| {
        calls.set(calls.get() + 1);
        mean_squared_error(truth, predicted)
    };
    // sample 0 is in the training set of every fold but the first
    let model = fragile(0.0, false);
    let result = cross_val_score(&model, &d, &KFold::new(3, false, None), counting);
    assert_eq!(result, Err(Error::SingularSystem));
    assert_eq!(calls.get(), 1);
}

#[test]
fn cross_val_score_refuses_predictions_of_another_length() {
    let d = dataset(vec![1.0, 2.0, 3.0, 4.0]);
    let model = fragile(-1.0, true);
    let result = cross_val_score(&model, &d, &KFold::new(2, false, None), mean_squared_error);
    assert_eq!(result, Err(Error::DimensionMismatch { expected: 2, actual: 0 }));
}

#[test]
fn estimator_parameters_can_be_read_and_replaced() {
    let mut model = mean_model();
    assert!(model.get_params().get("depth").is_none());
    let mut params = ModelParameters::new();
    params.set("depth", ParamValue::Int(7));
    assert_eq!(model.set_params(params), Ok(()));
    assert!(matches!(model.get_params().get("depth"), Some(ParamValue::Int(7))));
}

/// The least-squares line through the points, by the closed formula; the
/// design matrix has the ones in its first column and the feature in its
/// second.
fn solve_line(design: &Matrix<f64>, targets: &Vec<f64>) -> Option<Vec<f64>> {
    let n = design.nrows() as f64;
    let sx: f64 = design.rows().iter().map(|r| r[1]).sum();
    let sy: f64 = targets.iter().sum();
    let sxx: f64 = design.rows().iter().map(|r| r[1] * r[1]).sum();
    let sxy: f64 = design.rows().iter().zip(targets).map(|(r, y)| r[1] * y).sum();
    let determinant = n * sxx - sx * sx;
    if determinant.abs() < 1e-12 {
        return None;
    }
    let slope = (n * sxy - sx * sy) / determinant;
    Some(vec![(sy - slope * sx) / n, slope])
}

fn affine(features: &Matrix<f64>, coefficients: &Vec<f64>, intercept: f64) -> Vec<f64> {
    features
        .rows()
        .iter()
        .map(|row| row.iter().zip(coefficients).map(|(x, c)| x * c).sum::<f64>() + intercept)
        .collect()
}

#[test]
fn cross_val_score_of_a_linear_model_on_a_line() {
    // the targets lie on the line 3 x + 1, so every fold predicts them
    let d = dataset((0..9).map(|i| 3.0 * i as f64 + 1.0).collect());
    let model = LinearRegression::new(1.0, solve_line, affine);
    let scores = cross_val_score(&model, &d, &KFold::new(3, true, Some(5)), mean_squared_error).unwrap();
    assert_eq!(scores.len(), 3);
    for score in scores {
        assert!(score < 1e-18);
    }
    // the model that was handed in is not fitted
    assert_eq!(model.intercept(), None);
}

#[test]
fn cross_val_score_of_a_linear_model_that_cannot_be_fitted() {
    // with as many folds as there are pairs of samples, a fold trains on one value only
    let rows = vec![vec![1.0], vec![1.0], vec![2.0], vec![2.0]];
    let d = Dataset::new(Matrix::from_rows(rows, 1).unwrap(), Some(vec![1.0, 1.0, 2.0, 2.0]));
    let model = LinearRegression::new(1.0, solve_line, affine);
    let result = cross_val_score(&model, &d, &KFold::new(2, false, None), mean_squared_error);
    assert_eq!(result, Err(Error::SingularSystem));
}

#[test]
fn score_fold_fits_a_clone_on_the_training_samples_only() {
    let d = dataset(vec![2.0, 4.0, 6.0, 100.0]);
    let model = mean_model();
    // trained on samples 0 and 1 (mean 3), tested on sample 2
    let score = score_fold(&model, &d, &vec![0, 1], &vec![2], &mean_squared_error);
    assert_eq!(score, Ok(9.0));
    assert_eq!(model.mean, None);
}
