//! Ordinary least squares: what is fitted, when, and from what.
//!
//! The arithmetic on the cells is the caller's. A model is made with the
//! number one, a solver of the normal equations and a function that applies
//! fitted coefficients to a table. The model decides when they are called,
//! builds what they are given, and keeps what they return.

use vstd::prelude::*;
use crate::dataset::{Dataset, DatasetView};
use crate::error::Error;
use crate::matrix::{copy_cells, Matrix};
use crate::model::{check_predictions, predictions_outcome, Estimator, ModelParameters, ParamValue};

verus! {

/// The design matrix of a feature table: each row with `one` put in front,
/// for the intercept.
pub open spec fn design_rows<T>(features: Seq<Seq<T>>, one: T) -> Seq<Seq<T>> {
    Seq::new(features.len(), |i: int| seq![one] + features[i])
}

/// What a linear model has learnt, as mathematical values.
pub struct LinearRegressionView<T> {
    /// The coefficient of each feature, once the model is fitted.
    pub coefficients: Option<Seq<T>>,
    /// The intercept, once the model is fitted.
    pub intercept: Option<T>,
}

impl<T> LinearRegressionView<T> {
    /// The model has been fitted: coefficients and intercept are there.
    pub open spec fn is_fitted(self) -> bool {
        self.coefficients is Some && self.intercept is Some
    }

    /// The model that holds the solution `beta` of the normal equations: the
    /// first component is the intercept, the others are the coefficients.
    pub open spec fn of_solution(beta: Seq<T>) -> Self {
        LinearRegressionView {
            coefficients: Some(beta.subrange(1, beta.len() as int)),
            intercept: Some(beta[0]),
        }
    }
}

/// What `accept_solution` returns and leaves for a model that had learnt
/// `before`, what the solver returned, and the number of features.
pub open spec fn solution_outcome<T>(
    before: LinearRegressionView<T>,
    solution: Option<Seq<T>>,
    n_features: nat,
    after: LinearRegressionView<T>,
    result: Result<(), Error>,
) -> bool {
    match solution {
        None => result == Err::<(), Error>(Error::SingularSystem) && after == before,
        Some(beta) => if beta.len() != n_features + 1 {
            &&& result == Err::<(), Error>(
                Error::DimensionMismatch { expected: (n_features + 1) as usize, actual: beta.len() as usize },
            )
            &&& after == before
        } else {
            result == Ok::<(), Error>(()) && after == LinearRegressionView::of_solution(beta)
        },
    }
}

/// `solve` may be called with every design matrix and one target for each
/// of its rows.
pub open spec fn solver_accepts<T, S: Fn(&Matrix<T>, &Vec<T>) -> Option<Vec<T>>>(solve: S) -> bool {
    forall|design: &Matrix<T>, targets: &Vec<T>|
        design.wf() && design.spec_ncols() >= 1 && targets@.len() == design.spec_nrows() ==> #[trigger] solve.requires(
            (design, targets),
        )
}

/// `affine` may be called with every table, one coefficient for each of its
/// columns, and every intercept.
pub open spec fn affine_accepts<T, P: Fn(&Matrix<T>, &Vec<T>, T) -> Vec<T>>(affine: P) -> bool {
    forall|features: &Matrix<T>, coefficients: &Vec<T>, intercept: T|
        features.wf() && coefficients@.len() == features.spec_ncols() ==> #[trigger] affine.requires(
            (features, coefficients, intercept),
        )
}

/// A linear model fitted by ordinary least squares.
///
/// `S` solves the normal equations `(XᵀX) β = Xᵀy` for a design matrix `X`
/// and targets `y`, or finds that they have no solution. `P` computes for
/// each row of a table its dot product with the coefficients, plus the
/// intercept.
#[verifier::reject_recursive_types(T)]
pub struct LinearRegression<T, S: Fn(&Matrix<T>, &Vec<T>) -> Option<Vec<T>>, P: Fn(&Matrix<T>, &Vec<T>, T) -> Vec<
    T,
>> {
    coefficients: Option<Vec<T>>,
    intercept: Option<T>,
    params: ModelParameters<T>,
    one: T,
    solve: S,
    affine: P,
}

impl<T, S: Fn(&Matrix<T>, &Vec<T>) -> Option<Vec<T>>, P: Fn(&Matrix<T>, &Vec<T>, T) -> Vec<T>> View for LinearRegression<
    T,
    S,
    P,
> {
    type V = LinearRegressionView<T>;

    closed spec fn view(&self) -> LinearRegressionView<T> {
        LinearRegressionView {
            coefficients: match self.coefficients {
                Some(c) => Some(c@),
                None => None,
            },
            intercept: self.intercept,
        }
    }
}

impl<T, S: Fn(&Matrix<T>, &Vec<T>) -> Option<Vec<T>>, P: Fn(&Matrix<T>, &Vec<T>, T) -> Vec<T>> LinearRegression<
    T,
    S,
    P,
> {
    /// The parameters are well-formed and the two functions may be called.
    #[verifier::type_invariant]
    pub closed spec fn wf(&self) -> bool {
        &&& self.params.wf()
        &&& solver_accepts(self.solve)
        &&& affine_accepts(self.affine)
    }

    /// The number one of the cells.
    pub closed spec fn spec_one(&self) -> T {
        self.one
    }

    /// The solver of the normal equations.
    pub closed spec fn spec_solve(&self) -> S {
        self.solve
    }

    /// The function that applies the coefficients.
    pub closed spec fn spec_affine(&self) -> P {
        self.affine
    }

    /// The parameters of the model.
    pub closed spec fn spec_params(&self) -> Map<Seq<char>, ParamValue<T>> {
        self.params@
    }

    /// The model has the arithmetic and the parameters of `other`.
    pub open spec fn same_setup(&self, other: Self) -> bool {
        &&& self.spec_one() == other.spec_one()
        &&& self.spec_solve() == other.spec_solve()
        &&& self.spec_affine() == other.spec_affine()
        &&& self.spec_params() == other.spec_params()
    }

    /// One way in which `fit` may go for a dataset with targets: the solver
    /// was handed `design`, the design matrix of the features, and `targets`,
    /// the targets, and returned `solution`, which was taken as
    /// `solution_outcome` says.
    pub open spec fn fit_step(
        &self,
        before: Self,
        dataset: DatasetView<T>,
        design: Matrix<T>,
        targets: Vec<T>,
        solution: Option<Vec<T>>,
        outcome: Result<(), Error>,
    ) -> bool {
        &&& design@ == design_rows(dataset.features, before.spec_one())
        &&& design.spec_ncols() == dataset.n_features + 1
        &&& dataset.targets == Some(targets@)
        &&& before.spec_solve().ensures((&design, &targets), solution)
        &&& solution_outcome(
            before@,
            match solution {
                Some(beta) => Some(beta@),
                None => None,
            },
            dataset.n_features,
            self@,
            outcome,
        )
    }

    /// What `fit` may return and leave.
    ///
    /// Arithmetic and parameters stay. Without targets the fit fails with
    /// `MissingTarget`; with so many features that the design matrix cannot
    /// take one more column, with `DimensionMismatch`. Both leave the model
    /// as it was. Else the fit went as `fit_step` says.
    pub open spec fn fitted_from(&self, before: Self, dataset: DatasetView<T>, outcome: Result<(), Error>) -> bool {
        &&& self.same_setup(before)
        &&& match dataset.targets {
            None => outcome == Err::<(), Error>(Error::MissingTarget) && self@ == before@,
            Some(_) => if dataset.n_features >= usize::MAX {
                &&& outcome == Err::<(), Error>(
                    Error::DimensionMismatch { expected: (usize::MAX - 1) as usize, actual: usize::MAX },
                )
                &&& self@ == before@
            } else {
                exists|design: Matrix<T>, targets: Vec<T>, solution: Option<Vec<T>>| #[trigger]
                    self.fit_step(before, dataset, design, targets, solution, outcome)
            },
        }
    }

    /// One way in which `predict` may go for a fitted model: `coefficients`
    /// are its coefficients; a table that does not have one column for each
    /// of them is refused with `DimensionMismatch`; else `predictions` is
    /// what `affine` returned for the table, the coefficients and the
    /// intercept, and it was taken as `predictions_outcome` says.
    pub open spec fn predict_step(
        &self,
        features: Matrix<T>,
        coefficients: Vec<T>,
        predictions: Vec<T>,
        outcome: Result<Vec<T>, Error>,
    ) -> bool {
        &&& self@.coefficients == Some(coefficients@)
        &&& if coefficients@.len() != features.spec_ncols() {
            outcome == Err::<Vec<T>, Error>(
                Error::DimensionMismatch {
                    expected: coefficients@.len() as usize,
                    actual: features.spec_ncols() as usize,
                },
            )
        } else {
            &&& self.spec_affine().ensures((&features, &coefficients, self@.intercept->Some_0), predictions)
            &&& outcome == predictions_outcome(predictions, features.spec_nrows())
        }
    }

    /// What `predict` may return: for a model that has not been fitted
    /// `NotFitted`; else it went as `predict_step` says.
    pub open spec fn predicted_for(&self, features: Matrix<T>, outcome: Result<Vec<T>, Error>) -> bool {
        if self@.is_fitted() {
            exists|coefficients: Vec<T>, predictions: Vec<T>| #[trigger]
                self.predict_step(features, coefficients, predictions, outcome)
        } else {
            outcome == Err::<Vec<T>, Error>(Error::NotFitted)
        }
    }
}

impl<T: Copy, S: Fn(&Matrix<T>, &Vec<T>) -> Option<Vec<T>> + Copy, P: Fn(&Matrix<T>, &Vec<T>, T) -> Vec<T>
    + Copy> LinearRegression<T, S, P> {
    /// A model that has not been fitted and has no parameters.
    ///
    /// `one` is the number one of the cells. `solve` is handed a design
    /// matrix and the targets and returns the solution of the normal
    /// equations, or `None` if there is none. `affine` is handed a table, the
    /// coefficients and the intercept and returns a prediction for each row.
    pub fn new(one: T, solve: S, affine: P) -> (model: Self)
        requires
            solver_accepts(solve),
            affine_accepts(affine),
        ensures
            model.wf(),
            model@ == (LinearRegressionView::<T> { coefficients: None, intercept: None }),
            model.spec_one() == one,
            model.spec_solve() == solve,
            model.spec_affine() == affine,
            model.spec_params() == Map::<Seq<char>, ParamValue<T>>::empty(),
    {
        LinearRegression {
            coefficients: None,
            intercept: None,
            params: ModelParameters::new(),
            one,
            solve,
            affine,
        }
    }

    /// The coefficient of each feature, once the model is fitted.
    pub fn coefficients(&self) -> (coefficients: Option<&Vec<T>>)
        ensures
            match coefficients {
                Some(c) => self@.coefficients == Some(c@),
                None => self@.coefficients is None,
            },
    {
        self.coefficients.as_ref()
    }

    /// The intercept, once the model is fitted.
    pub fn intercept(&self) -> (intercept: Option<T>)
        ensures
            intercept == self@.intercept,
    {
        self.intercept
    }

    /// Takes what the solver of the normal equations returned for a dataset
    /// of `n_features` features.
    ///
    /// No solution fails with `SingularSystem`; a solution that does not have
    /// one component for the intercept and one for each feature fails with
    /// `DimensionMismatch`. Both leave the model as it was. Else the first
    /// component becomes the intercept and the others the coefficients, in
    /// the order of the features, in place of what an earlier fit left.
    pub fn accept_solution(&mut self, solution: Option<Vec<T>>, n_features: usize) -> (result: Result<(), Error>)
        requires
            n_features < usize::MAX,
        ensures
            final(self).wf(),
            final(self).same_setup(*old(self)),
            solution_outcome(
                old(self)@,
                match solution {
                    Some(beta) => Some(beta@),
                    None => None,
                },
                n_features as nat,
                final(self)@,
                result,
            ),
    {
        proof {
            use_type_invariant(&*self);
        }
        match solution {
            None => Err(Error::SingularSystem),
            Some(beta) => {
                if beta.len() != n_features + 1 {
                    return Err(Error::DimensionMismatch { expected: n_features + 1, actual: beta.len() });
                }
                let intercept: T = beta[0];
                let mut coefficients: Vec<T> = Vec::new();
                let mut j: usize = 1;
                while j < beta.len()
                    invariant
                        1 <= j <= beta@.len(),
                        coefficients@ == beta@.subrange(1, j as int),
                    decreases beta@.len() - j,
                {
                    coefficients.push(beta[j]);
                    j = j + 1;
                    assert(coefficients@ =~= beta@.subrange(1, j as int));
                }
                self.intercept = Some(intercept);
                self.coefficients = Some(coefficients);
                Ok(())
            },
        }
    }
}

impl<T: Copy, S: Fn(&Matrix<T>, &Vec<T>) -> Option<Vec<T>> + Copy, P: Fn(&Matrix<T>, &Vec<T>, T) -> Vec<T>
    + Copy> Estimator<T> for LinearRegression<T, S, P> {
    open spec fn fit_outcome(&self, before: Self, dataset: DatasetView<T>, outcome: Result<(), Error>) -> bool {
        self.fitted_from(before, dataset, outcome)
    }

    open spec fn predict_outcome(&self, features: Matrix<T>, outcome: Result<Vec<T>, Error>) -> bool {
        self.predicted_for(features, outcome)
    }

    /// Fits the model to `dataset`.
    ///
    /// Without targets the fit fails with `MissingTarget`. Else the solver is
    /// called once, with the design matrix of the features (each row with
    /// the number one in front) and the targets. What it returns is handled
    /// as `accept_solution` says: no solution fails with `SingularSystem`, a
    /// solution replaces what an earlier fit left. A fit that fails leaves
    /// the model as it was.
    fn fit(&mut self, dataset: &Dataset<T>) -> (outcome: Result<(), Error>)
        ensures
            final(self).wf(),
    {
        proof {
            use_type_invariant(&*self);
            use_type_invariant(dataset);
            dataset.lemma_wf();
        }
        let targets: &Vec<T> = match dataset.targets() {
            Some(t) => t,
            None => {
                return Err(Error::MissingTarget);
            },
        };
        if dataset.n_features() == usize::MAX {
            return Err(Error::DimensionMismatch { expected: usize::MAX - 1, actual: usize::MAX });
        }
        let design = dataset.features().with_leading_column(self.one);
        let solution = (self.solve)(&design, targets);
        let outcome = self.accept_solution(solution, dataset.n_features());
        proof {
            assert(self.fit_step(*old(self), dataset@, design, *targets, solution, outcome));
        }
        outcome
    }

    /// Predicts a target for each row of `features`.
    ///
    /// A model that has not been fitted fails with `NotFitted`; a table that
    /// does not have one column for each coefficient fails with
    /// `DimensionMismatch`. Else `affine` is called once, with the table, the
    /// coefficients and the intercept; what it returns is handled as
    /// `check_predictions` says.
    fn predict(&self, features: &Matrix<T>) -> (outcome: Result<Vec<T>, Error>) {
        proof {
            use_type_invariant(self);
            use_type_invariant(features);
        }
        match (&self.coefficients, &self.intercept) {
            (Some(coefficients), Some(intercept)) => {
                if coefficients.len() != features.ncols() {
                    let outcome = Err(
                        Error::DimensionMismatch { expected: coefficients.len(), actual: features.ncols() },
                    );
                    proof {
                        assert(self.predict_step(*features, *coefficients, *coefficients, outcome));
                    }
                    return outcome;
                }
                let predictions = (self.affine)(features, coefficients, *intercept);
                let outcome = check_predictions(predictions, features.nrows());
                proof {
                    assert(self.predict_step(*features, *coefficients, predictions, outcome));
                }
                outcome
            },
            _ => Err(Error::NotFitted),
        }
    }

    /// The parameters of the model.
    fn get_params(&self) -> (params: &ModelParameters<T>)
        ensures
            params@ == self.spec_params(),
    {
        &self.params
    }

    /// Replaces the parameters of the model; what it has learnt stays.
    fn set_params(&mut self, params: ModelParameters<T>) -> (result: Result<(), Error>)
        ensures
            final(self).wf(),
            result == Ok::<(), Error>(()),
            final(self).spec_params() == params@,
            final(self)@ == old(self)@,
            final(self).spec_one() == old(self).spec_one(),
            final(self).spec_solve() == old(self).spec_solve(),
            final(self).spec_affine() == old(self).spec_affine(),
    {
        proof {
            use_type_invariant(&*self);
            use_type_invariant(&params);
        }
        self.params = params;
        Ok(())
    }
}

impl<T: Copy, S: Fn(&Matrix<T>, &Vec<T>) -> Option<Vec<T>> + Copy, P: Fn(&Matrix<T>, &Vec<T>, T) -> Vec<T>
    + Copy> Clone for LinearRegression<T, S, P> {
    /// A copy of the model: what it has learnt, its parameters and its
    /// arithmetic.
    fn clone(&self) -> (copy: Self)
        ensures
            copy.wf(),
            copy@ == self@,
            copy.same_setup(*self),
    {
        proof {
            use_type_invariant(self);
        }
        let coefficients: Option<Vec<T>> = match &self.coefficients {
            Some(c) => Some(copy_cells(c)),
            None => None,
        };
        LinearRegression {
            coefficients,
            intercept: self.intercept,
            params: self.params.clone(),
            one: self.one,
            solve: self.solve,
            affine: self.affine,
        }
    }
}

} // verus!
