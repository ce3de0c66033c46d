//! Standardisation of feature columns: what is fitted, when, and to what it
//! is applied.
//!
//! The arithmetic on the cells is the caller's. A scaler is made with a
//! function that computes the mean and the population standard deviation of
//! each column of a table, and one that subtracts the means and divides by
//! the deviations. The scaler decides when they are called and keeps what
//! they return.

use vstd::prelude::*;
use crate::dataset::{Dataset, DatasetView};
use crate::error::Error;
use crate::matrix::{copy_cells, Matrix};

verus! {

/// What a scaler has learnt, as mathematical values.
pub struct StandardScalerView<T> {
    /// The mean of each column, once the scaler is fitted.
    pub mean: Option<Seq<T>>,
    /// The population standard deviation of each column, once the scaler is
    /// fitted.
    pub std: Option<Seq<T>>,
}

impl<T> StandardScalerView<T> {
    /// The scaler has been fitted: means and deviations are there.
    pub open spec fn is_fitted(self) -> bool {
        self.mean is Some && self.std is Some
    }
}

/// What `accept_statistics` returns and leaves for a scaler that had learnt
/// `before` and the statistics that were computed for a table of
/// `n_features` columns.
pub open spec fn statistics_outcome<T>(
    before: StandardScalerView<T>,
    mean: Seq<T>,
    std: Seq<T>,
    n_features: nat,
    after: StandardScalerView<T>,
    result: Result<(), Error>,
) -> bool {
    if mean.len() != n_features {
        &&& result == Err::<(), Error>(
            Error::DimensionMismatch { expected: n_features as usize, actual: mean.len() as usize },
        )
        &&& after == before
    } else if std.len() != n_features {
        &&& result == Err::<(), Error>(
            Error::DimensionMismatch { expected: n_features as usize, actual: std.len() as usize },
        )
        &&& after == before
    } else {
        &&& result == Ok::<(), Error>(())
        &&& after == (StandardScalerView { mean: Some(mean), std: Some(std) })
    }
}

/// What `check_scaled` returns for the table that was computed from a table
/// of `n_rows` rows and `n_cols` columns.
pub open spec fn scaled_outcome<T>(scaled: Matrix<T>, n_rows: nat, n_cols: nat) -> Result<Matrix<T>, Error> {
    if scaled.spec_nrows() != n_rows {
        Err(Error::DimensionMismatch { expected: n_rows as usize, actual: scaled.spec_nrows() as usize })
    } else if scaled.spec_ncols() != n_cols {
        Err(Error::DimensionMismatch { expected: n_cols as usize, actual: scaled.spec_ncols() as usize })
    } else {
        Ok(scaled)
    }
}

/// `statistics` may be called with every table that has a row.
pub open spec fn statistics_accepts<T, F: Fn(&Matrix<T>) -> (Vec<T>, Vec<T>)>(statistics: F) -> bool {
    forall|x: &Matrix<T>| x.wf() && x.spec_nrows() > 0 ==> #[trigger] statistics.requires((x,))
}

/// `scale` may be called with every table and one mean and one deviation for
/// each of its columns.
pub open spec fn scale_accepts<T, G: Fn(&Matrix<T>, &Vec<T>, &Vec<T>) -> Matrix<T>>(scale: G) -> bool {
    forall|x: &Matrix<T>, mean: &Vec<T>, std: &Vec<T>|
        x.wf() && mean@.len() == x.spec_ncols() && std@.len() == x.spec_ncols() ==> #[trigger] scale.requires(
            (x, mean, std),
        )
}

/// A scaler that brings each column of a table to mean 0 and deviation 1.
///
/// `F` computes the mean and the population standard deviation (the
/// divisor is the number of rows) of each column of a table. `G` subtracts
/// from each cell of a table the mean of its column and divides by the
/// deviation.
#[verifier::reject_recursive_types(T)]
pub struct StandardScaler<T, F: Fn(&Matrix<T>) -> (Vec<T>, Vec<T>), G: Fn(&Matrix<T>, &Vec<T>, &Vec<T>) -> Matrix<
    T,
>> {
    mean: Option<Vec<T>>,
    std: Option<Vec<T>>,
    statistics: F,
    scale: G,
}

impl<T, F: Fn(&Matrix<T>) -> (Vec<T>, Vec<T>), G: Fn(&Matrix<T>, &Vec<T>, &Vec<T>) -> Matrix<T>> View for StandardScaler<
    T,
    F,
    G,
> {
    type V = StandardScalerView<T>;

    closed spec fn view(&self) -> StandardScalerView<T> {
        StandardScalerView {
            mean: match self.mean {
                Some(m) => Some(m@),
                None => None,
            },
            std: match self.std {
                Some(s) => Some(s@),
                None => None,
            },
        }
    }
}

impl<T, F: Fn(&Matrix<T>) -> (Vec<T>, Vec<T>), G: Fn(&Matrix<T>, &Vec<T>, &Vec<T>) -> Matrix<T>> StandardScaler<
    T,
    F,
    G,
> {
    /// Means and deviations are there together, one of each for each column,
    /// and the two functions may be called.
    #[verifier::type_invariant]
    pub closed spec fn wf(&self) -> bool {
        &&& match (self.mean, self.std) {
            (Some(m), Some(s)) => m@.len() == s@.len(),
            (None, None) => true,
            _ => false,
        }
        &&& statistics_accepts(self.statistics)
        &&& scale_accepts(self.scale)
    }

    /// The function that computes means and deviations.
    pub closed spec fn spec_statistics(&self) -> F {
        self.statistics
    }

    /// The function that standardises a table.
    pub closed spec fn spec_scale(&self) -> G {
        self.scale
    }

    /// The scaler has the arithmetic of `other`.
    pub open spec fn same_setup(&self, other: Self) -> bool {
        &&& self.spec_statistics() == other.spec_statistics()
        &&& self.spec_scale() == other.spec_scale()
    }

    /// What `fit` may return and leave: the arithmetic stays; `statistics`
    /// has computed some means and deviations of `x`, and they were taken as
    /// `statistics_outcome` says.
    pub open spec fn fitted_from(&self, before: Self, x: Matrix<T>, result: Result<(), Error>) -> bool {
        &&& self.same_setup(before)
        &&& exists|computed: (Vec<T>, Vec<T>)|
            {
                &&& #[trigger] before.spec_statistics().ensures((&x,), computed)
                &&& statistics_outcome(before@, computed.0@, computed.1@, x.spec_ncols(), self@, result)
            }
    }

    /// What `transform` may return: without a fit `NotFitted`; for a table
    /// with another number of columns than the scaler was fitted to
    /// `DimensionMismatch`; else `scale` has computed some table from `x`,
    /// the means and the deviations, and it was taken as `scaled_outcome`
    /// says.
    pub open spec fn transformed(&self, x: Matrix<T>, result: Result<Matrix<T>, Error>) -> bool {
        if !self@.is_fitted() {
            result == Err::<Matrix<T>, Error>(Error::NotFitted)
        } else if self@.mean->Some_0.len() != x.spec_ncols() {
            result == Err::<Matrix<T>, Error>(
                Error::DimensionMismatch {
                    expected: self@.mean->Some_0.len() as usize,
                    actual: x.spec_ncols() as usize,
                },
            )
        } else {
            exists|mean: Vec<T>, std: Vec<T>, scaled: Matrix<T>|
                {
                    &&& self@.mean == Some(mean@)
                    &&& self@.std == Some(std@)
                    &&& #[trigger] self.spec_scale().ensures((&x, &mean, &std), scaled)
                    &&& result == scaled_outcome(scaled, x.spec_nrows(), x.spec_ncols())
                }
        }
    }

    /// What `fit_transform` may return and leave: what `fit` may, and after
    /// a fit that succeeded what `transform` may return then.
    pub open spec fn fitted_and_transformed(
        &self,
        before: Self,
        x: Matrix<T>,
        fitted: Result<(), Error>,
        result: Result<Matrix<T>, Error>,
    ) -> bool {
        &&& self.fitted_from(before, x, fitted)
        &&& match fitted {
            Err(e) => result == Err::<Matrix<T>, Error>(e),
            Ok(()) => self.transformed(x, result),
        }
    }
}

impl<T: Copy, F: Fn(&Matrix<T>) -> (Vec<T>, Vec<T>) + Copy, G: Fn(&Matrix<T>, &Vec<T>, &Vec<T>) -> Matrix<T>
    + Copy> StandardScaler<T, F, G> {
    /// A scaler that has not been fitted.
    ///
    /// `statistics` is handed a table and returns the mean and the
    /// population standard deviation of each column. `scale` is handed a
    /// table, the means and the deviations, and returns the table of the
    /// cells minus the mean of their column, divided by its deviation.
    pub fn new(statistics: F, scale: G) -> (scaler: Self)
        requires
            statistics_accepts(statistics),
            scale_accepts(scale),
        ensures
            scaler.wf(),
            scaler@ == (StandardScalerView::<T> { mean: None, std: None }),
            scaler.spec_statistics() == statistics,
            scaler.spec_scale() == scale,
    {
        StandardScaler { mean: None, std: None, statistics, scale }
    }

    /// Fits the scaler to the table `x`, which has a row.
    ///
    /// `statistics` is called once, with `x`. What it returns is handled as
    /// `accept_statistics` says, and replaces what an earlier fit left.
    pub fn fit(&mut self, x: &Matrix<T>) -> (result: Result<(), Error>)
        requires
            x.spec_nrows() > 0,
        ensures
            final(self).wf(),
            final(self).fitted_from(*old(self), *x, result),
    {
        proof {
            use_type_invariant(&*self);
            use_type_invariant(x);
        }
        let computed = (self.statistics)(x);
        proof {
            assert(self.spec_statistics().ensures((x,), computed));
        }
        self.accept_statistics(computed.0, computed.1, x.ncols())
    }

    /// Takes the means and deviations that were computed for a table of
    /// `n_features` columns. Unless there is one of each for each column,
    /// they are refused with `DimensionMismatch` and the scaler is left as it
    /// was.
    pub fn accept_statistics(&mut self, mean: Vec<T>, std: Vec<T>, n_features: usize) -> (result: Result<
        (),
        Error,
    >)
        ensures
            final(self).wf(),
            final(self).same_setup(*old(self)),
            statistics_outcome(old(self)@, mean@, std@, n_features as nat, final(self)@, result),
    {
        proof {
            use_type_invariant(&*self);
        }
        if mean.len() != n_features {
            return Err(Error::DimensionMismatch { expected: n_features, actual: mean.len() });
        }
        if std.len() != n_features {
            return Err(Error::DimensionMismatch { expected: n_features, actual: std.len() });
        }
        *self = StandardScaler { mean: Some(mean), std: Some(std), statistics: self.statistics, scale: self.scale };
        Ok(())
    }

    /// Standardises the table `x` with the fitted means and deviations.
    ///
    /// A scaler that has not been fitted fails with `NotFitted`; a table that
    /// does not have the number of columns that the scaler was fitted to
    /// fails with `DimensionMismatch`. Else `scale` is called once, with `x`,
    /// the means and the deviations; what it returns is handled as
    /// `check_scaled` says.
    pub fn transform(&self, x: &Matrix<T>) -> (result: Result<Matrix<T>, Error>)
        ensures
            self.transformed(*x, result),
    {
        proof {
            use_type_invariant(self);
            use_type_invariant(x);
        }
        match (&self.mean, &self.std) {
            (Some(mean), Some(std)) => {
                if mean.len() != x.ncols() {
                    return Err(Error::DimensionMismatch { expected: mean.len(), actual: x.ncols() });
                }
                let scaled = (self.scale)(x, mean, std);
                proof {
                    assert(self.spec_scale().ensures((x, mean, std), scaled));
                }
                check_scaled(scaled, x.nrows(), x.ncols())
            },
            _ => Err(Error::NotFitted),
        }
    }

    /// Fits the scaler to `x`, which has a row, and standardises `x` with
    /// it: the same as `fit` followed, if it succeeds, by `transform`.
    pub fn fit_transform(&mut self, x: &Matrix<T>) -> (result: Result<Matrix<T>, Error>)
        requires
            x.spec_nrows() > 0,
        ensures
            final(self).wf(),
            exists|fitted: Result<(), Error>| #[trigger]
                final(self).fitted_and_transformed(*old(self), *x, fitted, result),
    {
        let fitted = self.fit(x);
        match fitted {
            Err(e) => {
                let result = Err(e);
                proof {
                    assert(self.fitted_and_transformed(*old(self), *x, fitted, result));
                }
                result
            },
            Ok(()) => {
                let result = self.transform(x);
                proof {
                    assert(self.fitted_and_transformed(*old(self), *x, fitted, result));
                }
                result
            },
        }
    }
}

/// One way in which `Dataset::apply_standard_scaler` may go: a fresh scaler
/// with the given arithmetic was fitted to `x`, the feature table of the
/// dataset, and `x` was standardised with it. A failure of either is
/// returned and leaves the dataset as it was; else the standardised table
/// has taken the place of the features.
pub open spec fn scaling_run<T, F: Fn(&Matrix<T>) -> (Vec<T>, Vec<T>), G: Fn(&Matrix<T>, &Vec<T>, &Vec<T>) -> Matrix<
    T,
>>(
    before: DatasetView<T>,
    statistics: F,
    scale: G,
    x: Matrix<T>,
    fresh: StandardScaler<T, F, G>,
    scaler: StandardScaler<T, F, G>,
    fitted: Result<(), Error>,
    scaled: Result<Matrix<T>, Error>,
    after: DatasetView<T>,
    result: Result<(), Error>,
) -> bool {
    &&& x@ == before.features
    &&& x.spec_ncols() == before.n_features
    &&& fresh@ == (StandardScalerView::<T> { mean: None, std: None })
    &&& fresh.spec_statistics() == statistics
    &&& fresh.spec_scale() == scale
    &&& scaler.fitted_and_transformed(fresh, x, fitted, scaled)
    &&& match scaled {
        Err(e) => result == Err::<(), Error>(e) && after == before,
        Ok(table) => {
            &&& result == Ok::<(), Error>(())
            &&& after == (DatasetView { features: table@, ..before })
        },
    }
}

impl<T: Copy> Dataset<T> {
    /// Standardises the features of the dataset, which has a sample, in
    /// place.
    ///
    /// A fresh scaler with the given arithmetic is fitted to the feature
    /// table and the table is replaced by its standardised form; targets and
    /// labels stay. The scaler is not kept: to standardise other data in the
    /// same way, fit a scaler of your own.
    pub fn apply_standard_scaler<F: Fn(&Matrix<T>) -> (Vec<T>, Vec<T>) + Copy, G: Fn(
        &Matrix<T>,
        &Vec<T>,
        &Vec<T>,
    ) -> Matrix<T> + Copy>(&mut self, statistics: F, scale: G) -> (result: Result<(), Error>)
        requires
            old(self)@.n_samples() > 0,
            statistics_accepts(statistics),
            scale_accepts(scale),
        ensures
            final(self).wf(),
            exists|
                x: Matrix<T>,
                fresh: StandardScaler<T, F, G>,
                scaler: StandardScaler<T, F, G>,
                fitted: Result<(), Error>,
                scaled: Result<Matrix<T>, Error>,
            | #[trigger]
                scaling_run(
                    old(self)@,
                    statistics,
                    scale,
                    x,
                    fresh,
                    scaler,
                    fitted,
                    scaled,
                    final(self)@,
                    result,
                ),
    {
        proof {
            use_type_invariant(&*self);
            self.lemma_wf();
        }
        let mut scaler: StandardScaler<T, F, G> = StandardScaler::new(statistics, scale);
        let ghost fresh = scaler;
        let features: &Matrix<T> = self.features();
        let ghost x = *features;
        let outcome = scaler.fit_transform(features);
        let ghost fitted = choose|fitted: Result<(), Error>| #[trigger]
            scaler.fitted_and_transformed(fresh, x, fitted, outcome);
        match outcome {
            Err(e) => {
                proof {
                    assert(scaling_run(
                        old(self)@,
                        statistics,
                        scale,
                        x,
                        fresh,
                        scaler,
                        fitted,
                        outcome,
                        self@,
                        Err(e),
                    ));
                }
                Err(e)
            },
            Ok(table) => {
                let ghost kept = table;
                proof {
                    assert(fitted is Ok);
                    assert(scaler.transformed(x, outcome));
                    let (mean, std, scaled) = choose|mean: Vec<T>, std: Vec<T>, scaled: Matrix<T>|
                        {
                            &&& scaler@.mean == Some(mean@)
                            &&& scaler@.std == Some(std@)
                            &&& #[trigger] scaler.spec_scale().ensures((&x, &mean, &std), scaled)
                            &&& outcome == scaled_outcome(scaled, x.spec_nrows(), x.spec_ncols())
                        };
                    assert(table.spec_nrows() == x.spec_nrows());
                    assert(table.spec_ncols() == x.spec_ncols());
                }
                let result = match self.set_features(table) {
                    Ok(()) => Ok(()),
                    Err(e) => Err(e),
                };
                proof {
                    assert(scaling_run(
                        old(self)@,
                        statistics,
                        scale,
                        x,
                        fresh,
                        scaler,
                        fitted,
                        Ok(kept),
                        self@,
                        result,
                    ));
                }
                result
            },
        }
    }
}

/// Takes the table that was computed from a table of `n_rows` rows and
/// `n_cols` columns: it is returned if it has that shape, and else refused
/// with `DimensionMismatch`.
pub fn check_scaled<T>(scaled: Matrix<T>, n_rows: usize, n_cols: usize) -> (result: Result<Matrix<T>, Error>)
    ensures
        result == scaled_outcome(scaled, n_rows as nat, n_cols as nat),
{
    if scaled.nrows() != n_rows {
        Err(Error::DimensionMismatch { expected: n_rows, actual: scaled.nrows() })
    } else if scaled.ncols() != n_cols {
        Err(Error::DimensionMismatch { expected: n_cols, actual: scaled.ncols() })
    } else {
        Ok(scaled)
    }
}

impl<T: Copy, F: Fn(&Matrix<T>) -> (Vec<T>, Vec<T>) + Copy, G: Fn(&Matrix<T>, &Vec<T>, &Vec<T>) -> Matrix<T>
    + Copy> Clone for StandardScaler<T, F, G> {
    /// A copy of the scaler: what it has learnt and its arithmetic.
    fn clone(&self) -> (copy: Self)
        ensures
            copy.wf(),
            copy@ == self@,
            copy.same_setup(*self),
    {
        proof {
            use_type_invariant(self);
        }
        match (&self.mean, &self.std) {
            (Some(mean), Some(std)) => StandardScaler {
                mean: Some(copy_cells(mean)),
                std: Some(copy_cells(std)),
                statistics: self.statistics,
                scale: self.scale,
            },
            _ => StandardScaler { mean: None, std: None, statistics: self.statistics, scale: self.scale },
        }
    }
}

} // verus!
