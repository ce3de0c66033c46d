//! K-fold splitting of a sample range, and cross-validation over the folds.

use vstd::prelude::*;
use crate::dataset::{copy_range, seed_or_default, Dataset, DatasetView};
use crate::error::{Error, Parameter};
use crate::matrix::{all_below, Matrix};
use crate::model::{check_predictions, predictions_outcome, Estimator};
use crate::permutation::{identity, identity_indices, is_permutation, lemma_permutation_covers,
    seeded_indices, seeded_order, DEFAULT_SEED};

verus! {

/// The position in the order at which the test block of fold `i` starts, when
/// `n` samples are divided into `k` folds.
pub open spec fn fold_start(n: nat, k: nat, i: nat) -> nat {
    i * (n / k)
}

/// The position in the order at which the test block of fold `i` ends: the
/// start of the next block, and for the last fold the end of the order, so
/// that the last block takes the remainder.
pub open spec fn fold_end(n: nat, k: nat, i: nat) -> nat {
    if i + 1 == k {
        n
    } else {
        (i + 1) * (n / k)
    }
}

/// The test indices of fold `i`: block `i` of the order.
pub open spec fn fold_test(order: Seq<usize>, k: nat, i: nat) -> Seq<usize> {
    order.subrange(fold_start(order.len(), k, i) as int, fold_end(order.len(), k, i) as int)
}

/// The training indices of fold `i`: all the other blocks, in their order.
pub open spec fn fold_train(order: Seq<usize>, k: nat, i: nat) -> Seq<usize> {
    order.subrange(0, fold_start(order.len(), k, i) as int) + order.subrange(
        fold_end(order.len(), k, i) as int,
        order.len() as int,
    )
}

/// The blocks of fold `i` lie in the order, one after the other, and no block
/// but the last is longer than `n / k`.
pub proof fn lemma_fold_bounds(n: nat, k: nat, i: nat)
    requires
        0 < k <= n,
        i < k,
    ensures
        fold_start(n, k, i) <= fold_end(n, k, i) <= n,
        i + 1 < k ==> fold_end(n, k, i) == fold_start(n, k, i + 1),
        i + 1 < k ==> fold_end(n, k, i) - fold_start(n, k, i) == n / k,
        i + 1 == k ==> fold_end(n, k, i) - fold_start(n, k, i) == n - (k - 1) * (n / k),
        n / k >= 1,
{
    let size = (n / k) as int;
    let ni = n as int;
    let ki = k as int;
    let ii = i as int;
    assert(size * ki <= ni && size >= 1) by (nonlinear_arith)
        requires
            size == ni / ki,
            0 < ki <= ni,
    ;
    assert(ii * size <= (ii + 1) * size && (ii + 1) * size <= ki * size && (ii + 1) * size - ii * size == size)
        by (nonlinear_arith)
        requires
            0 <= ii < ki,
            size >= 0,
    ;
    assert(ki * size == size * ki) by (nonlinear_arith);
}

/// The fold whose test block holds position `p` of the order.
pub open spec fn fold_of_position(n: nat, k: nat, p: nat) -> nat {
    if p / (n / k) < k - 1 {
        p / (n / k)
    } else {
        (k - 1) as nat
    }
}

/// Every position of the order lies in the test block of its fold.
pub proof fn lemma_fold_of_position(n: nat, k: nat, p: nat)
    requires
        0 < k <= n,
        p < n,
    ensures
        fold_of_position(n, k, p) < k,
        fold_start(n, k, fold_of_position(n, k, p)) <= p < fold_end(n, k, fold_of_position(n, k, p)),
{
    let size = (n / k) as int;
    let pi = p as int;
    let ki = k as int;
    let ni = n as int;
    let b = pi / size;
    assert(size >= 1) by (nonlinear_arith)
        requires
            size == ni / ki,
            0 < ki <= ni,
    ;
    assert(b * size <= pi < (b + 1) * size && b >= 0) by (nonlinear_arith)
        requires
            b == pi / size,
            size >= 1,
            pi >= 0,
    ;
    if b >= ki - 1 {
        assert((ki - 1) * size <= b * size) by (nonlinear_arith)
            requires
                ki - 1 <= b,
                size >= 1,
        ;
    }
}

/// The test blocks of two folds do not overlap: the earlier one ends before
/// the later one starts.
pub proof fn lemma_fold_blocks_ordered(n: nat, k: nat, i: nat, j: nat)
    requires
        0 < k <= n,
        i < j < k,
    ensures
        fold_end(n, k, i) <= fold_start(n, k, j),
{
    let size = (n / k) as int;
    let ii = i as int;
    let ji = j as int;
    assert((ii + 1) * size <= ji * size) by (nonlinear_arith)
        requires
            ii + 1 <= ji,
            size >= 0,
    ;
}

/// Index `v` is among the test indices of one of the `k` folds of `order`.
pub open spec fn tested_in_some_fold(order: Seq<usize>, k: nat, v: usize) -> bool {
    exists|i: nat| i < k && #[trigger] fold_test(order, k, i).contains(v)
}

/// The `k` folds of `order` partition the sample indices: every index is
/// tested in some fold; no index is tested in two folds; and in each fold an
/// index is trained on exactly if it is not tested on, so that the training
/// and the test indices of a fold together are a permutation of all indices
/// again.
pub open spec fn folds_partition(order: Seq<usize>, k: nat) -> bool {
    &&& forall|v: usize| v < order.len() ==> #[trigger] tested_in_some_fold(order, k, v)
    &&& forall|i: nat, j: nat|
        i < k && j < k && i != j ==> #[trigger] fold_test(order, k, i).disjoint(#[trigger] fold_test(order, k, j))
    &&& forall|i: nat, v: usize|
        i < k && v < order.len() ==> (#[trigger] fold_train(order, k, i).contains(v) <==> !fold_test(
            order,
            k,
            i,
        ).contains(v))
    &&& forall|i: nat|
        i < k ==> is_permutation(#[trigger] fold_train(order, k, i) + fold_test(order, k, i), order.len())
}

/// The folds of a permutation of the sample indices partition them: for an
/// order that holds every index below `n` once and `1 < k <= n` folds,
/// `folds_partition` holds.
pub proof fn lemma_folds_partition(order: Seq<usize>, k: nat)
    requires
        order.len() <= usize::MAX,
        is_permutation(order, order.len()),
        1 < k <= order.len(),
    ensures
        folds_partition(order, k),
{
    let n = order.len();
    lemma_permutation_covers(order, n);
    assert forall|v: usize| v < n implies #[trigger] tested_in_some_fold(order, k, v) by {
        assert(order.contains(v));
        let p = choose|p: int| 0 <= p < order.len() && order[p] == v;
        let i = fold_of_position(n, k, p as nat);
        lemma_fold_of_position(n, k, p as nat);
        lemma_fold_bounds(n, k, i);
        let test = fold_test(order, k, i);
        assert(test[p - fold_start(n, k, i)] == v);
        assert(i < k && fold_test(order, k, i).contains(v));
    }
    assert forall|i: nat, j: nat| i < k && j < k && i != j implies #[trigger] fold_test(order, k, i).disjoint(
        #[trigger] fold_test(order, k, j),
    ) by {
        lemma_fold_bounds(n, k, i);
        lemma_fold_bounds(n, k, j);
        if i < j {
            lemma_fold_blocks_ordered(n, k, i, j);
        } else {
            lemma_fold_blocks_ordered(n, k, j, i);
        }
    }
    assert forall|i: nat, v: usize| i < k && v < n implies (#[trigger] fold_train(order, k, i).contains(v)
        <==> !fold_test(order, k, i).contains(v)) by {
        lemma_fold_bounds(n, k, i);
        let start = fold_start(n, k, i) as int;
        let end = fold_end(n, k, i) as int;
        let train = fold_train(order, k, i);
        let test = fold_test(order, k, i);
        assert(order.contains(v));
        let p = choose|p: int| 0 <= p < order.len() && order[p] == v;
        if start <= p < end {
            assert(test[p - start] == v);
            if train.contains(v) {
                let t = choose|t: int| 0 <= t < train.len() && train[t] == v;
                if t < start {
                    assert(train[t] == order[t]);
                } else {
                    assert(train[t] == order[t - start + end]);
                }
                assert(false);
            }
        } else {
            if p < start {
                assert(train[p] == v);
            } else {
                assert(train[p - end + start] == v);
            }
            if test.contains(v) {
                let t = choose|t: int| 0 <= t < test.len() && test[t] == v;
                assert(test[t] == order[t + start]);
                assert(false);
            }
        }
    }
    assert forall|i: nat| i < k implies is_permutation(
        #[trigger] fold_train(order, k, i) + fold_test(order, k, i),
        n,
    ) by {
        lemma_fold_bounds(n, k, i);
        lemma_block_moved_to_end(order, fold_start(n, k, i) as int, fold_end(n, k, i) as int);
    }
}

/// Moving a block of a permutation to its end gives a permutation.
pub proof fn lemma_block_moved_to_end(order: Seq<usize>, start: int, end: int)
    requires
        is_permutation(order, order.len()),
        0 <= start <= end <= order.len(),
    ensures
        is_permutation(
            order.subrange(0, start) + order.subrange(end, order.len() as int) + order.subrange(start, end),
            order.len(),
        ),
{
    let n = order.len() as int;
    let moved = order.subrange(0, start) + order.subrange(end, n) + order.subrange(start, end);
    let source = |t: int|
        if t < start {
            t
        } else if t < start + (n - end) {
            t - start + end
        } else {
            t - (n - end)
        };
    assert forall|t: int| 0 <= t < moved.len() implies 0 <= source(t) < n && #[trigger] moved[t] == order[source(
        t,
    )] by {}
    assert forall|t: int, u: int| 0 <= t < moved.len() && 0 <= u < moved.len() && t != u implies moved[t]
        != moved[u] by {
        assert(moved[t] == order[source(t)]);
        assert(moved[u] == order[source(u)]);
        assert(source(t) != source(u));
    }
    assert forall|t: int| 0 <= t < moved.len() implies (#[trigger] moved[t]) < order.len() by {
        assert(moved[t] == order[source(t)]);
    }
}

/// The settings of a k-fold split.
#[derive(Clone, Copy, Debug)]
pub struct KFold {
    n_splits: usize,
    shuffle: bool,
    random_seed: Option<u64>,
}

impl KFold {
    /// The number of folds.
    pub closed spec fn spec_n_splits(&self) -> usize {
        self.n_splits
    }

    /// Whether the samples are shuffled before they are divided.
    pub closed spec fn spec_shuffle(&self) -> bool {
        self.shuffle
    }

    /// The seed of the shuffle, if one was given.
    pub closed spec fn spec_random_seed(&self) -> Option<u64> {
        self.random_seed
    }

    /// The order in which `n` samples are divided: the one that the seed
    /// (42 if none was given) gives them if they are shuffled, else the
    /// natural one.
    pub open spec fn order(&self, n: nat) -> Seq<usize> {
        if self.spec_shuffle() {
            seeded_order(n, seed_or_default(self.spec_random_seed()))
        } else {
            identity(n)
        }
    }

    /// The settings of a split into `n_splits` folds.
    pub fn new(n_splits: usize, shuffle: bool, random_seed: Option<u64>) -> (kfold: Self)
        ensures
            kfold.spec_n_splits() == n_splits,
            kfold.spec_shuffle() == shuffle,
            kfold.spec_random_seed() == random_seed,
    {
        KFold { n_splits, shuffle, random_seed }
    }

    /// The number of folds.
    pub fn n_splits(&self) -> (n_splits: usize)
        ensures
            n_splits == self.spec_n_splits(),
    {
        self.n_splits
    }

    /// The training and test indices of each fold, in fold order.
    ///
    /// The order of the samples is cut into `n_splits` blocks of
    /// `n / n_splits` indices, the last block taking the remainder. Fold `i`
    /// tests on block `i` and trains on the others. A number of folds that is
    /// not above 1, or that exceeds the number of samples, is refused with
    /// `InvalidParameter`.
    pub fn split<T>(&self, dataset: &Dataset<T>) -> (result: Result<Vec<(Vec<usize>, Vec<usize>)>, Error>)
        ensures
            match result {
                Ok(folds) => {
                    let n = dataset@.n_samples();
                    let k = self.spec_n_splits() as nat;
                    &&& 1 < k <= n
                    &&& is_permutation(self.order(n), n)
                    &&& folds_partition(self.order(n), k)
                    &&& folds@.len() == k
                    &&& forall|i: int|
                        0 <= i < k ==> {
                            &&& (#[trigger] folds@[i]).0@ == fold_train(self.order(n), k, i as nat)
                            &&& folds@[i].1@ == fold_test(self.order(n), k, i as nat)
                        }
                },
                Err(e) => {
                    &&& !(1 < self.spec_n_splits() <= dataset@.n_samples())
                    &&& e == Error::InvalidParameter(
                        Parameter::NSplits {
                            n_splits: self.spec_n_splits(),
                            n_samples: dataset@.n_samples() as usize,
                        },
                    )
                },
            },
    {
        let n: usize = dataset.n_samples();
        let k: usize = self.n_splits;
        if k <= 1 || k > n {
            return Err(Error::InvalidParameter(Parameter::NSplits { n_splits: k, n_samples: n }));
        }
        let seed: u64 = match self.random_seed {
            Some(seed) => seed,
            None => DEFAULT_SEED,
        };
        let order: Vec<usize> = if self.shuffle {
            seeded_indices(n, seed)
        } else {
            identity_indices(n)
        };
        proof {
            lemma_folds_partition(order@, k as nat);
        }
        let fold_size: usize = n / k;
        let mut folds: Vec<(Vec<usize>, Vec<usize>)> = Vec::new();
        let mut i: usize = 0;
        while i < k
            invariant
                0 <= i <= k,
                1 < k <= n,
                fold_size == n / k,
                order@.len() == n,
                folds@.len() == i,
                forall|j: int|
                    0 <= j < i ==> {
                        &&& (#[trigger] folds@[j]).0@ == fold_train(order@, k as nat, j as nat)
                        &&& folds@[j].1@ == fold_test(order@, k as nat, j as nat)
                    },
            decreases k - i,
        {
            proof {
                lemma_fold_bounds(n as nat, k as nat, i as nat);
            }
            let start: usize = i * fold_size;
            let end: usize = if i == k - 1 {
                n
            } else {
                (i + 1) * fold_size
            };
            let test = copy_range(&order, start, end);
            let train = copy_outside(&order, start, end);
            folds.push((train, test));
            i = i + 1;
        }
        Ok(folds)
    }
}

/// A copy of `items` without the items from position `from` up to `to`.
pub(crate) fn copy_outside(items: &Vec<usize>, from: usize, to: usize) -> (rest: Vec<usize>)
    requires
        from <= to <= items@.len(),
    ensures
        rest@ == items@.subrange(0, from as int) + items@.subrange(to as int, items@.len() as int),
{
    let mut rest: Vec<usize> = copy_range(items, 0, from);
    let mut i: usize = to;
    while i < items.len()
        invariant
            from <= to <= i <= items@.len(),
            rest@ == items@.subrange(0, from as int) + items@.subrange(to as int, i as int),
        decreases items@.len() - i,
    {
        rest.push(items[i]);
        i = i + 1;
        assert(rest@ =~= items@.subrange(0, from as int) + items@.subrange(to as int, i as int));
    }
    rest
}

/// One run of a fold of a cross-validation, step by step.
///
/// `start` is a clone of `estimator`; `model` is what fitting `start` to the
/// samples `train` of `data` left, and `fitted` what the fit returned. A
/// failure of the fit is the outcome. Else `predicted` is what `model`
/// predicts on `table`, the feature rows of the samples `test`, and a
/// failure of that is the outcome. Else, if there is not one prediction for each test
/// sample, the outcome is `DimensionMismatch`; and else it is a score that
/// `scoring` gives to `truth`, the targets of the test samples, and the
/// predictions.
pub open spec fn fold_run<T, E: Estimator<T>, S, F: Fn(&Vec<T>, &Vec<T>) -> S>(
    estimator: E,
    data: DatasetView<T>,
    train: Seq<usize>,
    test: Seq<usize>,
    scoring: F,
    start: E,
    model: E,
    fitted: Result<(), Error>,
    table: Matrix<T>,
    predicted: Result<Vec<T>, Error>,
    truth: Vec<T>,
    outcome: Result<S, Error>,
) -> bool {
    &&& cloned(estimator, start)
    &&& model.fit_outcome(start, data.select(train), fitted)
    &&& table@ == data.select(test).features
    &&& table.spec_ncols() == data.n_features
    &&& data.select(test).targets == Some(truth@)
    &&& match fitted {
        Err(e) => outcome == Err::<S, Error>(e),
        Ok(()) => {
            &&& model.predict_outcome(table, predicted)
            &&& match predicted {
                Err(e) => outcome == Err::<S, Error>(e),
                Ok(predictions) => match predictions_outcome(predictions, test.len()) {
                    Err(e) => outcome == Err::<S, Error>(e),
                    Ok(checked) => {
                        &&& outcome is Ok
                        &&& scoring.ensures((&truth, &checked), outcome->Ok_0)
                    },
                },
            }
        },
    }
}

/// What one fold of a cross-validation may give: the outcome of some run of
/// the fold.
pub open spec fn fold_outcome<T, E: Estimator<T>, S, F: Fn(&Vec<T>, &Vec<T>) -> S>(
    estimator: E,
    data: DatasetView<T>,
    train: Seq<usize>,
    test: Seq<usize>,
    scoring: F,
    outcome: Result<S, Error>,
) -> bool {
    exists|
        start: E,
        model: E,
        fitted: Result<(), Error>,
        table: Matrix<T>,
        predicted: Result<Vec<T>, Error>,
        truth: Vec<T>,
    | #[trigger]
        fold_run(estimator, data, train, test, scoring, start, model, fitted, table, predicted, truth, outcome)
}

/// Fits a clone of `estimator` to the samples `train` of `dataset`, predicts
/// on the samples `test`, and scores the predictions against their targets.
pub fn score_fold<T: Copy, E: Estimator<T>, S, F: Fn(&Vec<T>, &Vec<T>) -> S>(
    estimator: &E,
    dataset: &Dataset<T>,
    train: &Vec<usize>,
    test: &Vec<usize>,
    scoring: &F,
) -> (outcome: Result<S, Error>)
    requires
        dataset@.targets is Some,
        all_below(train@, dataset@.n_samples()),
        all_below(test@, dataset@.n_samples()),
        forall|a: &Vec<T>, b: &Vec<T>| a@.len() == b@.len() ==> #[trigger] scoring.requires((a, b)),
    ensures
        fold_outcome(*estimator, dataset@, train@, test@, *scoring, outcome),
{
    let train_data = dataset.select_samples(train);
    let test_data = dataset.select_samples(test);
    let mut model = estimator.clone();
    let ghost start = model;
    let fitted = model.fit(&train_data);
    let ghost fitted_model = model;
    let truth: &Vec<T> = test_data.targets().unwrap();
    let table: &Matrix<T> = test_data.features();
    match fitted {
        Err(e) => {
            let outcome = Err(e);
            proof {
                let predicted: Result<Vec<T>, Error> = Err(e);
                assert(fold_run(
                    *estimator,
                    dataset@,
                    train@,
                    test@,
                    *scoring,
                    start,
                    fitted_model,
                    fitted,
                    *table,
                    predicted,
                    *truth,
                    outcome,
                ));
            }
            outcome
        },
        Ok(()) => {
            let predicted = model.predict(table);
            match predicted {
                Err(e) => {
                    let outcome = Err(e);
                    proof {
                        assert(fold_run(
                            *estimator,
                            dataset@,
                            train@,
                            test@,
                            *scoring,
                            start,
                            fitted_model,
                            fitted,
                            *table,
                            predicted,
                            *truth,
                            outcome,
                        ));
                    }
                    outcome
                },
                Ok(predictions) => {
                    let ghost returned = predictions;
                    match check_predictions(predictions, test.len()) {
                        Err(e) => {
                            let outcome = Err(e);
                            proof {
                                assert(fold_run(
                                    *estimator,
                                    dataset@,
                                    train@,
                                    test@,
                                    *scoring,
                                    start,
                                    fitted_model,
                                    fitted,
                                    *table,
                                    Ok(returned),
                                    *truth,
                                    outcome,
                                ));
                            }
                            outcome
                        },
                        Ok(checked) => {
                            let score = scoring(truth, &checked);
                            let outcome = Ok(score);
                            proof {
                                assert(fold_run(
                                    *estimator,
                                    dataset@,
                                    train@,
                                    test@,
                                    *scoring,
                                    start,
                                    fitted_model,
                                    fitted,
                                    *table,
                                    Ok(returned),
                                    *truth,
                                    outcome,
                                ));
                            }
                            outcome
                        },
                    }
                },
            }
        },
    }
}

/// What fold `i` of a cross-validation over the `k` folds of `order` may give.
pub open spec fn fold_outcome_at<T, E: Estimator<T>, S, F: Fn(&Vec<T>, &Vec<T>) -> S>(
    estimator: E,
    data: DatasetView<T>,
    order: Seq<usize>,
    k: nat,
    i: int,
    scoring: F,
    outcome: Result<S, Error>,
) -> bool {
    fold_outcome(estimator, data, fold_train(order, k, i as nat), fold_test(order, k, i as nat), scoring, outcome)
}

/// Fold `i` may give some score.
pub open spec fn fold_may_succeed<T, E: Estimator<T>, S, F: Fn(&Vec<T>, &Vec<T>) -> S>(
    estimator: E,
    data: DatasetView<T>,
    order: Seq<usize>,
    k: nat,
    i: int,
    scoring: F,
) -> bool {
    exists|score: S| #[trigger] fold_outcome_at(estimator, data, order, k, i, scoring, Ok::<S, Error>(score))
}

/// What a cross-validation may return.
///
/// A number of folds that `KFold::split` refuses gives its
/// `InvalidParameter`; else a dataset without targets gives `MissingTarget`.
/// Else the folds are run in fold order. If all give a score, the scores are
/// returned in fold order. Else the failure of the first fold that fails
/// is returned, all folds before it having given a score.
pub open spec fn cross_val_outcome<T, E: Estimator<T>, S, F: Fn(&Vec<T>, &Vec<T>) -> S>(
    estimator: E,
    data: DatasetView<T>,
    cv: KFold,
    scoring: F,
    result: Result<Vec<S>, Error>,
) -> bool {
    let n = data.n_samples();
    let k = cv.spec_n_splits() as nat;
    let order = cv.order(n);
    if !(1 < k <= n) {
        result == Err::<Vec<S>, Error>(
            Error::InvalidParameter(Parameter::NSplits { n_splits: cv.spec_n_splits(), n_samples: n as usize }),
        )
    } else if data.targets is None {
        result == Err::<Vec<S>, Error>(Error::MissingTarget)
    } else {
        match result {
            Ok(scores) => {
                &&& scores@.len() == k
                &&& forall|i: int|
                    0 <= i < k ==> fold_outcome_at(
                        estimator,
                        data,
                        order,
                        k,
                        i,
                        scoring,
                        Ok::<S, Error>(#[trigger] scores@[i]),
                    )
            },
            Err(e) => exists|i: int|
                {
                    &&& 0 <= i < k
                    &&& #[trigger] fold_outcome_at(estimator, data, order, k, i, scoring, Err::<S, Error>(e))
                    &&& forall|j: int|
                        0 <= j < i ==> #[trigger] fold_may_succeed(estimator, data, order, k, j, scoring)
                },
        }
    }
}

/// The training and the test indices of a fold of a permutation are sample
/// indices.
pub proof fn lemma_fold_indices_below(order: Seq<usize>, k: nat, i: nat)
    requires
        is_permutation(order, order.len()),
        0 < k <= order.len(),
        i < k,
    ensures
        all_below(fold_train(order, k, i), order.len()),
        all_below(fold_test(order, k, i), order.len()),
{
    lemma_fold_bounds(order.len(), k, i);
    let start = fold_start(order.len(), k, i) as int;
    let end = fold_end(order.len(), k, i) as int;
    let train = fold_train(order, k, i);
    let test = fold_test(order, k, i);
    assert forall|t: int| 0 <= t < train.len() implies (#[trigger] train[t]) < order.len() by {
        if t < start {
            assert(train[t] == order[t]);
        } else {
            assert(train[t] == order[t - start + end]);
        }
    }
    assert forall|t: int| 0 <= t < test.len() implies (#[trigger] test[t]) < order.len() by {
        assert(test[t] == order[t + start]);
    }
}

/// Scores `estimator` on each fold that `cv` makes of `dataset`.
///
/// For each fold, in fold order, a clone of the estimator is fitted to the
/// training samples, predicts on the test samples, and `scoring` compares
/// the targets of the test samples with the predictions. The scores are
/// returned in fold order. The first failure ends the cross-validation and
/// is returned; the estimator itself is never fitted.
pub fn cross_val_score<T: Copy, E: Estimator<T>, S, F: Fn(&Vec<T>, &Vec<T>) -> S>(
    estimator: &E,
    dataset: &Dataset<T>,
    cv: &KFold,
    scoring: F,
) -> (result: Result<Vec<S>, Error>)
    requires
        forall|a: &Vec<T>, b: &Vec<T>| a@.len() == b@.len() ==> #[trigger] scoring.requires((a, b)),
    ensures
        cross_val_outcome(*estimator, dataset@, *cv, scoring, result),
{
    let folds = match cv.split(dataset) {
        Ok(folds) => folds,
        Err(e) => {
            return Err(e);
        },
    };
    if dataset.targets().is_none() {
        return Err(Error::MissingTarget);
    }
    let ghost n = dataset@.n_samples();
    let ghost k = cv.spec_n_splits() as nat;
    let ghost order = cv.order(n);
    let mut scores: Vec<S> = Vec::new();
    let mut i: usize = 0;
    while i < folds.len()
        invariant
            0 <= i <= folds@.len(),
            n == dataset@.n_samples(),
            k == cv.spec_n_splits(),
            order == cv.order(n),
            1 < k <= n,
            dataset@.targets is Some,
            is_permutation(order, n),
            folds@.len() == k,
            forall|j: int|
                0 <= j < k ==> {
                    &&& (#[trigger] folds@[j]).0@ == fold_train(order, k, j as nat)
                    &&& folds@[j].1@ == fold_test(order, k, j as nat)
                },
            forall|a: &Vec<T>, b: &Vec<T>| a@.len() == b@.len() ==> #[trigger] scoring.requires((a, b)),
            scores@.len() == i,
            forall|j: int|
                0 <= j < i ==> fold_outcome_at(
                    *estimator,
                    dataset@,
                    order,
                    k,
                    j,
                    scoring,
                    Ok::<S, Error>(#[trigger] scores@[j]),
                ),
        decreases folds@.len() - i,
    {
        proof {
            lemma_fold_indices_below(order, k, i as nat);
        }
        let fold: &(Vec<usize>, Vec<usize>) = &folds[i];
        match score_fold(estimator, dataset, &fold.0, &fold.1, &scoring) {
            Ok(score) => {
                scores.push(score);
            },
            Err(e) => {
                proof {
                    assert(fold_outcome_at(*estimator, dataset@, order, k, i as int, scoring, Err::<S, Error>(e)));
                    assert forall|j: int| 0 <= j < i implies #[trigger] fold_may_succeed(
                        *estimator,
                        dataset@,
                        order,
                        k,
                        j,
                        scoring,
                    ) by {
                        assert(fold_outcome_at(
                            *estimator,
                            dataset@,
                            order,
                            k,
                            j,
                            scoring,
                            Ok::<S, Error>(scores@[j]),
                        ));
                    }
                }
                return Err(e);
            },
        }
        i = i + 1;
    }
    Ok(scores)
}

} // verus!
