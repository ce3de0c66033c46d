//! Tabular datasets and their division into a training and a test part.

use vstd::prelude::*;
use crate::error::{Error, Parameter};
use crate::fraction::{share, Fraction};
use crate::matrix::{all_below, copy_cells, select_seq, Matrix};
use crate::permutation::{is_permutation, lemma_permutation_covers, seeded_indices, seeded_order,
    DEFAULT_SEED};

verus! {

/// What a dataset holds, as mathematical values.
pub struct DatasetView<T> {
    /// The feature table, one sequence of cells for each sample.
    pub features: Seq<Seq<T>>,
    /// The number of features, which every row of `features` has.
    pub n_features: nat,
    /// The target of each sample, if the dataset has targets.
    pub targets: Option<Seq<T>>,
    /// The name of each feature, if names were set.
    pub feature_names: Option<Seq<String>>,
    /// The name of the target, if one was set.
    pub target_name: Option<String>,
}

impl<T> DatasetView<T> {
    /// The number of samples.
    pub open spec fn n_samples(self) -> nat {
        self.features.len()
    }

    /// The shapes agree: every row has `n_features` cells, there is one target
    /// for each sample, and one name for each feature.
    pub open spec fn wf(self) -> bool {
        &&& forall|i: int| 0 <= i < self.features.len() ==> (#[trigger] self.features[i]).len() == self.n_features
        &&& self.targets matches Some(t) ==> t.len() == self.features.len()
        &&& self.feature_names matches Some(names) ==> names.len() == self.n_features
    }

    /// The dataset made of the samples that `indices` names, in that order,
    /// with the same labels.
    pub open spec fn select(self, indices: Seq<usize>) -> Self {
        DatasetView {
            features: select_seq(self.features, indices),
            n_features: self.n_features,
            targets: match self.targets {
                Some(t) => Some(select_seq(t, indices)),
                None => None,
            },
            feature_names: self.feature_names,
            target_name: self.target_name,
        }
    }
}

/// A feature table with, optionally, a target for each sample and labels.
///
/// The cell type is left open: a dataset stores, copies and rearranges cells.
#[derive(Debug)]
pub struct Dataset<T> {
    features: Matrix<T>,
    targets: Option<Vec<T>>,
    feature_names: Option<Vec<String>>,
    target_name: Option<String>,
}

impl<T> View for Dataset<T> {
    type V = DatasetView<T>;

    closed spec fn view(&self) -> DatasetView<T> {
        DatasetView {
            features: self.features@,
            n_features: self.features.spec_ncols(),
            targets: match self.targets {
                Some(t) => Some(t@),
                None => None,
            },
            feature_names: match self.feature_names {
                Some(names) => Some(names@),
                None => None,
            },
            target_name: self.target_name,
        }
    }
}

impl<T> Dataset<T> {
    /// The shapes of the parts agree.
    #[verifier::type_invariant]
    pub closed spec fn wf(&self) -> bool {
        &&& self.features.wf()
        &&& self.targets matches Some(t) ==> t@.len() == self.features.spec_nrows()
        &&& self.feature_names matches Some(names) ==> names@.len() == self.features.spec_ncols()
    }

    /// The view of a well-formed dataset is well-formed, and its sizes fit a
    /// machine word.
    pub proof fn lemma_wf(&self)
        requires
            self.wf(),
        ensures
            self@.wf(),
            self@.n_samples() <= usize::MAX,
            self@.n_features <= usize::MAX,
    {
        self.features.lemma_wf();
    }

    /// A dataset of the given features and targets, without labels.
    ///
    /// There must be as many targets as the table has rows.
    pub fn new(features: Matrix<T>, targets: Option<Vec<T>>) -> (dataset: Self)
        requires
            targets matches Some(t) ==> t@.len() == features.spec_nrows(),
        ensures
            dataset.wf(),
            dataset@ == (DatasetView {
                features: features@,
                n_features: features.spec_ncols(),
                targets: match targets {
                    Some(t) => Some(t@),
                    None => None,
                },
                feature_names: None,
                target_name: None,
            }),
    {
        proof {
            use_type_invariant(&features);
        }
        Dataset { features, targets, feature_names: None, target_name: None }
    }

    /// The feature table.
    pub fn features(&self) -> (features: &Matrix<T>)
        ensures
            features@ == self@.features,
            features.spec_ncols() == self@.n_features,
            features.wf(),
    {
        proof {
            use_type_invariant(self);
        }
        &self.features
    }

    /// The targets, if the dataset has any.
    pub fn targets(&self) -> (targets: Option<&Vec<T>>)
        ensures
            match targets {
                Some(t) => self@.targets == Some(t@),
                None => self@.targets.is_none(),
            },
    {
        self.targets.as_ref()
    }

    /// The number of samples: the rows of the feature table.
    pub fn n_samples(&self) -> (n: usize)
        ensures
            n == self@.n_samples(),
    {
        self.features.nrows()
    }

    /// The number of features: the columns of the feature table.
    pub fn n_features(&self) -> (n: usize)
        ensures
            n == self@.n_features,
    {
        self.features.ncols()
    }

    /// Names the features. Refused with `InvalidParameter`, and nothing
    /// changed, unless there is one name for each feature.
    pub fn set_feature_names(&mut self, names: Vec<String>) -> (result: Result<(), Error>)
        ensures
            final(self).wf(),
            match result {
                Ok(()) => {
                    &&& names@.len() == old(self)@.n_features
                    &&& final(self)@ == (DatasetView { feature_names: Some(names@), ..old(self)@ })
                },
                Err(e) => {
                    &&& names@.len() != old(self)@.n_features
                    &&& e == Error::InvalidParameter(
                        Parameter::FeatureNames {
                            names: names@.len() as usize,
                            features: old(self)@.n_features as usize,
                        },
                    )
                    &&& final(self)@ == old(self)@
                },
            },
    {
        proof {
            use_type_invariant(&*self);
        }
        if names.len() != self.features.ncols() {
            return Err(
                Error::InvalidParameter(
                    Parameter::FeatureNames { names: names.len(), features: self.features.ncols() },
                ),
            );
        }
        self.feature_names = Some(names);
        Ok(())
    }

    /// Names the target.
    pub fn set_target_name(&mut self, name: String)
        ensures
            final(self).wf(),
            final(self)@ == (DatasetView { target_name: Some(name), ..old(self)@ }),
    {
        proof {
            use_type_invariant(&*self);
        }
        self.target_name = Some(name);
    }

    /// The names of the features, if they were set.
    pub fn get_feature_names(&self) -> (names: Option<&Vec<String>>)
        ensures
            match names {
                Some(n) => self@.feature_names == Some(n@),
                None => self@.feature_names.is_none(),
            },
    {
        self.feature_names.as_ref()
    }

    /// The name of the target, if it was set.
    pub fn get_target_name(&self) -> (name: Option<&String>)
        ensures
            match name {
                Some(n) => self@.target_name == Some(*n),
                None => self@.target_name.is_none(),
            },
    {
        self.target_name.as_ref()
    }

    /// Replaces the feature table. Refused with `DimensionMismatch`, and
    /// nothing changed, if the new table has another number of rows than there
    /// are targets, or another number of columns than there are feature names.
    pub fn set_features(&mut self, features: Matrix<T>) -> (result: Result<(), Error>)
        ensures
            final(self).wf(),
            match result {
                Ok(()) => {
                    &&& old(self)@.targets matches Some(t) ==> t.len() == features.spec_nrows()
                    &&& old(self)@.feature_names matches Some(names) ==> names.len() == features.spec_ncols()
                    &&& final(self)@ == (DatasetView {
                        features: features@,
                        n_features: features.spec_ncols(),
                        ..old(self)@
                    })
                },
                Err(e) => {
                    &&& final(self)@ == old(self)@
                    &&& match old(self)@.targets {
                        Some(t) if t.len() != features.spec_nrows() => e == (Error::DimensionMismatch {
                            expected: t.len() as usize,
                            actual: features.spec_nrows() as usize,
                        }),
                        _ => {
                            &&& old(self)@.feature_names matches Some(names)
                            &&& names.len() != features.spec_ncols()
                            &&& e == (Error::DimensionMismatch {
                                expected: names.len() as usize,
                                actual: features.spec_ncols() as usize,
                            })
                        },
                    }
                },
            },
    {
        proof {
            use_type_invariant(&*self);
            use_type_invariant(&features);
        }
        match &self.targets {
            Some(t) => {
                if t.len() != features.nrows() {
                    return Err(Error::DimensionMismatch { expected: t.len(), actual: features.nrows() });
                }
            },
            None => {},
        }
        match &self.feature_names {
            Some(names) => {
                if names.len() != features.ncols() {
                    return Err(Error::DimensionMismatch { expected: names.len(), actual: features.ncols() });
                }
            },
            None => {},
        }
        self.features = features;
        Ok(())
    }
}

/// The leading part of `order` that goes to training when `n_test` samples
/// are held out.
pub open spec fn train_part(order: Seq<usize>, n_test: nat) -> Seq<usize> {
    order.subrange(0, order.len() - n_test)
}

/// The trailing `n_test` indices of `order`, which are held out for testing.
pub open spec fn test_part(order: Seq<usize>, n_test: nat) -> Seq<usize> {
    order.subrange(order.len() - n_test, order.len() as int)
}

/// The training and test indices that a split of `n` samples gives, or the
/// reason why the test size is refused.
pub open spec fn split_indices(n: nat, test_size: Fraction, seed: u64) -> Result<
    (Seq<usize>, Seq<usize>),
    Error,
> {
    if test_size.is_proper() {
        let n_test = share(n, test_size.spec_bits());
        let order = seeded_order(n, seed);
        Ok((train_part(order, n_test), test_part(order, n_test)))
    } else {
        Err(Error::InvalidParameter(Parameter::TestSize { bits: test_size.spec_bits() }))
    }
}

/// The training and the test dataset that a split of `data` gives, or the
/// reason why the test size is refused.
pub open spec fn split_datasets<T>(data: DatasetView<T>, test_size: Fraction, seed: u64) -> Result<
    (DatasetView<T>, DatasetView<T>),
    Error,
> {
    match split_indices(data.n_samples(), test_size, seed) {
        Ok((train, test)) => Ok((data.select(train), data.select(test))),
        Err(e) => Err(e),
    }
}

/// The two parts of a split hold every sample index exactly once.
///
/// For an order that holds every index below `n` once, of which the last
/// `n_test` are held out: the parts have `n` indices together, no index is in
/// both, and every index below `n` is in one of them.
pub proof fn lemma_split_parts_partition(order: Seq<usize>, n_test: nat)
    requires
        order.len() <= usize::MAX,
        is_permutation(order, order.len()),
        n_test <= order.len(),
    ensures
        train_part(order, n_test).len() + test_part(order, n_test).len() == order.len(),
        test_part(order, n_test).len() == n_test,
        train_part(order, n_test).disjoint(test_part(order, n_test)),
        forall|v: usize|
            v < order.len() ==> (#[trigger] train_part(order, n_test).contains(v) <==> !test_part(
                order,
                n_test,
            ).contains(v)),
        all_below(train_part(order, n_test), order.len()),
        all_below(test_part(order, n_test), order.len()),
{
    let n = order.len();
    let cut = n - n_test;
    let train = train_part(order, n_test);
    let test = test_part(order, n_test);
    lemma_permutation_covers(order, n);
    assert forall|v: usize| v < n implies (#[trigger] train.contains(v) <==> !test.contains(v)) by {
        assert(order.contains(v));
        let p = choose|p: int| 0 <= p < order.len() && order[p] == v;
        if p < cut {
            assert(train[p] == v);
            if test.contains(v) {
                let t = choose|t: int| 0 <= t < test.len() && test[t] == v;
                assert(test[t] == order[t + cut]);
                assert(false);
            }
        } else {
            assert(test[p - cut] == v);
            if train.contains(v) {
                let t = choose|t: int| 0 <= t < train.len() && train[t] == v;
                assert(train[t] == order[t]);
                assert(false);
            }
        }
    }
}

/// A split depends on the dataset, the test size and the seed alone: two
/// splits of datasets that hold the same, with the same test size and the
/// same seed, give the same training and the same test dataset; and the
/// sample indices that go to each part depend on the number of samples only.
pub proof fn lemma_split_is_repeatable<T>(
    first: DatasetView<T>,
    second: DatasetView<T>,
    test_size: Fraction,
    seed: u64,
)
    ensures
        first.n_samples() == second.n_samples() ==> split_indices(first.n_samples(), test_size, seed)
            == split_indices(second.n_samples(), test_size, seed),
        first == second ==> split_datasets(first, test_size, seed) == split_datasets(second, test_size, seed),
{
}

/// Divides the indices below `n_samples` into a training and a test part.
///
/// The test part has `share(n_samples, test_size)` indices: the last ones of
/// the order that `seed` gives. The parts have no index in common and hold
/// every index between them. A test size that is not strictly between 0 and
/// 1 is refused with `InvalidParameter`.
pub fn train_test_indices(n_samples: usize, test_size: Fraction, seed: u64) -> (result: Result<
    (Vec<usize>, Vec<usize>),
    Error,
>)
    ensures
        match result {
            Ok((train, test)) => split_indices(n_samples as nat, test_size, seed) == Ok::<
                (Seq<usize>, Seq<usize>),
                Error,
            >((train@, test@)),
            Err(e) => split_indices(n_samples as nat, test_size, seed) == Err::<(Seq<usize>, Seq<usize>), Error>(e),
        },
        result matches Ok((train, test)) ==> {
            &&& test@.len() == share(n_samples as nat, test_size.spec_bits())
            &&& train@.len() + test@.len() == n_samples
            &&& train@.disjoint(test@)
            &&& is_permutation(train@ + test@, n_samples as nat)
        },
{
    if !test_size.is_between_zero_and_one() {
        return Err(Error::InvalidParameter(Parameter::TestSize { bits: test_size.to_bits() }));
    }
    let n_test: usize = test_size.share_of(n_samples);
    let n_train: usize = n_samples - n_test;
    let order = seeded_indices(n_samples, seed);
    let train = copy_range(&order, 0, n_train);
    let test = copy_range(&order, n_train, n_samples);
    assert(train@ + test@ =~= order@);
    assert forall|i: int, j: int| 0 <= i < train@.len() && 0 <= j < test@.len() implies train@[i] != test@[j] by {
        assert(train@[i] == order@[i] && test@[j] == order@[n_train + j]);
    }
    Ok((train, test))
}

impl<T: Copy> Dataset<T> {
    /// A new dataset made of the samples that `indices` names, in that order,
    /// with copies of the labels. A sample may be named more than once.
    pub fn select_samples(&self, indices: &Vec<usize>) -> (selected: Self)
        requires
            all_below(indices@, self@.n_samples()),
        ensures
            selected.wf(),
            selected@ == self@.select(indices@),
    {
        proof {
            use_type_invariant(self);
        }
        let features = self.features.select_rows(indices);
        let targets: Option<Vec<T>> = match &self.targets {
            Some(t) => Some(select_cells(t, indices)),
            None => None,
        };
        let feature_names: Option<Vec<String>> = match &self.feature_names {
            Some(names) => Some(copy_names(names)),
            None => None,
        };
        let target_name: Option<String> = match &self.target_name {
            Some(name) => Some(name.clone()),
            None => None,
        };
        Dataset { features, targets, feature_names, target_name }
    }

    /// Divides the dataset into a training and a test dataset.
    ///
    /// The test dataset holds `share(n, test_size)` of the `n` samples: those
    /// that come last in the order that `random_seed` gives to the samples;
    /// the training dataset holds the others, in that order. Both keep the
    /// labels. A test size that is not strictly between 0 and 1 is refused
    /// with `InvalidParameter`.
    pub fn train_test_split(&self, test_size: Fraction, random_seed: u64) -> (result: Result<
        (Dataset<T>, Dataset<T>),
        Error,
    >)
        ensures
            match result {
                Ok((train, test)) => {
                    &&& train.wf()
                    &&& test.wf()
                    &&& split_datasets(self@, test_size, random_seed) == Ok::<
                        (DatasetView<T>, DatasetView<T>),
                        Error,
                    >((train@, test@))
                    &&& test@.n_samples() == share(self@.n_samples(), test_size.spec_bits())
                    &&& train@.n_samples() + test@.n_samples() == self@.n_samples()
                },
                Err(e) => split_datasets(self@, test_size, random_seed) == Err::<
                    (DatasetView<T>, DatasetView<T>),
                    Error,
                >(e),
            },
    {
        match train_test_indices(self.n_samples(), test_size, random_seed) {
            Ok((train_indices, test_indices)) => {
                assert(all_below(train_indices@, self@.n_samples())) by {
                    assert forall|k: int| 0 <= k < train_indices@.len() implies (
                    #[trigger] train_indices@[k]) < self@.n_samples() by {
                        assert((train_indices@ + test_indices@)[k] == train_indices@[k]);
                    }
                }
                assert(all_below(test_indices@, self@.n_samples())) by {
                    assert forall|k: int| 0 <= k < test_indices@.len() implies (
                    #[trigger] test_indices@[k]) < self@.n_samples() by {
                        assert((train_indices@ + test_indices@)[train_indices@.len() + k] == test_indices@[k]);
                    }
                }
                let train = self.select_samples(&train_indices);
                let test = self.select_samples(&test_indices);
                Ok((train, test))
            },
            Err(e) => Err(e),
        }
    }
}

impl<T: Copy> Clone for Dataset<T> {
    /// A copy of the dataset that shares nothing with it.
    fn clone(&self) -> (copy: Self)
        ensures
            copy.wf(),
            copy@ == self@,
    {
        proof {
            use_type_invariant(self);
        }
        let features = self.features.clone();
        let targets: Option<Vec<T>> = match &self.targets {
            Some(t) => Some(copy_cells(t)),
            None => None,
        };
        let feature_names: Option<Vec<String>> = match &self.feature_names {
            Some(names) => Some(copy_names(names)),
            None => None,
        };
        let target_name: Option<String> = match &self.target_name {
            Some(name) => Some(name.clone()),
            None => None,
        };
        Dataset { features, targets, feature_names, target_name }
    }
}

/// Divides `dataset` into a training and a test dataset, as
/// `Dataset::train_test_split` does, with the seed 42 where none is given.
pub fn train_test_split<T: Copy>(dataset: &Dataset<T>, test_size: Fraction, random_seed: Option<u64>) -> (result:
    Result<(Dataset<T>, Dataset<T>), Error>)
    ensures
        match result {
            Ok((train, test)) => {
                &&& train.wf()
                &&& test.wf()
                &&& split_datasets(dataset@, test_size, seed_or_default(random_seed)) == Ok::<
                    (DatasetView<T>, DatasetView<T>),
                    Error,
                >((train@, test@))
                &&& test@.n_samples() == share(dataset@.n_samples(), test_size.spec_bits())
                &&& train@.n_samples() + test@.n_samples() == dataset@.n_samples()
            },
            Err(e) => split_datasets(dataset@, test_size, seed_or_default(random_seed)) == Err::<
                (DatasetView<T>, DatasetView<T>),
                Error,
            >(e),
        },
{
    let seed: u64 = match random_seed {
        Some(seed) => seed,
        None => DEFAULT_SEED,
    };
    dataset.train_test_split(test_size, seed)
}

/// The seed that is used: the one given, or 42.
pub open spec fn seed_or_default(random_seed: Option<u64>) -> u64 {
    match random_seed {
        Some(seed) => seed,
        None => DEFAULT_SEED,
    }
}

/// The cells of `cells` that `indices` names, in the order of `indices`.
pub(crate) fn select_cells<T: Copy>(cells: &Vec<T>, indices: &Vec<usize>) -> (selected: Vec<T>)
    requires
        all_below(indices@, cells@.len()),
    ensures
        selected@ == select_seq(cells@, indices@),
{
    let mut selected: Vec<T> = Vec::new();
    let mut k: usize = 0;
    while k < indices.len()
        invariant
            0 <= k <= indices@.len(),
            all_below(indices@, cells@.len()),
            selected@.len() == k,
            forall|r: int| 0 <= r < k ==> selected@[r] == cells@[indices@[r] as int],
        decreases indices@.len() - k,
    {
        selected.push(cells[indices[k]]);
        k = k + 1;
    }
    assert(selected@ =~= select_seq(cells@, indices@));
    selected
}

/// A copy of a list of names.
pub(crate) fn copy_names(names: &Vec<String>) -> (copy: Vec<String>)
    ensures
        copy@ == names@,
{
    let mut copy: Vec<String> = Vec::new();
    let mut i: usize = 0;
    while i < names.len()
        invariant
            0 <= i <= names@.len(),
            copy@ == names@.subrange(0, i as int),
        decreases names@.len() - i,
    {
        copy.push(names[i].clone());
        i = i + 1;
        assert(copy@ =~= names@.subrange(0, i as int));
    }
    assert(names@.subrange(0, i as int) =~= names@);
    copy
}

/// A copy of the items of `items` from position `from` up to `to`.
pub(crate) fn copy_range(items: &Vec<usize>, from: usize, to: usize) -> (part: Vec<usize>)
    requires
        from <= to <= items@.len(),
    ensures
        part@ == items@.subrange(from as int, to as int),
{
    let mut part: Vec<usize> = Vec::new();
    let mut i: usize = from;
    while i < to
        invariant
            from <= i <= to <= items@.len(),
            part@ == items@.subrange(from as int, i as int),
        decreases to - i,
    {
        part.push(items[i]);
        i = i + 1;
        assert(part@ =~= items@.subrange(from as int, i as int));
    }
    part
}

} // verus!
