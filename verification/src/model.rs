//! The interface of a model that is fitted to a dataset and then predicts,
//! and the parameters that configure one.

use vstd::prelude::*;
use crate::dataset::{Dataset, DatasetView};
use crate::error::Error;
use crate::matrix::Matrix;

verus! {

/// The value of a parameter.
#[derive(Debug)]
pub enum ParamValue<T> {
    /// A real number, of the type of the cells of a table.
    Float(T),
    /// A whole number.
    Int(i64),
    /// A switch.
    Bool(bool),
    /// A text.
    String(String),
}

impl<T: Copy> Clone for ParamValue<T> {
    /// A copy of the value.
    fn clone(&self) -> (copy: Self)
        ensures
            copy == *self,
    {
        match self {
            ParamValue::Float(x) => ParamValue::Float(*x),
            ParamValue::Int(i) => ParamValue::Int(*i),
            ParamValue::Bool(b) => ParamValue::Bool(*b),
            ParamValue::String(s) => ParamValue::String(s.clone()),
        }
    }
}

/// The parameters of a model: a value for each of some names. The order in
/// which they were set does not matter.
#[derive(Debug)]
pub struct ModelParameters<T> {
    entries: Vec<(String, ParamValue<T>)>,
}

/// Some entry of `entries` has the name `key`.
pub open spec fn has_key<T>(entries: Seq<(String, ParamValue<T>)>, key: Seq<char>) -> bool {
    exists|i: int| 0 <= i < entries.len() && (#[trigger] entries[i]).0@ == key
}

/// The position of an entry of `entries` with the name `key`.
pub open spec fn position_of<T>(entries: Seq<(String, ParamValue<T>)>, key: Seq<char>) -> int {
    choose|i: int| 0 <= i < entries.len() && (#[trigger] entries[i]).0@ == key
}

impl<T> View for ModelParameters<T> {
    type V = Map<Seq<char>, ParamValue<T>>;

    /// The value of each name that has one.
    closed spec fn view(&self) -> Map<Seq<char>, ParamValue<T>> {
        Map::new(
            |key: Seq<char>| has_key(self.entries@, key),
            |key: Seq<char>| self.entries@[position_of(self.entries@, key)].1,
        )
    }
}

impl<T> ModelParameters<T> {
    /// No name occurs twice.
    #[verifier::type_invariant]
    pub closed spec fn wf(&self) -> bool {
        forall|i: int, j: int|
            0 <= i < j < self.entries@.len() ==> (#[trigger] self.entries@[i]).0@ != (#[trigger] self.entries@[j]).0@
    }

    /// No parameters.
    pub fn new() -> (parameters: Self)
        ensures
            parameters.wf(),
            parameters@ == Map::<Seq<char>, ParamValue<T>>::empty(),
    {
        let parameters = ModelParameters { entries: Vec::new() };
        assert(parameters@ =~= Map::<Seq<char>, ParamValue<T>>::empty());
        parameters
    }

    /// Gives the parameter `key` the value `value`, in place of the value
    /// that it had, if it had one.
    pub fn set(&mut self, key: &str, value: ParamValue<T>)
        ensures
            final(self).wf(),
            final(self)@ == old(self)@.insert(key@, value),
    {
        proof {
            use_type_invariant(&*self);
        }
        let name: String = key.to_string();
        let ghost before = self.entries@;
        let mut i: usize = 0;
        while i < self.entries.len() && self.entries[i].0 != name
            invariant
                0 <= i <= self.entries@.len(),
                name@ == key@,
                self.entries@ == before,
                forall|r: int| 0 <= r < i ==> (#[trigger] before[r]).0@ != key@,
            decreases self.entries@.len() - i,
        {
            i = i + 1;
        }
        let mut entries: Vec<(String, ParamValue<T>)> = Vec::new();
        std::mem::swap(&mut entries, &mut self.entries);
        if i < entries.len() {
            entries.set(i, (name, value));
        } else {
            entries.push((name, value));
        }
        let ghost after = entries@;
        let ghost at = i as int;
        proof {
            assert(after[at].0@ == key@ && after[at].1 == value);
            assert forall|r: int| 0 <= r < after.len() && r != at implies #[trigger] after[r] == before[r] by {}
            assert forall|a: int, b: int| 0 <= a < b < after.len() implies (#[trigger] after[a]).0@ != (
            #[trigger] after[b]).0@ by {
                if a != at && b != at {
                    assert(before[a].0@ != before[b].0@);
                } else if at < before.len() {
                    if a == at {
                        assert(before[at].0@ != before[b].0@);
                    } else {
                        assert(before[a].0@ != before[at].0@);
                    }
                }
            }
        }
        self.entries = entries;
        proof {
            assert forall|k: Seq<char>| #[trigger] has_key(after, k) <==> (k == key@ || has_key(before, k)) by {
                if has_key(after, k) && k != key@ {
                    let r = choose|r: int| 0 <= r < after.len() && (#[trigger] after[r]).0@ == k;
                    assert(before[r].0@ == k);
                }
                if k != key@ && has_key(before, k) {
                    let r = choose|r: int| 0 <= r < before.len() && (#[trigger] before[r]).0@ == k;
                    assert(after[r].0@ == k);
                }
            }
            assert forall|k: Seq<char>| has_key(after, k) implies #[trigger] self@[k] == old(self)@.insert(
                key@,
                value,
            )[k] by {
                let p = position_of(after, k);
                assert(after[p].0@ == k);
                if k == key@ {
                    if p < at {
                        assert(after[p].0@ != after[at].0@);
                    }
                    if at < p {
                        assert(after[at].0@ != after[p].0@);
                    }
                } else {
                    let q = position_of(before, k);
                    assert(before[p].0@ == k);
                    assert(before[q].0@ == k);
                    if p < q {
                        assert(before[p].0@ != before[q].0@);
                    }
                    if q < p {
                        assert(before[q].0@ != before[p].0@);
                    }
                }
            }
            assert(self@ =~= old(self)@.insert(key@, value));
        }
    }

    /// The value of the parameter `key`, if it has one.
    pub fn get(&self, key: &str) -> (value: Option<&ParamValue<T>>)
        ensures
            match value {
                Some(v) => self@.contains_key(key@) && *v == self@[key@],
                None => !self@.contains_key(key@),
            },
    {
        proof {
            use_type_invariant(self);
        }
        let name: String = key.to_string();
        let mut i: usize = 0;
        while i < self.entries.len()
            invariant
                0 <= i <= self.entries@.len(),
                name@ == key@,
                self.wf(),
                forall|r: int| 0 <= r < i ==> (#[trigger] self.entries@[r]).0@ != key@,
            decreases self.entries@.len() - i,
        {
            if self.entries[i].0 == name {
                proof {
                    let p = position_of(self.entries@, key@);
                    assert(self.entries@[i as int].0@ == key@);
                    assert(has_key(self.entries@, key@));
                    if p < i {
                        assert(self.entries@[p].0@ != self.entries@[i as int].0@);
                    }
                    if i < p {
                        assert(self.entries@[i as int].0@ != self.entries@[p].0@);
                    }
                }
                return Some(&self.entries[i].1);
            }
            i = i + 1;
        }
        None
    }
}

impl<T: Copy> Clone for ModelParameters<T> {
    /// A copy of the parameters.
    fn clone(&self) -> (copy: Self)
        ensures
            copy.wf(),
            copy@ == self@,
    {
        proof {
            use_type_invariant(self);
        }
        let mut entries: Vec<(String, ParamValue<T>)> = Vec::new();
        let mut i: usize = 0;
        while i < self.entries.len()
            invariant
                0 <= i <= self.entries@.len(),
                entries@ == self.entries@.subrange(0, i as int),
            decreases self.entries@.len() - i,
        {
            let name: String = self.entries[i].0.clone();
            let value: ParamValue<T> = self.entries[i].1.clone();
            entries.push((name, value));
            i = i + 1;
            assert(entries@ =~= self.entries@.subrange(0, i as int));
        }
        assert(entries@ =~= self.entries@);
        ModelParameters { entries }
    }
}

impl<T> Default for ModelParameters<T> {
    fn default() -> (parameters: Self)
        ensures
            parameters@ == Map::<Seq<char>, ParamValue<T>>::empty(),
    {
        ModelParameters::new()
    }
}

/// A model that learns from a dataset and predicts a target for each row of
/// a feature table.
///
/// An implementation says what its `fit` and `predict` achieve by giving
/// `fit_outcome` and `predict_outcome` a body; left as they are, they say
/// nothing. Code that is generic over estimators states its own results in
/// terms of these two relations.
pub trait Estimator<T>: Clone {
    /// Holds of a model after `fit`, the model `before` it, the dataset that
    /// was handed to it and the outcome that it returned.
    open spec fn fit_outcome(&self, before: Self, dataset: DatasetView<T>, outcome: Result<(), Error>) -> bool {
        true
    }

    /// Holds of a model, the feature table that was handed to `predict` and
    /// the outcome that it returned.
    open spec fn predict_outcome(&self, features: Matrix<T>, outcome: Result<Vec<T>, Error>) -> bool {
        true
    }

    /// Fits the model to `dataset`, replacing what an earlier fit left.
    fn fit(&mut self, dataset: &Dataset<T>) -> (outcome: Result<(), Error>)
        ensures
            final(self).fit_outcome(*old(self), dataset@, outcome),
    ;

    /// Predicts a target for each row of `features`.
    fn predict(&self, features: &Matrix<T>) -> (outcome: Result<Vec<T>, Error>)
        ensures
            self.predict_outcome(*features, outcome),
    ;

    /// The parameters of the model.
    fn get_params(&self) -> &ModelParameters<T>;

    /// Replaces the parameters of the model.
    fn set_params(&mut self, params: ModelParameters<T>) -> Result<(), Error>;
}

/// What `check_predictions` returns for the predictions that were computed
/// for `n_rows` rows.
pub open spec fn predictions_outcome<T>(predictions: Vec<T>, n_rows: nat) -> Result<Vec<T>, Error> {
    if predictions@.len() == n_rows {
        Ok(predictions)
    } else {
        Err(Error::DimensionMismatch { expected: n_rows as usize, actual: predictions@.len() as usize })
    }
}

/// Takes the predictions that were computed for `n_rows` rows: they are
/// returned if there is one for each row, and else refused with
/// `DimensionMismatch`.
pub fn check_predictions<T>(predictions: Vec<T>, n_rows: usize) -> (result: Result<Vec<T>, Error>)
    ensures
        result == predictions_outcome(predictions, n_rows as nat),
{
    if predictions.len() == n_rows {
        Ok(predictions)
    } else {
        Err(Error::DimensionMismatch { expected: n_rows, actual: predictions.len() })
    }
}

} // verus!
