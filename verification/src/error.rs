//! The failures that the toolkit reports.

use vstd::prelude::*;

verus! {

/// The parameter that was out of range, with the values that show why.
#[derive(Clone, Copy, Debug, PartialEq, Eq, Structural)]
pub enum Parameter {
    /// A test size that is not strictly between 0 and 1, as the encoding that was given.
    TestSize { bits: u64 },
    /// A fold count that is not above 1 or exceeds the sample count.
    NSplits { n_splits: usize, n_samples: usize },
    /// A list of feature names whose length is not the number of features.
    FeatureNames { names: usize, features: usize },
}

/// Why an operation of the toolkit failed.
#[derive(Clone, Copy, Debug, PartialEq, Eq, Structural)]
pub enum Error {
    /// A parameter is outside the range that the operation accepts.
    InvalidParameter(Parameter),
    /// The operation needs target values and the dataset has none.
    MissingTarget,
    /// A model or scaler was used before it was fitted.
    NotFitted,
    /// The normal equations have no solution.
    SingularSystem,
    /// Two shapes that must agree do not.
    DimensionMismatch { expected: usize, actual: usize },
}

impl Error {
    /// The text of the message for each kind of failure.
    pub open spec fn spec_message(self) -> Seq<char> {
        match self {
            Error::InvalidParameter(Parameter::TestSize { .. }) => "test_size must be between 0 and 1"@,
            Error::InvalidParameter(Parameter::NSplits { .. }) =>
                "n_splits must be greater than 1 and at most the number of samples"@,
            Error::InvalidParameter(Parameter::FeatureNames { .. }) =>
                "Number of feature names must match number of features"@,
            Error::MissingTarget => "No target values provided."@,
            Error::NotFitted => "Model has not been fitted."@,
            Error::SingularSystem => "Failed to solve linear system"@,
            Error::DimensionMismatch { .. } => "Dimensions do not match"@,
        }
    }

    /// A short description of the failure, for display.
    pub fn message(&self) -> (text: String)
        ensures
            text@ == self.spec_message(),
    {
        match self {
            Error::InvalidParameter(Parameter::TestSize { .. }) => "test_size must be between 0 and 1".to_string(),
            Error::InvalidParameter(Parameter::NSplits { .. }) =>
                "n_splits must be greater than 1 and at most the number of samples".to_string(),
            Error::InvalidParameter(Parameter::FeatureNames { .. }) =>
                "Number of feature names must match number of features".to_string(),
            Error::MissingTarget => "No target values provided.".to_string(),
            Error::NotFitted => "Model has not been fitted.".to_string(),
            Error::SingularSystem => "Failed to solve linear system".to_string(),
            Error::DimensionMismatch { .. } => "Dimensions do not match".to_string(),
        }
    }
}

} // verus!
