//! A small machine-learning toolkit: tabular datasets, reproducible
//! train/test and k-fold splitting, cross-validation, and the bookkeeping of
//! an ordinary-least-squares model and of a standard scaler.
//!
//! The toolkit does no arithmetic on the cells of a table: it stores, copies
//! and rearranges them, and calls the functions that it is handed for the
//! rest. The type of a cell is therefore left open.

pub mod dataset;
pub mod error;
pub mod fraction;
pub mod linear_models;
pub mod matrix;
pub mod model;
pub mod model_selection;
pub mod permutation;
pub mod preprocessing;

pub use dataset::{train_test_split, Dataset};
pub use error::{Error, Parameter};
pub use fraction::Fraction;
pub use linear_models::LinearRegression;
pub use matrix::Matrix;
pub use model::{Estimator, ModelParameters, ParamValue};
pub use model_selection::{cross_val_score, KFold};
pub use preprocessing::StandardScaler;
