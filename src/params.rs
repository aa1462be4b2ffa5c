//! Parameters of an evaluation request.

use crate::dto::InputNodeDto;
use vstd::prelude::*;

verus! {

/// Parameters for evaluating an invocable.
#[derive(Debug)]
pub struct EvaluateParams {
    /// Path to the invocable to be evaluated.
    pub invocable_path: String,
    /// Input values.
    pub input_values: Vec<InputNodeDto>,
}

} // verus!
