//! Configuration of a run.

use vstd::prelude::*;

verus! {

/// Runner configuration parameters.
#[derive(Debug)]
pub struct ConfigurationParams {
    /// Path to the directory holding the test cases.
    pub test_cases_dir_path: String,
    /// Pattern that the names of the files to process match.
    pub file_search_pattern: String,
    /// URL of the service that evaluates model definitions.
    pub evaluate_url: String,
    /// Path of the per-test report.
    pub report_file: String,
    /// Path of the per-test-case report.
    pub tck_report_file: String,
    /// Whether testing stops at the first failure.
    pub stop_on_failure: bool,
}

} // verus!
