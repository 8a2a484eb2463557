//! The scalar configuration the dataset pipeline consumes: split sizes,
//! sequence length, the generator budgets, and where the finished rows go.

use vstd::prelude::*;

verus! {

/// Configuration of one dataset run. `db_path` names the sink the finished
/// rows are written to.
#[derive(Debug, Clone)]
pub struct DatasetConfig {
    pub train_samples_count: usize,
    pub valid_samples_count: usize,
    pub test_samples_count: usize,
    pub max_seq_length: usize,
    pub max_variables: usize,
    pub max_depth: usize,
    pub db_path: String,
}

} // verus!
