//! Settings of the monitor's leak classifier.

use vstd::prelude::*;

verus! {

/// The forest the monitor's leak classifier fits.
#[derive(Debug, Clone, Copy, PartialEq, Eq, Structural)]
pub struct RandomForestConfig {
    pub n_trees: usize,
    pub max_depth: Option<usize>,
    pub min_samples_split: usize,
}

impl Default for RandomForestConfig {
    fn default() -> (r: Self)
        ensures
            r.n_trees == 200,
            r.max_depth == Some(12usize),
            r.min_samples_split == 4,
    {
        RandomForestConfig { n_trees: 200, max_depth: Some(12), min_samples_split: 4 }
    }
}

} // verus!
