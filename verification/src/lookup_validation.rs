//! The part of an AIR's layout that the lookup self-check consumes.
use vstd::prelude::*;

verus! {

/// Widths and counts of an AIR's trace and permutation columns, as the lookup self-check reads
/// them.
#[derive(Debug, Clone, Copy, PartialEq, Eq, Structural)]
pub struct ValidateLayout {
    pub preprocessed_width: usize,
    pub trace_width: usize,
    pub num_public_values: usize,
    pub num_periodic_columns: usize,
    pub permutation_width: usize,
    pub num_permutation_challenges: usize,
    pub num_permutation_values: usize,
}

} // verus!
