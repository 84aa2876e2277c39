use vstd::prelude::*;

verus! {

/// Whether an optimization pass changed anything.
#[derive(Debug, Clone, Copy, PartialEq, Eq, Structural)]
pub enum OptimizationResult {
    Unchanged,
    Changed,
}

impl OptimizationResult {
    pub fn is_changed(&self) -> (r: bool)
        ensures
            r == (*self == OptimizationResult::Changed),
    {
        *self == OptimizationResult::Changed
    }

    /// Changed when either is.
    pub fn or(&self, other: &OptimizationResult) -> (r: OptimizationResult)
        ensures
            r == (if *self == OptimizationResult::Changed || *other == OptimizationResult::Changed {
                OptimizationResult::Changed
            } else {
                OptimizationResult::Unchanged
            }),
    {
        if self.is_changed() || other.is_changed() {
            OptimizationResult::Changed
        } else {
            OptimizationResult::Unchanged
        }
    }
}

} // verus!
