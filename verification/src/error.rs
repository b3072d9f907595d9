use vstd::prelude::*;

verus! {

/// Structural faults a tree description can exhibit.
#[derive(Clone, Debug, PartialEq, Eq, Structural)]
pub enum TreeError {
    EmptyComposite,
    MaxDepthExceeded(usize),
    WeightCountMismatch { children: usize, weights: usize },
    UtilityIdCountMismatch { children: usize, ids: usize },
    UnbalancedBuilder(usize),
}

} // verus!
