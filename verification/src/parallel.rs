use vstd::prelude::*;

verus! {

/// How a `Parallel` composite resolves the statuses of its children.
#[derive(Copy, Clone, Debug, PartialEq, Eq, Structural)]
pub enum ParallelPolicy {
    RequireAll,
    RequireOne,
    RequireN(usize),
}

} // verus!
