use vstd::prelude::*;

verus! {

/// How a utility reasoner chooses among scored actions: the single highest
/// score (first occurrence winning ties), a score-weighted random draw, or
/// a uniform draw among the `n` best.
#[derive(Clone, Debug, PartialEq, Eq, Structural)]
pub enum SelectionMethod {
    HighestScore,
    WeightedRandom,
    TopN(usize),
}

} // verus!
