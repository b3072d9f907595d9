use vstd::prelude::*;

verus! {

/// The decorator kinds a `BehaviorNode::Decorator` can carry. Each wraps a
/// single child and reshapes its status or gates when the child is ticked.
#[derive(Clone, Debug, PartialEq, Eq, Structural)]
pub enum Decorator {
    Inverter,
    Repeat(u32),
    Retry(u32),
    Cooldown(u32),
    Guard(u32),
    UntilSuccess,
    UntilFail,
    Timeout(u32),
    ForceSuccess,
    ForceFailure,
}

} // verus!
