use vstd::prelude::*;

use crate::context::Context;
use crate::status::Status;

verus! {

/// Client-supplied behaviour for `Action` leaves. `execute` may read and
/// write the blackboard through the context and may pace itself over several
/// ticks by returning `Running`.
pub trait ActionHandler<A> {
    fn execute(&mut self, action: &A, ctx: &mut Context) -> Status;
}

/// Client-supplied behaviour for `Condition` leaves. `check` sees the
/// context read-only and must not mutate observable state.
pub trait ConditionHandler<C> {
    fn check(&self, condition: &C, ctx: &Context) -> bool;
}

} // verus!
