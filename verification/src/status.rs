use vstd::prelude::*;

verus! {

/// Result of ticking a behavior tree node. `Success` and `Failure` are
/// terminal for the tick that produced them; `Running` announces that the
/// node holds resumption state and intends to continue on the next tick.
#[derive(Copy, Clone, Debug, PartialEq, Eq, Hash, Structural)]
pub enum Status {
    Running,
    Success,
    Failure,
}

impl Status {
    /// What `invert` returns: `Success` and `Failure` swap, `Running` stays.
    pub open spec fn invert_spec(self) -> Status {
        match self {
            Status::Success => Status::Failure,
            Status::Failure => Status::Success,
            Status::Running => Status::Running,
        }
    }

    pub fn is_done(self) -> (r: bool)
        ensures
            r == (self != Status::Running),
    {
        !matches!(self, Status::Running)
    }

    pub fn is_success(self) -> (r: bool)
        ensures
            r == (self == Status::Success),
    {
        matches!(self, Status::Success)
    }

    pub fn is_failure(self) -> (r: bool)
        ensures
            r == (self == Status::Failure),
    {
        matches!(self, Status::Failure)
    }

    pub fn invert(self) -> (r: Status)
        ensures
            r == self.invert_spec(),
    {
        match self {
            Status::Success => Status::Failure,
            Status::Failure => Status::Success,
            Status::Running => Status::Running,
        }
    }
}

/// Inverting a status twice gives the status back, and `Running` is a fixed
/// point of inversion.
pub proof fn lemma_invert_involution(s: Status)
    ensures
        s.invert_spec().invert_spec() == s,
        Status::Running.invert_spec() == Status::Running,
{
}

} // verus!
