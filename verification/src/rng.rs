use vstd::prelude::*;

verus! {

/// A minimal source of randomness. The engine consumes only whole `u32`
/// draws; determinism of tree outcomes follows determinism of this source.
/// `can_draw` says whether the source serves draws at all: the evaluator
/// requires it wherever the tree holds a node that may draw, so taking a
/// random path without a real source is a programming error — rejected by
/// the verifier for verified callers, and failing fast at run time for
/// callers outside its reach.
pub trait RngSource {
    /// Whether this source serves draws.
    spec fn can_draw(&self) -> bool;

    /// Draw one `u32`; drawing never exhausts the source.
    fn next_u32(&mut self) -> (r: u32)
        requires
            old(self).can_draw(),
        ensures
            final(self).can_draw(),
    ;
}

/// The absent source: it cannot draw, and a draw reached regardless —
/// possible only from outside the verifier's reach — panics.
pub struct NoRng;

impl RngSource for NoRng {
    open spec fn can_draw(&self) -> bool {
        false
    }

    fn next_u32(&mut self) -> (r: u32) {
        vstd::pervasive::unreached()
    }
}

} // verus!
