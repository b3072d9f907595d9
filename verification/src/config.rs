use vstd::prelude::*;

verus! {

/// Tuning knobs a host may consult when building or running trees.
#[derive(Clone, Debug)]
pub struct TreeConfig {
    pub max_depth: usize,
    pub max_ticks_per_frame: usize,
}

impl Default for TreeConfig {
    fn default() -> (r: Self)
        ensures
            r.max_depth == 64,
            r.max_ticks_per_frame == 10000,
    {
        Self { max_depth: 64, max_ticks_per_frame: 10000 }
    }
}

} // verus!
