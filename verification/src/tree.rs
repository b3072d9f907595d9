use vstd::prelude::*;

use crate::blackboard::{Blackboard, BlackboardValue};
use crate::context::Context;
use crate::leaf::{ActionHandler, ConditionHandler};
use crate::node::BehaviorNode;
use crate::observer::Observer;
use crate::rng::{NoRng, RngSource};
use crate::status::Status;
use crate::tick::{assign_ids, frame_cleared, tick_effects, tick_node, NodeState};

verus! {

/// A behavior tree ready to run: it owns the root, the per-node state slab
/// addressed by pre-order id, the blackboard, and the tick counter.
pub struct BehaviorTree<A, C> {
    root: BehaviorNode<A, C>,
    states: Vec<NodeState>,
    blackboard: Blackboard,
    tick_count: u64,
}

impl<A, C> BehaviorTree<A, C> {
    /// The root node.
    pub closed spec fn spec_root(self) -> BehaviorNode<A, C> {
        self.root
    }

    /// The state slab, one record per pre-order id.
    pub closed spec fn spec_states(self) -> Seq<NodeState> {
        self.states@
    }

    /// The blackboard contents.
    pub closed spec fn spec_blackboard(self) -> Map<u32, BlackboardValue> {
        self.blackboard@
    }

    /// The tick counter.
    pub closed spec fn spec_tick_count(self) -> u64 {
        self.tick_count
    }

    /// The slab covers exactly the tree: one state record per node.
    pub closed spec fn wf(self) -> bool {
        self.states@.len() == self.root.size()
    }

    /// Build a tree over `root` with a fresh slab, an empty blackboard and
    /// the tick counter at zero.
    pub fn new(root: BehaviorNode<A, C>) -> (r: Self)
        requires
            root.size() <= usize::MAX,
        ensures
            r.wf(),
            r.spec_root() == root,
            r.spec_states().len() == root.size(),
            r.spec_tick_count() == 0,
            r.spec_blackboard() == Map::<u32, BlackboardValue>::empty(),
            frame_cleared(r.spec_states(), 0, r.spec_states().len() as int),
    {
        let node_count = assign_ids(&root);
        proof {
            root.lemma_size_pos();
        }
        let mut states: Vec<NodeState> = Vec::new();
        let mut i: usize = 0;
        while i < node_count
            invariant
                0 <= i <= node_count,
                states@.len() == i,
                frame_cleared(states@, 0, i as int),
            decreases node_count - i,
        {
            states.push(NodeState::default());
            i = i + 1;
        }
        BehaviorTree { root, states, blackboard: Blackboard::new(), tick_count: 0 }
    }

    /// One tick covering one simulation step, with no randomness on offer:
    /// the tree must then hold no random or weighted selector. The status
    /// and the new slab obey the evaluator's per-kind contract,
    /// `tick_effects`, applied to the root at id 0.
    pub fn tick<AH, CH, O>(
        &mut self,
        action_handler: &mut AH,
        condition_handler: &CH,
        observer: &mut O,
    ) -> (status: Status) where
        AH: ActionHandler<A>,
        CH: ConditionHandler<C>,
        O: Observer,

        requires
            old(self).wf(),
            !old(self).spec_root().uses_random(),
        ensures
            final(self).wf(),
            final(self).spec_root() == old(self).spec_root(),
            final(self).spec_states().len() == old(self).spec_states().len(),
            final(self).spec_tick_count() == (if old(self).spec_tick_count() + 1 > u64::MAX {
                u64::MAX
            } else {
                (old(self).spec_tick_count() + 1) as u64
            }),
            tick_effects(
                old(self).spec_root(),
                0,
                old(self).spec_states(),
                final(self).spec_states(),
                old(self).spec_blackboard(),
                1,
                status,
            ),
    {
        let mut rng = NoRng;
        self.tick_with(1, &mut rng, action_handler, condition_handler, observer)
    }

    /// One tick covering `delta_ticks` simulation steps: advance the tick
    /// counter (saturating), evaluate the root at id 0 against the
    /// blackboard and the given randomness source, and report its status.
    /// A tree holding a random or weighted selector needs a source that
    /// serves draws. The status and the new slab obey the evaluator's
    /// per-kind contract, `tick_effects`, applied to the root at id 0.
    pub fn tick_with<AH, CH, O, R>(
        &mut self,
        delta_ticks: u32,
        rng: &mut R,
        action_handler: &mut AH,
        condition_handler: &CH,
        observer: &mut O,
    ) -> (status: Status) where
        AH: ActionHandler<A>,
        CH: ConditionHandler<C>,
        O: Observer,
        R: RngSource,

        requires
            old(self).wf(),
            old(rng).can_draw() || !old(self).spec_root().uses_random(),
        ensures
            final(self).wf(),
            final(self).spec_root() == old(self).spec_root(),
            final(self).spec_states().len() == old(self).spec_states().len(),
            final(self).spec_tick_count() == (if old(self).spec_tick_count() + delta_ticks
                > u64::MAX {
                u64::MAX
            } else {
                (old(self).spec_tick_count() + delta_ticks) as u64
            }),
            tick_effects(
                old(self).spec_root(),
                0,
                old(self).spec_states(),
                final(self).spec_states(),
                old(self).spec_blackboard(),
                delta_ticks,
                status,
            ),
    {
        self.tick_count = self.tick_count.saturating_add(delta_ticks as u64);
        let mut ctx = Context::new(self.tick_count, delta_ticks, Blackboard::new());
        core::mem::swap(&mut self.blackboard, &mut ctx.blackboard);
        let status = tick_node(
            &self.root,
            0,
            &mut self.states,
            &mut ctx,
            rng,
            action_handler,
            condition_handler,
            observer,
        );
        core::mem::swap(&mut self.blackboard, &mut ctx.blackboard);
        status
    }

    /// The blackboard, for out-of-band reads.
    pub fn blackboard(&self) -> (r: &Blackboard)
        ensures
            r@ == self.spec_blackboard(),
    {
        &self.blackboard
    }

    /// The blackboard, for out-of-band writes and seeding.
    pub fn blackboard_mut(&mut self) -> (r: &mut Blackboard)
        ensures
            r@ == old(self).spec_blackboard(),
            final(self).spec_blackboard() == final(r)@,
            final(self).spec_root() == old(self).spec_root(),
            final(self).spec_states() == old(self).spec_states(),
            final(self).spec_tick_count() == old(self).spec_tick_count(),
            old(self).wf() ==> final(self).wf(),
    {
        &mut self.blackboard
    }

    /// Clear every state record and the tick counter; the blackboard stays.
    pub fn reset(&mut self)
        ensures
            final(self).spec_root() == old(self).spec_root(),
            final(self).spec_blackboard() == old(self).spec_blackboard(),
            final(self).spec_tick_count() == 0,
            final(self).spec_states().len() == old(self).spec_states().len(),
            frame_cleared(final(self).spec_states(), 0, final(self).spec_states().len() as int),
            old(self).wf() ==> final(self).wf(),
    {
        let n = self.states.len();
        let mut i: usize = 0;
        while i < n
            invariant
                0 <= i <= n,
                n == self.states.len(),
                self.states@.len() == old(self).states@.len(),
                self.root == old(self).root,
                self.blackboard == old(self).blackboard,
                self.tick_count == old(self).tick_count,
                frame_cleared(self.states@, 0, i as int),
            decreases n - i,
        {
            self.states[i] = NodeState::default();
            i = i + 1;
        }
        self.tick_count = 0;
    }

    /// Clear the state records, the tick counter and the blackboard.
    pub fn reset_all(&mut self)
        ensures
            final(self).spec_root() == old(self).spec_root(),
            final(self).spec_blackboard() == Map::<u32, BlackboardValue>::empty(),
            final(self).spec_tick_count() == 0,
            final(self).spec_states().len() == old(self).spec_states().len(),
            frame_cleared(final(self).spec_states(), 0, final(self).spec_states().len() as int),
            old(self).wf() ==> final(self).wf(),
    {
        self.reset();
        self.blackboard.clear();
    }

    /// The tick counter.
    pub fn tick_count(&self) -> (r: u64)
        ensures
            r == self.spec_tick_count(),
    {
        self.tick_count
    }

    /// The number of nodes, which is the slab length.
    pub fn node_count(&self) -> (r: usize)
        ensures
            r == self.spec_states().len(),
            self.wf() ==> r == self.spec_root().size(),
    {
        self.states.len()
    }

    /// The root node, for inspection.
    pub fn root(&self) -> (r: &BehaviorNode<A, C>)
        ensures
            *r == self.spec_root(),
    {
        &self.root
    }
}

/// Round-trip: a tree that `reset_all` has just cleared is indistinguishable
/// from a freshly constructed tree over the same root — every observation
/// (root, state slab, blackboard, tick counter) agrees. The premises are
/// exactly what `reset_all` ensures of the one and `new` ensures of the
/// other.
pub proof fn lemma_reset_all_round_trip<A, C>(t1: BehaviorTree<A, C>, t2: BehaviorTree<A, C>)
    requires
        t1.wf(),
        t2.wf(),
        t1.spec_root() == t2.spec_root(),
        t1.spec_tick_count() == 0,
        t2.spec_tick_count() == 0,
        t1.spec_blackboard() == Map::<u32, BlackboardValue>::empty(),
        t2.spec_blackboard() == Map::<u32, BlackboardValue>::empty(),
        frame_cleared(t1.spec_states(), 0, t1.spec_states().len() as int),
        frame_cleared(t2.spec_states(), 0, t2.spec_states().len() as int),
    ensures
        t1.spec_states() == t2.spec_states(),
        t1.spec_blackboard() == t2.spec_blackboard(),
        t1.spec_root() == t2.spec_root(),
        t1.spec_tick_count() == t2.spec_tick_count(),
{
    assert(t1.spec_states() =~= t2.spec_states());
}

} // verus!
