use vstd::prelude::*;

use crate::decorator::Decorator;
use crate::node::BehaviorNode;
use crate::parallel::ParallelPolicy;

verus! {

/// The kind of composite a builder frame is collecting children for.
#[derive(Copy, Clone, Debug, PartialEq, Eq, Structural)]
pub enum CompositeType {
    Sequence,
    Selector,
    Parallel(ParallelPolicy),
    RandomSelector,
    WeightedSelector,
}

/// An open composite: its kind, the children gathered so far, and — for a
/// weighted selector — the weights gathered so far.
pub struct BuilderFrame<A, C> {
    pub node_type: CompositeType,
    pub children: Vec<BehaviorNode<A, C>>,
    pub weights: Vec<u32>,
}

/// Programmatic tree assembly. Composites open a frame and `end` closes it;
/// leaves are pushed into the innermost open frame; decorator calls are
/// pending until the next leaf or composite close, which they then wrap,
/// the innermost pending decorator becoming the outermost wrapper.
pub struct TreeBuilder<A, C> {
    pub stack: Vec<BuilderFrame<A, C>>,
    pub root: Option<BehaviorNode<A, C>>,
    pub pending_decorators: Vec<Decorator>,
}

/// `node` wrapped by the pending decorators: the last pending decorator is
/// applied first and so sits innermost.
pub open spec fn wrap_spec<A, C>(pending: Seq<Decorator>, node: BehaviorNode<A, C>) -> BehaviorNode<
    A,
    C,
>
    decreases pending.len(),
{
    if pending.len() == 0 {
        node
    } else {
        wrap_spec(
            pending.drop_last(),
            BehaviorNode::Decorator { decorator: pending.last(), child: Box::new(node) },
        )
    }
}

/// The node a closed frame denotes.
pub open spec fn frame_node<A, C>(f: BuilderFrame<A, C>) -> BehaviorNode<A, C> {
    match f.node_type {
        CompositeType::Sequence => BehaviorNode::Sequence(f.children),
        CompositeType::Selector => BehaviorNode::Selector(f.children),
        CompositeType::Parallel(policy) => BehaviorNode::Parallel { policy, children: f.children },
        CompositeType::RandomSelector => BehaviorNode::RandomSelector(f.children),
        CompositeType::WeightedSelector => BehaviorNode::WeightedSelector {
            children: f.children,
            weights: f.weights,
        },
    }
}

impl<A, C> TreeBuilder<A, C> {
    /// What the builder pushes when a node is emitted: pending decorators
    /// wrap it and are consumed; with an open frame it joins that frame's
    /// children, otherwise it becomes the root.
    pub open spec fn pushed(self, r: Self, node: BehaviorNode<A, C>) -> bool {
        let wrapped = wrap_spec(self.pending_decorators@, node);
        &&& r.pending_decorators@.len() == 0
        &&& (self.stack@.len() > 0 ==> {
            &&& r.stack@.len() == self.stack@.len()
            &&& r.stack@.drop_last() =~= self.stack@.drop_last()
            &&& r.stack@.last().node_type == self.stack@.last().node_type
            &&& r.stack@.last().weights@ == self.stack@.last().weights@
            &&& r.stack@.last().children@ =~= self.stack@.last().children@.push(wrapped)
            &&& r.root == self.root
        })
        &&& (self.stack@.len() == 0 ==> {
            &&& r.stack@.len() == 0
            &&& r.root == Some(wrapped)
        })
    }

    /// What opening a composite of kind `kind` does.
    pub open spec fn opened(self, r: Self, kind: CompositeType) -> bool {
        &&& r.stack@.len() == self.stack@.len() + 1
        &&& r.stack@.drop_last() =~= self.stack@
        &&& r.stack@.last().node_type == kind
        &&& r.stack@.last().children@.len() == 0
        &&& r.stack@.last().weights@.len() == 0
        &&& r.root == self.root
        &&& r.pending_decorators@ == self.pending_decorators@
    }

    /// A builder with no open frames, no pending decorators and no root.
    pub fn new() -> (r: Self)
        ensures
            r.stack@.len() == 0,
            r.root is None,
            r.pending_decorators@.len() == 0,
    {
        TreeBuilder { stack: Vec::new(), root: None, pending_decorators: Vec::new() }
    }

    /// Open a sequence frame.
    pub fn sequence(self) -> (r: Self)
        ensures
            self.opened(r, CompositeType::Sequence),
    {
        self.open_frame(CompositeType::Sequence)
    }

    /// Open a selector frame.
    pub fn selector(self) -> (r: Self)
        ensures
            self.opened(r, CompositeType::Selector),
    {
        self.open_frame(CompositeType::Selector)
    }

    /// Open a parallel frame with the given policy.
    pub fn parallel(self, policy: ParallelPolicy) -> (r: Self)
        ensures
            self.opened(r, CompositeType::Parallel(policy)),
    {
        self.open_frame(CompositeType::Parallel(policy))
    }

    /// Open a random selector frame.
    pub fn random_selector(self) -> (r: Self)
        ensures
            self.opened(r, CompositeType::RandomSelector),
    {
        self.open_frame(CompositeType::RandomSelector)
    }

    /// Open a weighted selector frame.
    pub fn weighted_selector(self) -> (r: Self)
        ensures
            self.opened(r, CompositeType::WeightedSelector),
    {
        self.open_frame(CompositeType::WeightedSelector)
    }

    fn open_frame(self, kind: CompositeType) -> (r: Self)
        ensures
            self.opened(r, kind),
    {
        let mut b = self;
        b.stack.push(BuilderFrame { node_type: kind, children: Vec::new(), weights: Vec::new() });
        proof {
            assert(b.stack@.drop_last() =~= self.stack@);
        }
        b
    }

    /// Emit an action leaf.
    pub fn action(self, action: A) -> (r: Self)
        requires
            self.stack@.len() > 0 || self.root is None,
        ensures
            self.pushed(r, BehaviorNode::Action(action)),
    {
        self.push_node(BehaviorNode::Action(action))
    }

    /// Emit a condition leaf.
    pub fn condition(self, condition: C) -> (r: Self)
        requires
            self.stack@.len() > 0 || self.root is None,
        ensures
            self.pushed(r, BehaviorNode::Condition(condition)),
    {
        self.push_node(BehaviorNode::Condition(condition))
    }

    /// Emit a wait leaf.
    pub fn wait(self, ticks: u32) -> (r: Self)
        requires
            self.stack@.len() > 0 || self.root is None,
        ensures
            self.pushed(r, BehaviorNode::Wait(ticks)),
    {
        self.push_node(BehaviorNode::Wait(ticks))
    }

    /// Queue a decorator for the next emitted node.
    pub fn decorator(self, decorator: Decorator) -> (r: Self)
        ensures
            r.stack@ == self.stack@,
            r.root == self.root,
            r.pending_decorators@ == self.pending_decorators@.push(decorator),
    {
        let mut b = self;
        b.pending_decorators.push(decorator);
        b
    }

    /// Append a weight to the open weighted selector frame.
    pub fn weight(self, weight: u32) -> (r: Self)
        requires
            self.stack@.len() > 0,
            self.stack@.last().node_type == CompositeType::WeightedSelector,
        ensures
            r.stack@.len() == self.stack@.len(),
            r.stack@.drop_last() =~= self.stack@.drop_last(),
            r.stack@.last().node_type == self.stack@.last().node_type,
            r.stack@.last().children@ == self.stack@.last().children@,
            r.stack@.last().weights@ == self.stack@.last().weights@.push(weight),
            r.root == self.root,
            r.pending_decorators@ == self.pending_decorators@,
    {
        let mut b = self;
        match b.stack.pop() {
            Some(mut frame) => {
                frame.weights.push(weight);
                b.stack.push(frame);
            },
            None => {},
        }
        proof {
            assert(b.stack@.drop_last() =~= self.stack@.drop_last());
        }
        b
    }

    /// Close the innermost frame: the collected children become the
    /// composite, pending decorators wrap it, and it joins the parent frame
    /// or becomes the root.
    pub fn end(self) -> (r: Self)
        requires
            self.stack@.len() > 0,
            self.stack@.last().node_type == CompositeType::WeightedSelector
                ==> self.stack@.last().children@.len() == self.stack@.last().weights@.len(),
            self.stack@.len() == 1 ==> self.root is None,
        ensures
            self.popped(r, wrap_spec(self.pending_decorators@, frame_node(self.stack@.last()))),
    {
        let mut b = self;
        let frame = match b.stack.pop() {
            Some(frame) => frame,
            None => vstd::pervasive::unreached(),
        };
        let node = match frame.node_type {
            CompositeType::Sequence => BehaviorNode::Sequence(frame.children),
            CompositeType::Selector => BehaviorNode::Selector(frame.children),
            CompositeType::Parallel(policy) => BehaviorNode::Parallel {
                policy,
                children: frame.children,
            },
            CompositeType::RandomSelector => BehaviorNode::RandomSelector(frame.children),
            CompositeType::WeightedSelector => BehaviorNode::WeightedSelector {
                children: frame.children,
                weights: frame.weights,
            },
        };
        let node = b.wrap_with_pending_decorators(node);
        let n = b.stack.len();
        if n > 0 {
            let mut parent = match b.stack.pop() {
                Some(parent) => parent,
                None => vstd::pervasive::unreached(),
            };
            parent.children.push(node);
            b.stack.push(parent);
            proof {
                assert(b.stack@.drop_last() =~= self.stack@.drop_last().drop_last());
            }
        } else {
            b.set_root(node);
        }
        b
    }

    /// What closing a frame does, once the closed frame has been turned
    /// into `node`: the frame is popped and `node` joins the parent frame's
    /// children, or becomes the root when no frame remains open.
    pub open spec fn popped(self, r: Self, node: BehaviorNode<A, C>) -> bool {
        &&& r.pending_decorators@.len() == 0
        &&& (self.stack@.len() > 1 ==> {
            &&& r.stack@.len() == self.stack@.len() - 1
            &&& r.stack@.drop_last() =~= self.stack@.drop_last().drop_last()
            &&& r.stack@.last().node_type == self.stack@[self.stack@.len() - 2].node_type
            &&& r.stack@.last().weights@ == self.stack@[self.stack@.len() - 2].weights@
            &&& r.stack@.last().children@ =~= self.stack@[self.stack@.len() - 2].children@.push(
                node,
            )
            &&& r.root == self.root
        })
        &&& (self.stack@.len() == 1 ==> {
            &&& r.stack@.len() == 0
            &&& r.root == Some(node)
        })
    }

    /// Take the finished root. Every frame must be closed, no decorator may
    /// be left dangling, and exactly one root must have been produced.
    pub fn build(self) -> (r: BehaviorNode<A, C>)
        requires
            self.stack@.len() == 0,
            self.pending_decorators@.len() == 0,
            self.root is Some,
        ensures
            Some(r) == self.root,
    {
        match self.root {
            Some(node) => node,
            None => vstd::pervasive::unreached(),
        }
    }

    fn push_node(self, node: BehaviorNode<A, C>) -> (r: Self)
        requires
            self.stack@.len() > 0 || self.root is None,
        ensures
            self.pushed(r, node),
    {
        let mut b = self;
        let node = b.wrap_with_pending_decorators(node);
        let n = b.stack.len();
        if n > 0 {
            let mut frame = match b.stack.pop() {
                Some(frame) => frame,
                None => vstd::pervasive::unreached(),
            };
            frame.children.push(node);
            b.stack.push(frame);
            proof {
                assert(b.stack@.drop_last() =~= self.stack@.drop_last());
            }
        } else {
            b.set_root(node);
        }
        b
    }

    fn wrap_with_pending_decorators(&mut self, node: BehaviorNode<A, C>) -> (r: BehaviorNode<A, C>)
        ensures
            r == wrap_spec(old(self).pending_decorators@, node),
            final(self).pending_decorators@.len() == 0,
            final(self).stack == old(self).stack,
            final(self).root == old(self).root,
    {
        let mut wrapped = node;
        while self.pending_decorators.len() > 0
            invariant
                wrap_spec(self.pending_decorators@, wrapped) == wrap_spec(
                    old(self).pending_decorators@,
                    node,
                ),
                self.stack == old(self).stack,
                self.root == old(self).root,
            decreases self.pending_decorators@.len(),
        {
            match self.pending_decorators.pop() {
                Some(decorator) => {
                    wrapped = BehaviorNode::Decorator { decorator, child: Box::new(wrapped) };
                },
                None => {},
            }
        }
        wrapped
    }

    fn set_root(&mut self, node: BehaviorNode<A, C>)
        requires
            old(self).root is None,
        ensures
            final(self).root == Some(node),
            final(self).stack == old(self).stack,
            final(self).pending_decorators == old(self).pending_decorators,
    {
        self.root = Some(node);
    }
}

} // verus!
