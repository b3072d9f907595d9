use vstd::prelude::*;

use crate::decorator::Decorator;
use crate::parallel::ParallelPolicy;

verus! {

/// A node of a behavior tree. Composites hold ordered children, decorators
/// hold exactly one child, and leaves delegate to client-supplied action and
/// condition identifiers of types `A` and `C`.
#[derive(Debug, PartialEq)]
#[verifier::ext_equal]
pub enum BehaviorNode<A, C> {
    Sequence(Vec<BehaviorNode<A, C>>),
    Selector(Vec<BehaviorNode<A, C>>),
    Parallel { policy: ParallelPolicy, children: Vec<BehaviorNode<A, C>> },
    Decorator { decorator: Decorator, child: Box<BehaviorNode<A, C>> },
    Action(A),
    Condition(C),
    Wait(u32),
    UtilitySelector { children: Vec<BehaviorNode<A, C>>, utility_ids: Vec<u32> },
    RandomSelector(Vec<BehaviorNode<A, C>>),
    WeightedSelector { children: Vec<BehaviorNode<A, C>>, weights: Vec<u32> },
}

impl<A, C> BehaviorNode<A, C> {
    /// Number of nodes in the subtree rooted here: 1 for a leaf, otherwise
    /// 1 plus the sizes of all children. Pre-order ids of a subtree rooted
    /// at id `p` occupy exactly `[p, p + size)`.
    pub open spec fn size(self) -> nat
        decreases self,
    {
        match self {
            BehaviorNode::Sequence(cs) => 1 + Self::seq_size(cs@),
            BehaviorNode::Selector(cs) => 1 + Self::seq_size(cs@),
            BehaviorNode::Parallel { policy: _, children } => 1 + Self::seq_size(children@),
            BehaviorNode::Decorator { decorator: _, child } => 1 + child.size(),
            BehaviorNode::Action(_) => 1,
            BehaviorNode::Condition(_) => 1,
            BehaviorNode::Wait(_) => 1,
            BehaviorNode::UtilitySelector { children, utility_ids: _ } => 1 + Self::seq_size(
                children@,
            ),
            BehaviorNode::RandomSelector(cs) => 1 + Self::seq_size(cs@),
            BehaviorNode::WeightedSelector { children, weights: _ } => 1 + Self::seq_size(
                children@,
            ),
        }
    }

    /// Sum of the subtree sizes of a run of siblings.
    pub open spec fn seq_size(s: Seq<BehaviorNode<A, C>>) -> nat
        decreases s,
    {
        if s.len() == 0 {
            0
        } else {
            s[0].size() + Self::seq_size(s.drop_first())
        }
    }

    /// The children a composite carries; a decorator's single child as a
    /// one-element run; leaves have none.
    pub open spec fn children_seq(self) -> Seq<BehaviorNode<A, C>> {
        match self {
            BehaviorNode::Sequence(cs) => cs@,
            BehaviorNode::Selector(cs) => cs@,
            BehaviorNode::Parallel { policy: _, children } => children@,
            BehaviorNode::Decorator { decorator: _, child } => seq![*child],
            BehaviorNode::Action(_) => Seq::empty(),
            BehaviorNode::Condition(_) => Seq::empty(),
            BehaviorNode::Wait(_) => Seq::empty(),
            BehaviorNode::UtilitySelector { children, utility_ids: _ } => children@,
            BehaviorNode::RandomSelector(cs) => cs@,
            BehaviorNode::WeightedSelector { children, weights: _ } => children@,
        }
    }

    /// Pre-order offset of child `i` relative to its parent: one slot for the
    /// parent itself plus the sizes of the earlier siblings.
    pub open spec fn child_offset(s: Seq<BehaviorNode<A, C>>, i: int) -> int {
        1 + Self::seq_size(s.take(i)) as int
    }

    /// Whether evaluating this subtree may consume a random draw: it holds
    /// a random or weighted selector.
    pub open spec fn uses_random(self) -> bool
        decreases self,
    {
        match self {
            BehaviorNode::Sequence(cs) => Self::seq_uses_random(cs@),
            BehaviorNode::Selector(cs) => Self::seq_uses_random(cs@),
            BehaviorNode::Parallel { policy: _, children } => Self::seq_uses_random(children@),
            BehaviorNode::Decorator { decorator: _, child } => child.uses_random(),
            BehaviorNode::Action(_) => false,
            BehaviorNode::Condition(_) => false,
            BehaviorNode::Wait(_) => false,
            BehaviorNode::UtilitySelector { children, utility_ids: _ } => Self::seq_uses_random(
                children@,
            ),
            BehaviorNode::RandomSelector(_) => true,
            BehaviorNode::WeightedSelector { children: _, weights: _ } => true,
        }
    }

    /// Whether any sibling in the run may consume a random draw.
    pub open spec fn seq_uses_random(s: Seq<BehaviorNode<A, C>>) -> bool
        decreases s,
    {
        if s.len() == 0 {
            false
        } else {
            s[0].uses_random() || Self::seq_uses_random(s.drop_first())
        }
    }

    /// A run without random draws has no sibling that draws.
    pub proof fn lemma_seq_uses_random_elem(s: Seq<BehaviorNode<A, C>>, i: int)
        requires
            0 <= i < s.len(),
            !Self::seq_uses_random(s),
        ensures
            !s[i].uses_random(),
        decreases i,
    {
        if i > 0 {
            Self::lemma_seq_uses_random_elem(s.drop_first(), i - 1);
        }
    }

    /// Whether this node is a composite holding a vector of children.
    pub open spec fn is_multi_composite(self) -> bool {
        self is Sequence || self is Selector || self is Parallel || self is UtilitySelector
            || self is RandomSelector || self is WeightedSelector
    }

    /// Every subtree holds at least its root.
    pub proof fn lemma_size_pos(self)
        ensures
            self.size() >= 1,
    {
    }

    /// A composite is one node plus the run of its children.
    pub proof fn lemma_multi_size(self)
        requires
            self.is_multi_composite(),
        ensures
            self.size() == 1 + Self::seq_size(self.children_seq()),
    {
    }

    /// Extending a run of siblings by one adds that sibling's size.
    pub proof fn lemma_seq_size_take_succ(s: Seq<BehaviorNode<A, C>>, i: int)
        requires
            0 <= i < s.len(),
        ensures
            Self::seq_size(s.take(i + 1)) == Self::seq_size(s.take(i)) + s[i].size(),
        decreases i,
    {
        if i == 0 {
            assert(s.take(0) =~= Seq::empty());
            assert(s.take(1).drop_first() =~= Seq::empty());
            assert(s.take(1)[0] == s[0]);
        } else {
            let d = s.drop_first();
            Self::lemma_seq_size_take_succ(d, i - 1);
            assert(s.take(i + 1).drop_first() =~= d.take(i));
            assert(s.take(i).drop_first() =~= d.take(i - 1));
            assert(s.take(i + 1)[0] == s[0]);
            assert(s.take(i)[0] == s[0]);
        }
    }

    /// A run of siblings splits at any index into its prefix and suffix.
    pub proof fn lemma_seq_size_split(s: Seq<BehaviorNode<A, C>>, i: int)
        requires
            0 <= i <= s.len(),
        ensures
            Self::seq_size(s) == Self::seq_size(s.take(i)) + Self::seq_size(s.skip(i)),
        decreases i,
    {
        if i == 0 {
            assert(s.take(0) =~= Seq::empty());
            assert(s.skip(0) =~= s);
        } else {
            let d = s.drop_first();
            Self::lemma_seq_size_split(d, i - 1);
            assert(s.take(i).drop_first() =~= d.take(i - 1));
            assert(s.take(i)[0] == s[0]);
            assert(s.skip(i) =~= d.skip(i - 1));
        }
    }

    /// A sibling's size is bounded by the size of the run from it onward.
    pub proof fn lemma_seq_size_elem(s: Seq<BehaviorNode<A, C>>, i: int)
        requires
            0 <= i < s.len(),
        ensures
            Self::child_offset(s, i) + s[i].size() <= 1 + Self::seq_size(s),
            s[i].size() <= Self::seq_size(s),
            Self::seq_size(s.take(i)) <= Self::seq_size(s),
    {
        Self::lemma_seq_size_split(s, i);
        let sk = s.skip(i);
        assert(sk[0] == s[i]);
        assert(Self::seq_size(sk) == s[i].size() + Self::seq_size(sk.drop_first()));
    }

    /// Pre-order identity: within a composite whose own id is `p`, child `i`
    /// is addressed at `p + child_offset`, the frames `[p + child_offset(i),
    /// p + child_offset(i) + size(child_i))` of distinct children are
    /// disjoint and in order, and all of them lie strictly inside the frame
    /// `[p, p + size)` of the composite. Hence the ids of a tree of size `n`
    /// rooted at 0 are exactly the contiguous range `[0, n)`.
    pub proof fn lemma_preorder_frames(s: Seq<BehaviorNode<A, C>>, i: int, j: int)
        requires
            0 <= i < s.len(),
            i < j < s.len(),
        ensures
            Self::child_offset(s, i) >= 1,
            Self::child_offset(s, i) + s[i].size() <= Self::child_offset(s, j),
            Self::child_offset(s, j) + s[j].size() <= 1 + Self::seq_size(s),
    {
        Self::lemma_seq_size_elem(s, j);
        Self::lemma_seq_size_take_succ(s, i);
        Self::lemma_take_monotone(s, i + 1, j);
    }

    /// Longer prefixes of a run of siblings never shrink in total size.
    pub proof fn lemma_take_monotone(s: Seq<BehaviorNode<A, C>>, i: int, j: int)
        requires
            0 <= i <= j <= s.len(),
        ensures
            Self::seq_size(s.take(i)) <= Self::seq_size(s.take(j)),
        decreases j - i,
    {
        if i < j {
            Self::lemma_take_monotone(s, i, j - 1);
            Self::lemma_seq_size_take_succ(s, j - 1);
        }
    }
}

/// Copy of a run of weights.
fn clone_weights(v: &Vec<u32>) -> (r: Vec<u32>)
    ensures
        r@ == v@,
{
    let mut out: Vec<u32> = Vec::new();
    let mut i: usize = 0;
    while i < v.len()
        invariant
            0 <= i <= v.len(),
            out@ == v@.take(i as int),
        decreases v.len() - i,
    {
        out.push(v[i]);
        i = i + 1;
    }
    proof {
        assert(v@.take(v@.len() as int) =~= v@);
    }
    out
}

/// Deep copy of a node, cloning the client-supplied identifiers with their
/// own `Clone` implementations.
fn clone_node<A: Clone, C: Clone>(node: &BehaviorNode<A, C>) -> BehaviorNode<A, C>
    decreases (*node).size(), 1int,
{
    match node {
        BehaviorNode::Sequence(cs) => BehaviorNode::Sequence(clone_children(cs)),
        BehaviorNode::Selector(cs) => BehaviorNode::Selector(clone_children(cs)),
        BehaviorNode::Parallel { policy, children } => BehaviorNode::Parallel {
            policy: *policy,
            children: clone_children(children),
        },
        BehaviorNode::Decorator { decorator, child } => BehaviorNode::Decorator {
            decorator: decorator.clone(),
            child: Box::new(clone_node(&**child)),
        },
        BehaviorNode::Action(a) => BehaviorNode::Action(a.clone()),
        BehaviorNode::Condition(c) => BehaviorNode::Condition(c.clone()),
        BehaviorNode::Wait(t) => BehaviorNode::Wait(*t),
        BehaviorNode::UtilitySelector { children, utility_ids } => BehaviorNode::UtilitySelector {
            children: clone_children(children),
            utility_ids: clone_weights(utility_ids),
        },
        BehaviorNode::RandomSelector(cs) => BehaviorNode::RandomSelector(clone_children(cs)),
        BehaviorNode::WeightedSelector { children, weights } => BehaviorNode::WeightedSelector {
            children: clone_children(children),
            weights: clone_weights(weights),
        },
    }
}

/// Deep copy of a run of siblings.
fn clone_children<A: Clone, C: Clone>(children: &Vec<BehaviorNode<A, C>>) -> Vec<
    BehaviorNode<A, C>,
>
    decreases BehaviorNode::seq_size(children@), 2int,
{
    let mut out: Vec<BehaviorNode<A, C>> = Vec::new();
    let mut i: usize = 0;
    while i < children.len()
        invariant
            0 <= i <= children.len(),
        decreases children.len() - i,
    {
        proof {
            BehaviorNode::lemma_seq_size_elem(children@, i as int);
        }
        out.push(clone_node(&children[i]));
        i = i + 1;
    }
    out
}

impl<A: Clone, C: Clone> Clone for BehaviorNode<A, C> {
    fn clone(&self) -> Self {
        clone_node(self)
    }
}

} // verus!
