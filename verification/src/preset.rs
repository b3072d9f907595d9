use vstd::prelude::*;

use crate::decorator::Decorator;
use crate::node::BehaviorNode;

verus! {

/// A patrol loop: repeat forever a walk to the next waypoint followed by a
/// sixty-tick pause.
pub fn patrol() -> (r: BehaviorNode<u32, u32>)
    ensures
        r is Decorator,
        r->Decorator_decorator == Decorator::Repeat(u32::MAX),
        (*r->Decorator_child) is Sequence,
        (*r->Decorator_child)->Sequence_0@.len() == 2,
        (*r->Decorator_child)->Sequence_0@[0] == BehaviorNode::<u32, u32>::Action(4),
        (*r->Decorator_child)->Sequence_0@[1] == BehaviorNode::<u32, u32>::Wait(60),
{
    BehaviorNode::Decorator {
        decorator: Decorator::Repeat(u32::MAX),
        child: Box::new(
            BehaviorNode::Sequence(vec![BehaviorNode::Action(4), BehaviorNode::Wait(60)]),
        ),
    }
}

/// Melee combat priorities: flee when hurt, strike in range, close in when
/// visible, otherwise idle.
pub fn combat_melee() -> (r: BehaviorNode<u32, u32>)
    ensures
        r is Selector,
        r->Selector_0@.len() == 4,
        r->Selector_0@[0] is Sequence,
        r->Selector_0@[0]->Sequence_0@.len() == 2,
        r->Selector_0@[0]->Sequence_0@[0] == BehaviorNode::<u32, u32>::Condition(2),
        r->Selector_0@[0]->Sequence_0@[1] == BehaviorNode::<u32, u32>::Action(3),
        r->Selector_0@[1] is Sequence,
        r->Selector_0@[1]->Sequence_0@.len() == 2,
        r->Selector_0@[1]->Sequence_0@[0] == BehaviorNode::<u32, u32>::Condition(1),
        r->Selector_0@[1]->Sequence_0@[1] == BehaviorNode::<u32, u32>::Action(2),
        r->Selector_0@[2] is Sequence,
        r->Selector_0@[2]->Sequence_0@.len() == 2,
        r->Selector_0@[2]->Sequence_0@[0] == BehaviorNode::<u32, u32>::Condition(0),
        r->Selector_0@[2]->Sequence_0@[1] == BehaviorNode::<u32, u32>::Action(1),
        r->Selector_0@[3] == BehaviorNode::<u32, u32>::Action(0),
{
    BehaviorNode::Selector(
        vec![
            BehaviorNode::Sequence(vec![BehaviorNode::Condition(2), BehaviorNode::Action(3)]),
            BehaviorNode::Sequence(vec![BehaviorNode::Condition(1), BehaviorNode::Action(2)]),
            BehaviorNode::Sequence(vec![BehaviorNode::Condition(0), BehaviorNode::Action(1)]),
            BehaviorNode::Action(0),
        ],
    )
}

/// A guard post: challenge intruders in sight and range, advance on ones in
/// sight, return to the post when away from it, otherwise idle.
pub fn guard_post() -> (r: BehaviorNode<u32, u32>)
    ensures
        r is Selector,
        r->Selector_0@.len() == 4,
        r->Selector_0@[0] is Sequence,
        r->Selector_0@[0]->Sequence_0@.len() == 3,
        r->Selector_0@[0]->Sequence_0@[0] == BehaviorNode::<u32, u32>::Condition(0),
        r->Selector_0@[0]->Sequence_0@[1] == BehaviorNode::<u32, u32>::Condition(1),
        r->Selector_0@[0]->Sequence_0@[2] == BehaviorNode::<u32, u32>::Action(2),
        r->Selector_0@[1] is Sequence,
        r->Selector_0@[1]->Sequence_0@.len() == 2,
        r->Selector_0@[1]->Sequence_0@[0] == BehaviorNode::<u32, u32>::Condition(0),
        r->Selector_0@[1]->Sequence_0@[1] == BehaviorNode::<u32, u32>::Action(1),
        r->Selector_0@[2] is Sequence,
        r->Selector_0@[2]->Sequence_0@.len() == 2,
        r->Selector_0@[2]->Sequence_0@[0] is Decorator,
        r->Selector_0@[2]->Sequence_0@[0]->Decorator_decorator == Decorator::Inverter,
        (*r->Selector_0@[2]->Sequence_0@[0]->Decorator_child) == BehaviorNode::<
            u32,
            u32,
        >::Condition(3),
        r->Selector_0@[2]->Sequence_0@[1] == BehaviorNode::<u32, u32>::Action(4),
        r->Selector_0@[3] == BehaviorNode::<u32, u32>::Action(0),
{
    BehaviorNode::Selector(
        vec![
            BehaviorNode::Sequence(
                vec![
                    BehaviorNode::Condition(0),
                    BehaviorNode::Condition(1),
                    BehaviorNode::Action(2),
                ],
            ),
            BehaviorNode::Sequence(vec![BehaviorNode::Condition(0), BehaviorNode::Action(1)]),
            BehaviorNode::Sequence(
                vec![
                    BehaviorNode::Decorator {
                        decorator: Decorator::Inverter,
                        child: Box::new(BehaviorNode::Condition(3)),
                    },
                    BehaviorNode::Action(4),
                ],
            ),
            BehaviorNode::Action(0),
        ],
    )
}

} // verus!
