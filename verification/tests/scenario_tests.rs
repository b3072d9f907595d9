use cogwise::{
    assign_ids, tick_node, ActionHandler, BehaviorNode, Blackboard, ConditionHandler, Context,
    Decorator, NoOpObserver, NoRng, NodeState, ObserverEvent, RecordingObserver, RngSource,
    Status,
};

struct OneRng(u32);

impl RngSource for OneRng {
    fn can_draw(&self) -> bool {
        true
    }

    fn next_u32(&mut self) -> u32 {
        self.0
    }
}

struct AlwaysSucceed;

impl ActionHandler<u32> for AlwaysSucceed {
    fn execute(&mut self, _action: &u32, _ctx: &mut Context) -> Status {
        Status::Success
    }
}

struct NoConditions;

impl ConditionHandler<u32> for NoConditions {
    fn check(&self, _condition: &u32, _ctx: &Context) -> bool {
        false
    }
}

fn tick_fresh(node: &BehaviorNode<u32, u32>, states: &mut Vec<NodeState>) -> Status {
    let mut ctx = Context::new(1, 1, Blackboard::new());
    let mut observer = NoOpObserver;
    let mut rng = NoRng;
    let mut actions = AlwaysSucceed;
    let conditions = NoConditions;
    tick_node(
        node,
        0,
        states,
        &mut ctx,
        &mut rng,
        &mut actions,
        &conditions,
        &mut observer,
    )
}

#[test]
fn wait_zero_succeeds_same_tick() {
    let node: BehaviorNode<u32, u32> = BehaviorNode::Wait(0);
    let mut states = vec![NodeState::default(); assign_ids(&node)];
    assert_eq!(tick_fresh(&node, &mut states), Status::Success);
}

#[test]
fn timeout_zero_fails_same_tick() {
    let node: BehaviorNode<u32, u32> = BehaviorNode::Decorator {
        decorator: Decorator::Timeout(0),
        child: Box::new(BehaviorNode::Wait(5)),
    };
    let mut states = vec![NodeState::default(); assign_ids(&node)];
    assert_eq!(tick_fresh(&node, &mut states), Status::Failure);
}

#[test]
fn repeat_zero_succeeds_without_child() {
    let node: BehaviorNode<u32, u32> = BehaviorNode::Decorator {
        decorator: Decorator::Repeat(0),
        child: Box::new(BehaviorNode::Action(1)),
    };
    let mut states = vec![NodeState::default(); assign_ids(&node)];
    assert_eq!(tick_fresh(&node, &mut states), Status::Success);
}

#[test]
fn retry_zero_fails_without_child() {
    let node: BehaviorNode<u32, u32> = BehaviorNode::Decorator {
        decorator: Decorator::Retry(0),
        child: Box::new(BehaviorNode::Action(1)),
    };
    let mut states = vec![NodeState::default(); assign_ids(&node)];
    assert_eq!(tick_fresh(&node, &mut states), Status::Failure);
}

#[test]
fn random_selector_empty_fails() {
    let node: BehaviorNode<u32, u32> = BehaviorNode::RandomSelector(vec![]);
    let mut states = vec![NodeState::default(); assign_ids(&node)];
    let mut ctx = Context::new(1, 1, Blackboard::new());
    let mut observer = NoOpObserver;
    let mut rng = OneRng(0);
    let mut actions = AlwaysSucceed;
    let conditions = NoConditions;
    let status = tick_node(
        &node,
        0,
        &mut states,
        &mut ctx,
        &mut rng,
        &mut actions,
        &conditions,
        &mut observer,
    );
    assert_eq!(status, Status::Failure);
}

#[test]
fn empty_sequence_succeeds() {
    let node: BehaviorNode<u32, u32> = BehaviorNode::Sequence(vec![]);
    let mut states = vec![NodeState::default(); assign_ids(&node)];
    assert_eq!(tick_fresh(&node, &mut states), Status::Success);
}

#[test]
fn empty_selector_fails() {
    let node: BehaviorNode<u32, u32> = BehaviorNode::Selector(vec![]);
    let mut states = vec![NodeState::default(); assign_ids(&node)];
    assert_eq!(tick_fresh(&node, &mut states), Status::Failure);
}

#[test]
fn observer_sees_preorder_enter_postorder_exit() {
    let node: BehaviorNode<u32, u32> =
        BehaviorNode::Sequence(vec![BehaviorNode::Action(1), BehaviorNode::Action(2)]);
    let mut states = vec![NodeState::default(); assign_ids(&node)];
    let mut ctx = Context::new(1, 1, Blackboard::new());
    let mut observer = RecordingObserver::default();
    let mut rng = NoRng;
    let mut actions = AlwaysSucceed;
    let conditions = NoConditions;
    let status = tick_node(
        &node,
        0,
        &mut states,
        &mut ctx,
        &mut rng,
        &mut actions,
        &conditions,
        &mut observer,
    );
    assert_eq!(status, Status::Success);
    assert_eq!(
        observer.events,
        vec![
            ObserverEvent::Enter(0),
            ObserverEvent::Enter(1),
            ObserverEvent::Exit(1, Status::Success),
            ObserverEvent::Enter(2),
            ObserverEvent::Exit(2, Status::Success),
            ObserverEvent::Exit(0, Status::Success),
        ]
    );
}

#[test]
fn utility_scores_reported_before_child_runs() {
    let node: BehaviorNode<u32, u32> = BehaviorNode::UtilitySelector {
        children: vec![BehaviorNode::Action(10), BehaviorNode::Action(20)],
        utility_ids: vec![1, 2],
    };
    let mut states = vec![NodeState::default(); assign_ids(&node)];
    let mut bb = Blackboard::new();
    bb.set(1, cogwise::BlackboardValue::Fixed(200));
    bb.set(2, cogwise::BlackboardValue::Fixed(900));
    let mut ctx = Context::new(1, 1, bb);
    let mut observer = RecordingObserver::default();
    let mut rng = NoRng;
    let mut actions = AlwaysSucceed;
    let conditions = NoConditions;
    let status = tick_node(
        &node,
        0,
        &mut states,
        &mut ctx,
        &mut rng,
        &mut actions,
        &conditions,
        &mut observer,
    );
    assert_eq!(status, Status::Success);
    assert_eq!(
        observer.events,
        vec![
            ObserverEvent::Enter(0),
            ObserverEvent::UtilityScore(0, 200),
            ObserverEvent::UtilityScore(1, 900),
            ObserverEvent::Enter(2),
            ObserverEvent::Exit(2, Status::Success),
            ObserverEvent::Exit(0, Status::Success),
        ]
    );
}
