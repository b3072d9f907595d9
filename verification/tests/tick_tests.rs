use std::collections::BTreeMap;

use cogwise::{
    assign_ids, tick_node, ActionHandler, BehaviorNode, Blackboard, ConditionHandler, Context,
    Decorator, NoOpObserver, NoRng, NodeState, ParallelPolicy, RngSource, Status,
};

#[derive(Default)]
struct ScriptedActionHandler {
    scripted: BTreeMap<u32, Vec<Status>>,
    calls: Vec<u32>,
}

impl ScriptedActionHandler {
    fn with_script(scripted: BTreeMap<u32, Vec<Status>>) -> Self {
        Self { scripted, calls: Vec::new() }
    }
}

impl ActionHandler<u32> for ScriptedActionHandler {
    fn execute(&mut self, action: &u32, _ctx: &mut Context) -> Status {
        self.calls.push(*action);
        if let Some(queue) = self.scripted.get_mut(action) {
            if queue.is_empty() {
                Status::Success
            } else {
                queue.remove(0)
            }
        } else {
            Status::Success
        }
    }
}

#[derive(Default)]
struct ScriptedConditionHandler {
    values: BTreeMap<u32, bool>,
}

impl ConditionHandler<u32> for ScriptedConditionHandler {
    fn check(&self, condition: &u32, _ctx: &Context) -> bool {
        self.values.get(condition).copied().unwrap_or(false)
    }
}

struct SeqRng {
    values: Vec<u32>,
    idx: usize,
}

impl SeqRng {
    fn new(values: Vec<u32>) -> Self {
        Self { values, idx: 0 }
    }
}

impl RngSource for SeqRng {
    fn can_draw(&self) -> bool {
        true
    }

    fn next_u32(&mut self) -> u32 {
        let value = self.values[self.idx % self.values.len()];
        self.idx += 1;
        value
    }
}

fn states_for(node: &BehaviorNode<u32, u32>) -> Vec<NodeState> {
    vec![NodeState::default(); assign_ids(node)]
}

fn tick_once<R: RngSource>(
    node: &BehaviorNode<u32, u32>,
    states: &mut Vec<NodeState>,
    bb: Blackboard,
    rng: &mut R,
    action_handler: &mut ScriptedActionHandler,
    condition_handler: &ScriptedConditionHandler,
) -> (Status, Blackboard) {
    let mut ctx = Context::new(1, 1, bb);
    let mut observer = NoOpObserver;
    let status = tick_node(
        node,
        0,
        states,
        &mut ctx,
        rng,
        action_handler,
        condition_handler,
        &mut observer,
    );
    (status, ctx.blackboard)
}

fn tick_plain(
    node: &BehaviorNode<u32, u32>,
    states: &mut Vec<NodeState>,
    action_handler: &mut ScriptedActionHandler,
    condition_handler: &ScriptedConditionHandler,
) -> Status {
    let mut rng = NoRng;
    let (status, _) = tick_once(
        node,
        states,
        Blackboard::new(),
        &mut rng,
        action_handler,
        condition_handler,
    );
    status
}

#[test]
fn tick_sequence_all_success() {
    let node = BehaviorNode::Sequence(vec![
        BehaviorNode::Action(1),
        BehaviorNode::Action(2),
        BehaviorNode::Action(3),
    ]);
    let mut states = states_for(&node);
    let mut actions = ScriptedActionHandler::default();
    let conditions = ScriptedConditionHandler::default();
    let status = tick_plain(&node, &mut states, &mut actions, &conditions);
    assert_eq!(status, Status::Success);
    assert_eq!(actions.calls, vec![1, 2, 3]);
}

#[test]
fn tick_sequence_first_failure() {
    let node = BehaviorNode::Sequence(vec![
        BehaviorNode::Action(1),
        BehaviorNode::Action(2),
        BehaviorNode::Action(3),
    ]);
    let mut script = BTreeMap::new();
    script.insert(2, vec![Status::Failure]);
    let mut actions = ScriptedActionHandler::with_script(script);
    let conditions = ScriptedConditionHandler::default();
    let mut states = states_for(&node);
    let status = tick_plain(&node, &mut states, &mut actions, &conditions);
    assert_eq!(status, Status::Failure);
    assert_eq!(actions.calls, vec![1, 2]);
}

#[test]
fn tick_sequence_resumes_running() {
    let node = BehaviorNode::Sequence(vec![
        BehaviorNode::Action(1),
        BehaviorNode::Action(2),
        BehaviorNode::Action(3),
    ]);
    let mut script = BTreeMap::new();
    script.insert(2, vec![Status::Running, Status::Success]);
    let mut actions = ScriptedActionHandler::with_script(script);
    let conditions = ScriptedConditionHandler::default();
    let mut states = states_for(&node);

    let first = tick_plain(&node, &mut states, &mut actions, &conditions);
    let second = tick_plain(&node, &mut states, &mut actions, &conditions);

    assert_eq!(first, Status::Running);
    assert_eq!(second, Status::Success);
    assert_eq!(actions.calls, vec![1, 2, 2, 3]);
    assert_eq!(actions.calls.iter().filter(|a| **a == 1).count(), 1);
}

#[test]
fn tick_selector_first_success() {
    let node = BehaviorNode::Selector(vec![BehaviorNode::Action(1), BehaviorNode::Action(2)]);
    let mut states = states_for(&node);
    let mut actions = ScriptedActionHandler::default();
    let conditions = ScriptedConditionHandler::default();
    let status = tick_plain(&node, &mut states, &mut actions, &conditions);
    assert_eq!(status, Status::Success);
    assert_eq!(actions.calls, vec![1]);
}

#[test]
fn tick_selector_all_failure() {
    let node = BehaviorNode::Selector(vec![BehaviorNode::Action(1), BehaviorNode::Action(2)]);
    let mut script = BTreeMap::new();
    script.insert(1, vec![Status::Failure]);
    script.insert(2, vec![Status::Failure]);
    let mut actions = ScriptedActionHandler::with_script(script);
    let conditions = ScriptedConditionHandler::default();
    let mut states = states_for(&node);

    let status = tick_plain(&node, &mut states, &mut actions, &conditions);
    assert_eq!(status, Status::Failure);
    assert_eq!(actions.calls, vec![1, 2]);
}

#[test]
fn tick_selector_resumes_running() {
    let node = BehaviorNode::Selector(vec![
        BehaviorNode::Action(1),
        BehaviorNode::Action(2),
        BehaviorNode::Action(3),
    ]);
    let mut script = BTreeMap::new();
    script.insert(1, vec![Status::Failure]);
    script.insert(2, vec![Status::Running, Status::Success]);
    let mut actions = ScriptedActionHandler::with_script(script);
    let conditions = ScriptedConditionHandler::default();
    let mut states = states_for(&node);

    let first = tick_plain(&node, &mut states, &mut actions, &conditions);
    let second = tick_plain(&node, &mut states, &mut actions, &conditions);

    assert_eq!(first, Status::Running);
    assert_eq!(second, Status::Success);
    assert_eq!(actions.calls.iter().filter(|a| **a == 1).count(), 1);
}

#[test]
fn tick_parallel_require_all_success() {
    let node = BehaviorNode::Parallel {
        policy: ParallelPolicy::RequireAll,
        children: vec![BehaviorNode::Action(1), BehaviorNode::Action(2)],
    };
    let mut states = states_for(&node);
    let mut actions = ScriptedActionHandler::default();
    let conditions = ScriptedConditionHandler::default();
    let status = tick_plain(&node, &mut states, &mut actions, &conditions);
    assert_eq!(status, Status::Success);
}

#[test]
fn tick_parallel_require_all_one_failure() {
    let node = BehaviorNode::Parallel {
        policy: ParallelPolicy::RequireAll,
        children: vec![BehaviorNode::Action(1), BehaviorNode::Action(2)],
    };
    let mut script = BTreeMap::new();
    script.insert(2, vec![Status::Failure]);
    let mut actions = ScriptedActionHandler::with_script(script);
    let conditions = ScriptedConditionHandler::default();
    let mut states = states_for(&node);
    let status = tick_plain(&node, &mut states, &mut actions, &conditions);
    assert_eq!(status, Status::Failure);
}

#[test]
fn tick_parallel_require_one_success() {
    let node = BehaviorNode::Parallel {
        policy: ParallelPolicy::RequireOne,
        children: vec![BehaviorNode::Action(1), BehaviorNode::Action(2)],
    };
    let mut script = BTreeMap::new();
    script.insert(1, vec![Status::Failure]);
    let mut actions = ScriptedActionHandler::with_script(script);
    let conditions = ScriptedConditionHandler::default();
    let mut states = states_for(&node);
    let status = tick_plain(&node, &mut states, &mut actions, &conditions);
    assert_eq!(status, Status::Success);
}

#[test]
fn tick_parallel_require_n() {
    let node_success = BehaviorNode::Parallel {
        policy: ParallelPolicy::RequireN(2),
        children: vec![
            BehaviorNode::Action(1),
            BehaviorNode::Action(2),
            BehaviorNode::Action(3),
        ],
    };
    let mut script_success = BTreeMap::new();
    script_success.insert(3, vec![Status::Failure]);
    let mut actions_success = ScriptedActionHandler::with_script(script_success);
    let mut states_success = states_for(&node_success);
    let conditions = ScriptedConditionHandler::default();
    let status_success =
        tick_plain(&node_success, &mut states_success, &mut actions_success, &conditions);
    assert_eq!(status_success, Status::Success);

    let node_failure = BehaviorNode::Parallel {
        policy: ParallelPolicy::RequireN(3),
        children: vec![
            BehaviorNode::Action(1),
            BehaviorNode::Action(2),
            BehaviorNode::Action(3),
        ],
    };
    let mut script_failure = BTreeMap::new();
    script_failure.insert(1, vec![Status::Failure]);
    script_failure.insert(2, vec![Status::Failure]);
    let mut actions_failure = ScriptedActionHandler::with_script(script_failure);
    let mut states_failure = states_for(&node_failure);
    let status_failure =
        tick_plain(&node_failure, &mut states_failure, &mut actions_failure, &conditions);
    assert_eq!(status_failure, Status::Failure);
}

#[test]
fn tick_decorator_inverter() {
    let node = BehaviorNode::Decorator {
        decorator: Decorator::Inverter,
        child: Box::new(BehaviorNode::Action(1)),
    };
    let mut states = states_for(&node);
    let mut script = BTreeMap::new();
    script.insert(1, vec![Status::Success]);
    let mut actions = ScriptedActionHandler::with_script(script);
    let conditions = ScriptedConditionHandler::default();
    let status = tick_plain(&node, &mut states, &mut actions, &conditions);
    assert_eq!(status, Status::Failure);
}

#[test]
fn tick_decorator_repeat() {
    let node = BehaviorNode::Decorator {
        decorator: Decorator::Repeat(2),
        child: Box::new(BehaviorNode::Action(1)),
    };
    let mut states = states_for(&node);
    let mut actions = ScriptedActionHandler::default();
    let conditions = ScriptedConditionHandler::default();
    let first = tick_plain(&node, &mut states, &mut actions, &conditions);
    let second = tick_plain(&node, &mut states, &mut actions, &conditions);
    assert_eq!(first, Status::Running);
    assert_eq!(second, Status::Success);
}

#[test]
fn tick_decorator_retry() {
    let node = BehaviorNode::Decorator {
        decorator: Decorator::Retry(3),
        child: Box::new(BehaviorNode::Action(1)),
    };
    let mut script = BTreeMap::new();
    script.insert(1, vec![Status::Failure, Status::Failure, Status::Success]);
    let mut actions = ScriptedActionHandler::with_script(script);
    let conditions = ScriptedConditionHandler::default();
    let mut states = states_for(&node);
    assert_eq!(tick_plain(&node, &mut states, &mut actions, &conditions), Status::Running);
    assert_eq!(tick_plain(&node, &mut states, &mut actions, &conditions), Status::Running);
    assert_eq!(tick_plain(&node, &mut states, &mut actions, &conditions), Status::Success);
}

#[test]
fn tick_decorator_cooldown() {
    let node = BehaviorNode::Decorator {
        decorator: Decorator::Cooldown(2),
        child: Box::new(BehaviorNode::Action(1)),
    };
    let mut states = states_for(&node);
    let mut actions = ScriptedActionHandler::default();
    let conditions = ScriptedConditionHandler::default();

    assert_eq!(tick_plain(&node, &mut states, &mut actions, &conditions), Status::Success);
    assert_eq!(tick_plain(&node, &mut states, &mut actions, &conditions), Status::Failure);
    assert_eq!(tick_plain(&node, &mut states, &mut actions, &conditions), Status::Failure);
    assert_eq!(tick_plain(&node, &mut states, &mut actions, &conditions), Status::Success);
}

#[test]
fn tick_decorator_guard_pass() {
    let node = BehaviorNode::Decorator {
        decorator: Decorator::Guard(10),
        child: Box::new(BehaviorNode::Action(1)),
    };
    let mut states = states_for(&node);
    let mut bb = Blackboard::new();
    bb.set_bool(10, true);
    let mut actions = ScriptedActionHandler::default();
    let conditions = ScriptedConditionHandler::default();
    let mut rng = NoRng;
    let (status, _) = tick_once(&node, &mut states, bb, &mut rng, &mut actions, &conditions);
    assert_eq!(status, Status::Success);
    assert_eq!(actions.calls, vec![1]);
}

#[test]
fn tick_decorator_guard_fail() {
    let node = BehaviorNode::Decorator {
        decorator: Decorator::Guard(10),
        child: Box::new(BehaviorNode::Action(1)),
    };
    let mut states = states_for(&node);
    let mut bb = Blackboard::new();
    bb.set_bool(10, false);
    let mut actions = ScriptedActionHandler::default();
    let conditions = ScriptedConditionHandler::default();
    let mut rng = NoRng;
    let (status, _) = tick_once(&node, &mut states, bb, &mut rng, &mut actions, &conditions);
    assert_eq!(status, Status::Failure);
    assert!(actions.calls.is_empty());
}

#[test]
fn tick_decorator_until_success() {
    let node = BehaviorNode::Decorator {
        decorator: Decorator::UntilSuccess,
        child: Box::new(BehaviorNode::Action(1)),
    };
    let mut script = BTreeMap::new();
    script.insert(1, vec![Status::Failure, Status::Failure, Status::Success]);
    let mut actions = ScriptedActionHandler::with_script(script);
    let conditions = ScriptedConditionHandler::default();
    let mut states = states_for(&node);
    assert_eq!(tick_plain(&node, &mut states, &mut actions, &conditions), Status::Running);
    assert_eq!(tick_plain(&node, &mut states, &mut actions, &conditions), Status::Running);
    assert_eq!(tick_plain(&node, &mut states, &mut actions, &conditions), Status::Success);
}

#[test]
fn tick_decorator_until_fail() {
    let node = BehaviorNode::Decorator {
        decorator: Decorator::UntilFail,
        child: Box::new(BehaviorNode::Action(1)),
    };
    let mut script = BTreeMap::new();
    script.insert(1, vec![Status::Success, Status::Success, Status::Failure]);
    let mut actions = ScriptedActionHandler::with_script(script);
    let conditions = ScriptedConditionHandler::default();
    let mut states = states_for(&node);

    assert_eq!(tick_plain(&node, &mut states, &mut actions, &conditions), Status::Running);
    assert_eq!(tick_plain(&node, &mut states, &mut actions, &conditions), Status::Running);
    assert_eq!(tick_plain(&node, &mut states, &mut actions, &conditions), Status::Failure);
}

#[test]
fn tick_decorator_timeout() {
    let node = BehaviorNode::Decorator {
        decorator: Decorator::Timeout(2),
        child: Box::new(BehaviorNode::Action(1)),
    };
    let mut script = BTreeMap::new();
    script.insert(1, vec![Status::Running, Status::Running, Status::Running]);
    let mut actions = ScriptedActionHandler::with_script(script);
    let conditions = ScriptedConditionHandler::default();
    let mut states = states_for(&node);

    assert_eq!(tick_plain(&node, &mut states, &mut actions, &conditions), Status::Running);
    assert_eq!(tick_plain(&node, &mut states, &mut actions, &conditions), Status::Failure);
}

#[test]
fn tick_decorator_force_success() {
    let node = BehaviorNode::Decorator {
        decorator: Decorator::ForceSuccess,
        child: Box::new(BehaviorNode::Action(1)),
    };
    let mut script = BTreeMap::new();
    script.insert(1, vec![Status::Failure]);
    let mut actions = ScriptedActionHandler::with_script(script);
    let conditions = ScriptedConditionHandler::default();
    let mut states = states_for(&node);
    assert_eq!(tick_plain(&node, &mut states, &mut actions, &conditions), Status::Success);
}

#[test]
fn tick_decorator_force_failure() {
    let node = BehaviorNode::Decorator {
        decorator: Decorator::ForceFailure,
        child: Box::new(BehaviorNode::Action(1)),
    };
    let mut actions = ScriptedActionHandler::default();
    let conditions = ScriptedConditionHandler::default();
    let mut states = states_for(&node);
    assert_eq!(tick_plain(&node, &mut states, &mut actions, &conditions), Status::Failure);
}

#[test]
fn tick_wait_counts_ticks() {
    let node = BehaviorNode::Wait(3);
    let mut states = states_for(&node);
    let mut actions = ScriptedActionHandler::default();
    let conditions = ScriptedConditionHandler::default();
    assert_eq!(tick_plain(&node, &mut states, &mut actions, &conditions), Status::Running);
    assert_eq!(tick_plain(&node, &mut states, &mut actions, &conditions), Status::Running);
    assert_eq!(tick_plain(&node, &mut states, &mut actions, &conditions), Status::Success);
}

#[test]
fn tick_action_delegates() {
    let node = BehaviorNode::Action(5);
    let mut states = states_for(&node);
    let mut actions = ScriptedActionHandler::default();
    let conditions = ScriptedConditionHandler::default();
    let status = tick_plain(&node, &mut states, &mut actions, &conditions);
    assert_eq!(status, Status::Success);
    assert_eq!(actions.calls, vec![5]);
}

#[test]
fn tick_condition_true() {
    let node = BehaviorNode::Condition(10);
    let mut states = states_for(&node);
    let mut actions = ScriptedActionHandler::default();
    let mut conditions = ScriptedConditionHandler::default();
    conditions.values.insert(10, true);
    let status = tick_plain(&node, &mut states, &mut actions, &conditions);
    assert_eq!(status, Status::Success);
}

#[test]
fn tick_condition_false() {
    let node = BehaviorNode::Condition(10);
    let mut states = states_for(&node);
    let mut actions = ScriptedActionHandler::default();
    let mut conditions = ScriptedConditionHandler::default();
    conditions.values.insert(10, false);
    let status = tick_plain(&node, &mut states, &mut actions, &conditions);
    assert_eq!(status, Status::Failure);
}

#[test]
fn tick_random_selector_persists_running() {
    let node = BehaviorNode::RandomSelector(vec![BehaviorNode::Action(1), BehaviorNode::Action(2)]);
    let mut script = BTreeMap::new();
    script.insert(1, vec![Status::Running, Status::Success]);
    script.insert(2, vec![Status::Success]);
    let mut actions = ScriptedActionHandler::with_script(script);
    let conditions = ScriptedConditionHandler::default();
    let mut states = states_for(&node);
    let mut rng = SeqRng::new(vec![0, 1]);

    let (first, _) = tick_once(
        &node,
        &mut states,
        Blackboard::new(),
        &mut rng,
        &mut actions,
        &conditions,
    );
    assert_eq!(first, Status::Running);
    let (second, _) = tick_once(
        &node,
        &mut states,
        Blackboard::new(),
        &mut rng,
        &mut actions,
        &conditions,
    );
    assert_eq!(second, Status::Success);
    assert_eq!(actions.calls, vec![1, 1]);
}

#[test]
fn tick_weighted_selector_respects_weights() {
    let node = BehaviorNode::WeightedSelector {
        children: vec![BehaviorNode::Action(1), BehaviorNode::Action(2)],
        weights: vec![1, 9],
    };
    let mut states = states_for(&node);
    let mut actions = ScriptedActionHandler::default();
    let conditions = ScriptedConditionHandler::default();
    let mut rng = SeqRng::new(vec![0, 9]);

    let (first, _) = tick_once(
        &node,
        &mut states,
        Blackboard::new(),
        &mut rng,
        &mut actions,
        &conditions,
    );
    assert_eq!(first, Status::Success);
    let (second, _) = tick_once(
        &node,
        &mut states,
        Blackboard::new(),
        &mut rng,
        &mut actions,
        &conditions,
    );
    assert_eq!(second, Status::Success);
    assert_eq!(actions.calls, vec![1, 2]);
}

#[test]
fn tick_utility_selector_scores_fixed_keys() {
    let node = BehaviorNode::UtilitySelector {
        children: vec![BehaviorNode::Action(10), BehaviorNode::Action(20)],
        utility_ids: vec![1, 2],
    };
    let mut states = states_for(&node);
    let mut bb = Blackboard::new();
    bb.set(1, cogwise::BlackboardValue::Fixed(200));
    bb.set(2, cogwise::BlackboardValue::Fixed(900));
    let mut actions = ScriptedActionHandler::default();
    let conditions = ScriptedConditionHandler::default();
    let mut rng = NoRng;
    let (status, _) = tick_once(&node, &mut states, bb, &mut rng, &mut actions, &conditions);
    assert_eq!(status, Status::Success);
    assert_eq!(actions.calls, vec![20]);
}

#[test]
fn tick_utility_selector_empty_shape_fails() {
    let node: BehaviorNode<u32, u32> = BehaviorNode::UtilitySelector {
        children: vec![],
        utility_ids: vec![],
    };
    let mut states = states_for(&node);
    let mut actions = ScriptedActionHandler::default();
    let conditions = ScriptedConditionHandler::default();
    assert_eq!(tick_plain(&node, &mut states, &mut actions, &conditions), Status::Failure);
}

#[test]
fn tick_weighted_selector_zero_total_fails() {
    let node = BehaviorNode::WeightedSelector {
        children: vec![BehaviorNode::Action(1), BehaviorNode::Action(2)],
        weights: vec![0, 0],
    };
    let mut states = states_for(&node);
    let mut actions = ScriptedActionHandler::default();
    let conditions = ScriptedConditionHandler::default();
    let mut rng = SeqRng::new(vec![7]);
    let (status, _) = tick_once(
        &node,
        &mut states,
        Blackboard::new(),
        &mut rng,
        &mut actions,
        &conditions,
    );
    assert_eq!(status, Status::Failure);
    assert!(actions.calls.is_empty());
}

#[test]
fn tick_weighted_selector_prefers_heavier_weight() {
    let node = BehaviorNode::WeightedSelector {
        children: vec![BehaviorNode::Action(1), BehaviorNode::Action(2)],
        weights: vec![1, 9],
    };
    let mut states = states_for(&node);
    let mut actions = ScriptedActionHandler::default();
    let conditions = ScriptedConditionHandler::default();
    let mut rng = SeqRng::new((0..200).collect());

    for _ in 0..200 {
        let (status, _) = tick_once(
            &node,
            &mut states,
            Blackboard::new(),
            &mut rng,
            &mut actions,
            &conditions,
        );
        assert_eq!(status, Status::Success);
    }
    let heavy = actions.calls.iter().filter(|a| **a == 2).count();
    let light = actions.calls.iter().filter(|a| **a == 1).count();
    assert!(heavy > light, "expected the heavier weight picked more often");
}

#[test]
fn tick_sequence_resumption_skips_earlier_children() {
    let node = BehaviorNode::Sequence(vec![
        BehaviorNode::Action(1),
        BehaviorNode::Wait(2),
        BehaviorNode::Action(3),
    ]);
    let mut states = states_for(&node);
    let mut actions = ScriptedActionHandler::default();
    let conditions = ScriptedConditionHandler::default();
    assert_eq!(tick_plain(&node, &mut states, &mut actions, &conditions), Status::Running);
    assert_eq!(tick_plain(&node, &mut states, &mut actions, &conditions), Status::Success);
    assert_eq!(actions.calls, vec![1, 3]);
}
