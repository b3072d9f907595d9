use vstd::prelude::*;

use crate::blackboard::BlackboardValue;
use crate::context::Context;
use crate::decorator::Decorator;
use crate::leaf::{ActionHandler, ConditionHandler};
use crate::node::BehaviorNode;
use crate::observer::Observer;
use crate::parallel::ParallelPolicy;
use crate::rng::RngSource;
use crate::status::Status;

verus! {

/// Per-node resumption state, one record per pre-order id.
#[derive(Clone, Copy, Debug, PartialEq, Eq)]
pub struct NodeState {
    pub running_child: usize,
    pub tick_counter: u32,
    pub iteration_count: u32,
    pub selected_child: Option<usize>,
    pub random_selection: Option<usize>,
}

impl NodeState {
    /// The state of a node that has never run or was reset: everything zero
    /// or unset.
    pub open spec fn empty_spec() -> NodeState {
        NodeState {
            running_child: 0,
            tick_counter: 0,
            iteration_count: 0,
            selected_child: None,
            random_selection: None,
        }
    }

    /// Clear every field back to the freshly constructed state.
    pub fn reset(&mut self)
        ensures
            *final(self) == NodeState::empty_spec(),
    {
        *self = NodeState::default();
    }
}

impl Default for NodeState {
    fn default() -> (r: Self)
        ensures
            r == NodeState::empty_spec(),
    {
        NodeState {
            running_child: 0,
            tick_counter: 0,
            iteration_count: 0,
            selected_child: None,
            random_selection: None,
        }
    }
}

/// The slab entries in `[lo, hi)` are all in the reset state.
pub open spec fn frame_cleared(s: Seq<NodeState>, lo: int, hi: int) -> bool {
    forall|j: int| lo <= j < hi ==> s[j] == NodeState::empty_spec()
}

/// Nothing outside `[lo, hi)` differs between the two slabs, and the length
/// is unchanged.
pub open spec fn frame_isolated(s0: Seq<NodeState>, s1: Seq<NodeState>, lo: int, hi: int) -> bool {
    s1.len() == s0.len() && forall|j: int|
        0 <= j < s0.len() && !(lo <= j < hi) ==> s1[j] == s0[j]
}

/// The children of a vector composite, or `None` for decorators and leaves.
fn vec_children<'a, A, C>(node: &'a BehaviorNode<A, C>) -> (r: Option<
    &'a Vec<BehaviorNode<A, C>>,
>)
    ensures
        match r {
            Some(cs) => (*node).is_multi_composite() && cs@ == (*node).children_seq(),
            None => !(*node).is_multi_composite(),
        },
{
    match node {
        BehaviorNode::Sequence(cs) => Some(cs),
        BehaviorNode::Selector(cs) => Some(cs),
        BehaviorNode::Parallel { policy: _, children } => Some(children),
        BehaviorNode::UtilitySelector { children, utility_ids: _ } => Some(children),
        BehaviorNode::RandomSelector(cs) => Some(cs),
        BehaviorNode::WeightedSelector { children, weights: _ } => Some(children),
        _ => None,
    }
}

/// Number of nodes in the subtree rooted at `node`.
pub fn subtree_size<A, C>(node: &BehaviorNode<A, C>) -> (n: usize)
    requires
        (*node).size() <= usize::MAX,
    ensures
        n == (*node).size(),
    decreases (*node).size(),
{
    if let Some(cs) = vec_children(node) {
        proof {
            (*node).lemma_multi_size();
        }
        let mut total: usize = 1;
        let mut i: usize = 0;
        while i < cs.len()
            invariant
                cs@ == (*node).children_seq(),
                (*node).size() == 1 + BehaviorNode::seq_size(cs@),
                (*node).size() <= usize::MAX,
                0 <= i <= cs.len(),
                total == 1 + BehaviorNode::seq_size(cs@.take(i as int)),
            decreases cs.len() - i,
        {
            proof {
                BehaviorNode::lemma_seq_size_elem(cs@, i as int);
                BehaviorNode::lemma_seq_size_take_succ(cs@, i as int);
            }
            let s = subtree_size(&cs[i]);
            total = total + s;
            i = i + 1;
        }
        proof {
            assert(cs@.take(cs@.len() as int) =~= cs@);
        }
        total
    } else {
        match node {
            BehaviorNode::Decorator { decorator: _, child } => {
                let s = subtree_size(&**child);
                1 + s
            },
            _ => 1,
        }
    }
}

/// Number of nodes in pre-order traversal, and hence the slab length a tree
/// with this root needs.
pub fn assign_ids<A, C>(node: &BehaviorNode<A, C>) -> (n: usize)
    requires
        (*node).size() <= usize::MAX,
    ensures
        n == (*node).size(),
{
    subtree_size(node)
}

/// The pre-order id of child `index`, derived by accumulating the sizes of
/// the earlier siblings after the parent's own slot.
pub fn child_id_for_index<A, C>(
    children: &Vec<BehaviorNode<A, C>>,
    parent_id: usize,
    index: usize,
) -> (r: usize)
    requires
        index <= children@.len(),
        parent_id + 1 + BehaviorNode::seq_size(children@) <= usize::MAX,
    ensures
        r == parent_id + BehaviorNode::child_offset(children@, index as int),
{
    let mut child_id: usize = parent_id + 1;
    let mut k: usize = 0;
    while k < index
        invariant
            index <= children@.len(),
            0 <= k <= index,
            parent_id + 1 + BehaviorNode::seq_size(children@) <= usize::MAX,
            child_id == parent_id + 1 + BehaviorNode::seq_size(children@.take(k as int)),
        decreases index - k,
    {
        proof {
            BehaviorNode::lemma_seq_size_elem(children@, k as int);
            BehaviorNode::lemma_seq_size_take_succ(children@, k as int);
            BehaviorNode::lemma_take_monotone(children@, k + 1, children@.len() as int);
            assert(children@.take(children@.len() as int) =~= children@);
        }
        let s = subtree_size(&children[k]);
        child_id = child_id + s;
        k = k + 1;
    }
    child_id
}

/// Clear the state of `node` and of every descendant: the whole pre-order
/// frame `[node_id, node_id + size)` goes back to the reset state and
/// nothing else moves.
pub fn reset_subtree<A, C>(node: &BehaviorNode<A, C>, node_id: usize, states: &mut Vec<NodeState>)
    requires
        node_id + (*node).size() <= old(states).len(),
    ensures
        frame_isolated(old(states)@, final(states)@, node_id as int, node_id + (*node).size()),
        frame_cleared(final(states)@, node_id as int, node_id + (*node).size()),
    decreases (*node).size(),
{
    proof {
        (*node).lemma_size_pos();
    }
    states[node_id] = NodeState::default();
    if let Some(cs) = vec_children(node) {
        proof {
            (*node).lemma_multi_size();
        }
        let ghost s0 = states@;
        let mut child_id: usize = node_id + 1;
        let mut i: usize = 0;
        while i < cs.len()
            invariant
                cs@ == (*node).children_seq(),
                (*node).size() == 1 + BehaviorNode::seq_size(cs@),
                node_id + (*node).size() <= states.len(),
                states@.len() == s0.len(),
                0 <= i <= cs.len(),
                child_id == node_id + 1 + BehaviorNode::seq_size(cs@.take(i as int)),
                frame_isolated(s0, states@, node_id as int, node_id + (*node).size()),
                frame_cleared(states@, node_id as int, child_id as int),
            decreases cs.len() - i,
        {
            proof {
                BehaviorNode::lemma_seq_size_elem(cs@, i as int);
                BehaviorNode::lemma_seq_size_take_succ(cs@, i as int);
            }
            let ghost before = states@;
            reset_subtree(&cs[i], child_id, states);
            proof {
                assert(frame_isolated(
                    before,
                    states@,
                    child_id as int,
                    child_id + cs@[i as int].size(),
                ));
            }
            let s = subtree_size(&cs[i]);
            child_id = child_id + s;
            i = i + 1;
        }
        proof {
            assert(cs@.take(cs@.len() as int) =~= cs@);
        }
    } else {
        match node {
            BehaviorNode::Decorator { decorator: _, child } => {
                reset_subtree(&**child, node_id + 1, states);
            },
            _ => {},
        }
    }
}

/// How a sequence folds the statuses its children report, in order: the
/// first non-success decides; all successes give `Success`.
pub open spec fn sequence_result(ss: Seq<Status>) -> Status
    decreases ss.len(),
{
    if ss.len() == 0 {
        Status::Success
    } else if ss[0] == Status::Success {
        sequence_result(ss.drop_first())
    } else {
        ss[0]
    }
}

/// How a selector folds the statuses its children report, in order: the
/// first non-failure decides; all failures give `Failure`.
pub open spec fn selector_result(ss: Seq<Status>) -> Status
    decreases ss.len(),
{
    if ss.len() == 0 {
        Status::Failure
    } else if ss[0] == Status::Failure {
        selector_result(ss.drop_first())
    } else {
        ss[0]
    }
}

/// If all children of a sequence succeed in order, the sequence succeeds.
pub proof fn lemma_sequence_all_success(ss: Seq<Status>)
    requires
        forall|i: int| 0 <= i < ss.len() ==> ss[i] == Status::Success,
    ensures
        sequence_result(ss) == Status::Success,
    decreases ss.len(),
{
    if ss.len() > 0 {
        lemma_sequence_all_success(ss.drop_first());
    }
}

/// The first child of a sequence that does not succeed decides the result,
/// and children after it play no part: the walk stops there.
pub proof fn lemma_sequence_stops(ss: Seq<Status>, k: int)
    requires
        0 <= k < ss.len(),
        ss[k] != Status::Success,
        forall|i: int| 0 <= i < k ==> ss[i] == Status::Success,
    ensures
        sequence_result(ss) == ss[k],
        sequence_result(ss) == sequence_result(ss.take(k + 1)),
    decreases k,
{
    if k == 0 {
        assert(ss.take(1)[0] == ss[0]);
    } else {
        let d = ss.drop_first();
        assert(forall|i: int| 0 <= i < k - 1 ==> d[i] == ss[i + 1]);
        lemma_sequence_stops(d, k - 1);
        assert(ss.take(k + 1)[0] == ss[0]);
        assert(ss.take(k + 1).drop_first() =~= d.take(k));
    }
}

/// If every child of a selector fails, the selector fails.
pub proof fn lemma_selector_all_failure(ss: Seq<Status>)
    requires
        forall|i: int| 0 <= i < ss.len() ==> ss[i] == Status::Failure,
    ensures
        selector_result(ss) == Status::Failure,
    decreases ss.len(),
{
    if ss.len() > 0 {
        lemma_selector_all_failure(ss.drop_first());
    }
}

/// The first child of a selector that does not fail decides the result, and
/// later siblings play no part: in particular, once a child succeeds the
/// siblings after it are not consulted.
pub proof fn lemma_selector_stops(ss: Seq<Status>, k: int)
    requires
        0 <= k < ss.len(),
        ss[k] != Status::Failure,
        forall|i: int| 0 <= i < k ==> ss[i] == Status::Failure,
    ensures
        selector_result(ss) == ss[k],
        selector_result(ss) == selector_result(ss.take(k + 1)),
    decreases k,
{
    if k == 0 {
        assert(ss.take(1)[0] == ss[0]);
    } else {
        let d = ss.drop_first();
        assert(forall|i: int| 0 <= i < k - 1 ==> d[i] == ss[i + 1]);
        lemma_selector_stops(d, k - 1);
        assert(ss.take(k + 1)[0] == ss[0]);
        assert(ss.take(k + 1).drop_first() =~= d.take(k));
    }
}

/// How a parallel composite resolves counted child outcomes.
pub open spec fn parallel_result(policy: ParallelPolicy, succ: int, fail: int, n: int) -> Status {
    match policy {
        ParallelPolicy::RequireAll => if fail > 0 {
            Status::Failure
        } else if succ == n {
            Status::Success
        } else {
            Status::Running
        },
        ParallelPolicy::RequireOne => if succ > 0 {
            Status::Success
        } else if fail == n {
            Status::Failure
        } else {
            Status::Running
        },
        ParallelPolicy::RequireN(k) => if succ >= k {
            Status::Success
        } else if n - fail < k {
            Status::Failure
        } else {
            Status::Running
        },
    }
}

/// Resolve the success and failure counts of a parallel's children.
fn parallel_resolve(policy: &ParallelPolicy, succ: usize, fail: usize, n: usize) -> (r: Status)
    requires
        succ + fail <= n,
    ensures
        r == parallel_result(*policy, succ as int, fail as int, n as int),
{
    match policy {
        ParallelPolicy::RequireAll => if fail > 0 {
            Status::Failure
        } else if succ == n {
            Status::Success
        } else {
            Status::Running
        },
        ParallelPolicy::RequireOne => if succ > 0 {
            Status::Success
        } else if fail == n {
            Status::Failure
        } else {
            Status::Running
        },
        ParallelPolicy::RequireN(k) => if succ >= *k {
            Status::Success
        } else if n - fail < *k {
            Status::Failure
        } else {
            Status::Running
        },
    }
}

/// One more counted iteration, saturating at the counter's maximum.
pub open spec fn count_inc(iter: u32) -> u32 {
    if iter < u32::MAX {
        (iter + 1) as u32
    } else {
        u32::MAX
    }
}

/// What `Repeat(n)` does after its child reports `child`, having already
/// counted `iter` successes: the decorator's status and the new iteration
/// count. The child subtree is cleared whenever the child finished.
pub open spec fn repeat_step(n: u32, iter: u32, child: Status) -> (Status, u32) {
    match child {
        Status::Running => (Status::Running, iter),
        Status::Failure => (Status::Failure, 0u32),
        Status::Success => {
            let next = count_inc(iter);
            if next >= n {
                (Status::Success, 0u32)
            } else {
                (Status::Running, next)
            }
        },
    }
}

/// What `Retry(n)` does after its child reports `child`, having already
/// counted `iter` failed attempts.
pub open spec fn retry_step(n: u32, iter: u32, child: Status) -> (Status, u32) {
    match child {
        Status::Running => (Status::Running, iter),
        Status::Success => (Status::Success, 0u32),
        Status::Failure => {
            let next = count_inc(iter);
            if next >= n {
                (Status::Failure, 0u32)
            } else {
                (Status::Running, next)
            }
        },
    }
}

/// The repeat state after `k` straight child successes, starting fresh.
pub open spec fn repeat_after_successes(n: u32, k: nat) -> (Status, u32)
    decreases k,
{
    if k == 0 {
        (Status::Running, 0u32)
    } else {
        let prev = repeat_after_successes(n, (k - 1) as nat);
        repeat_step(n, prev.1, Status::Success)
    }
}

/// The retry state after `k` straight child failures, starting fresh.
pub open spec fn retry_after_failures(n: u32, k: nat) -> (Status, u32)
    decreases k,
{
    if k == 0 {
        (Status::Running, 0u32)
    } else {
        let prev = retry_after_failures(n, (k - 1) as nat);
        retry_step(n, prev.1, Status::Failure)
    }
}

/// `Repeat(n)` with `n >= 1` reports `Running` after every run of child
/// successes shorter than `n` and completes with `Success` at exactly the
/// `n`-th, barring a child failure, which `repeat_step` propagates at once.
pub proof fn lemma_repeat_termination(n: u32, k: nat)
    requires
        1 <= k <= n,
    ensures
        k < n ==> repeat_after_successes(n, k) == (Status::Running, k as u32),
        k == n ==> repeat_after_successes(n, k).0 == Status::Success,
    decreases k,
{
    if k == 1 {
        assert(repeat_after_successes(n, 0) == (Status::Running, 0u32));
    } else {
        lemma_repeat_termination(n, (k - 1) as nat);
    }
}

/// `Retry(n)` with `n >= 1` reports `Running` after every run of child
/// failures shorter than `n` and gives up with `Failure` at exactly the
/// `n`-th.
pub proof fn lemma_retry_termination(n: u32, k: nat)
    requires
        1 <= k <= n,
    ensures
        k < n ==> retry_after_failures(n, k) == (Status::Running, k as u32),
        k == n ==> retry_after_failures(n, k).0 == Status::Failure,
    decreases k,
{
    if k == 1 {
        assert(retry_after_failures(n, 0) == (Status::Running, 0u32));
    } else {
        lemma_retry_termination(n, (k - 1) as nat);
    }
}

/// One cooldown tick: the counter loses `delta`, stopping at zero.
pub open spec fn cooldown_count_down(counter: u32, delta: u32) -> u32 {
    if delta >= counter {
        0u32
    } else {
        (counter - delta) as u32
    }
}

/// The cooldown counter after `k` blocked ticks.
pub open spec fn cooldown_after(counter: u32, delta: u32, k: nat) -> u32
    decreases k,
{
    if k == 0 {
        counter
    } else {
        cooldown_count_down(cooldown_after(counter, delta, (k - 1) as nat), delta)
    }
}

/// An armed cooldown of `c` ticks stays armed — and so keeps answering
/// `Failure` — for every tick while `k * d < c`, which is every `k` below
/// the ceiling of `c / d`, and is spent exactly when `k * d` reaches `c`.
pub proof fn lemma_cooldown_monotonicity(c: u32, d: u32, k: nat)
    requires
        d >= 1,
    ensures
        cooldown_after(c, d, k) as int == if k * d <= c {
            c - k * d
        } else {
            0int
        },
        k * d < c ==> cooldown_after(c, d, k) > 0,
        k * d >= c ==> cooldown_after(c, d, k) == 0,
    decreases k,
{
    if k > 0 {
        lemma_cooldown_monotonicity(c, d, (k - 1) as nat);
        assert(k * d == (k - 1) * d + d) by (nonlinear_arith)
            requires
                k >= 1,
        ;
    }
}

/// One timer tick: `delta` is added, saturating at the counter's maximum.
pub open spec fn tick_accum(elapsed: u32, delta: u32) -> u32 {
    if elapsed + delta > u32::MAX {
        u32::MAX
    } else {
        (elapsed + delta) as u32
    }
}

/// The accumulated elapsed time after `k` ticks from zero.
pub open spec fn accum_after(delta: u32, k: nat) -> u32
    decreases k,
{
    if k == 0 {
        0u32
    } else {
        tick_accum(accum_after(delta, (k - 1) as nat), delta)
    }
}

/// A `Timeout(t)` node terminates within the ceiling of `t / d` ticks: once
/// `k * d` reaches `t`, the accumulated time has reached `t` and the
/// decorator cuts its child off.
pub proof fn lemma_timeout_bound(t: u32, d: u32, k: nat)
    requires
        d >= 1,
    ensures
        accum_after(d, k) as int == if k * d <= u32::MAX {
            k * d
        } else {
            u32::MAX as int
        },
        k * d >= t ==> accum_after(d, k) >= t,
    decreases k,
{
    if k == 0 {
        assert(k * d == 0) by (nonlinear_arith)
            requires
                k == 0,
        ;
    }
    if k > 0 {
        lemma_timeout_bound(t, d, (k - 1) as nat);
        assert(k * d == (k - 1) * d + d) by (nonlinear_arith)
            requires
                k >= 1,
        ;
    }
}

/// What a `Wait(t)` leaf does in one tick, given its accumulated counter:
/// the status and the new counter.
pub open spec fn wait_step(t: u32, counter: u32, delta: u32) -> (Status, u32) {
    if t == 0 {
        (Status::Success, 0u32)
    } else {
        let e = tick_accum(counter, delta);
        if e >= t {
            (Status::Success, 0u32)
        } else {
            (Status::Running, e)
        }
    }
}

/// The score a utility key contributes: the scoring projection of the value
/// stored under it, or zero when the key is absent.
pub open spec fn key_score(m: Map<u32, BlackboardValue>, key: u32) -> int {
    if m.contains_key(key) {
        m[key].score_milli_spec()
    } else {
        0
    }
}

/// The scores of a run of utility keys against a blackboard.
pub open spec fn score_seq(m: Map<u32, BlackboardValue>, ids: Seq<u32>) -> Seq<int> {
    Seq::new(ids.len(), |i: int| key_score(m, ids[i]))
}

/// `r` is the index of the maximal score, ties broken by first occurrence.
pub open spec fn is_first_argmax(ss: Seq<int>, r: int) -> bool {
    &&& 0 <= r < ss.len()
    &&& forall|k: int| 0 <= k < ss.len() ==> ss[k] <= ss[r]
    &&& forall|k: int| 0 <= k < r ==> ss[k] < ss[r]
}

/// Score every utility key through the blackboard's scoring projection,
/// report each score to the observer, and return the index of the highest
/// score, first occurrence winning ties.
pub fn select_utility_index<O: Observer>(
    utility_ids: &Vec<u32>,
    bb: &crate::blackboard::Blackboard,
    observer: &mut O,
) -> (r: usize)
    requires
        utility_ids@.len() > 0,
    ensures
        is_first_argmax(score_seq(bb@, utility_ids@), r as int),
{
    let n = utility_ids.len();
    let ghost ss = score_seq(bb@, utility_ids@);
    let mut best_idx: usize = 0;
    let mut best_score: i64 = i64::MIN;
    let mut i: usize = 0;
    while i < n
        invariant
            n == utility_ids@.len(),
            ss == score_seq(bb@, utility_ids@),
            0 <= i <= n,
            i == 0 ==> best_idx == 0 && best_score == i64::MIN,
            i > 0 ==> best_idx < i && best_score as int == ss[best_idx as int] && (forall|k: int|
                0 <= k < i ==> ss[k] <= best_score as int) && (forall|k: int|
                0 <= k < best_idx ==> ss[k] < best_score as int),
        decreases n - i,
    {
        let score: i64 = match bb.get(utility_ids[i]) {
            Some(v) => {
                proof {
                    crate::blackboard::lemma_score_milli_bounds(v);
                }
                v.to_score_milli()
            },
            None => 0,
        };
        proof {
            assert(score as int == ss[i as int]);
            assert(score > i64::MIN);
        }
        observer.on_utility_score(i, score);
        if score > best_score {
            best_score = score;
            best_idx = i;
        }
        i = i + 1;
    }
    best_idx
}

/// Total of a run of weights.
pub open spec fn sum_weights(s: Seq<u32>) -> int
    decreases s.len(),
{
    if s.len() == 0 {
        0
    } else {
        s[0] + sum_weights(s.drop_first())
    }
}

/// The bucket a roll lands in when walking the weights front to back.
pub open spec fn weighted_pick(s: Seq<u32>, roll: int) -> int
    decreases s.len(),
{
    if s.len() == 0 {
        0
    } else if roll < s[0] {
        0
    } else {
        1 + weighted_pick(s.drop_first(), roll - s[0])
    }
}

/// Dropping the head of a suffix of weights drops its weight from the sum.
proof fn lemma_sum_weights_skip(s: Seq<u32>, i: int)
    requires
        0 <= i < s.len(),
    ensures
        sum_weights(s.skip(i)) == s[i] + sum_weights(s.skip(i + 1)),
{
    assert(s.skip(i).drop_first() =~= s.skip(i + 1));
    assert(s.skip(i)[0] == s[i]);
}

/// Extending a prefix of weights by one adds that weight to the sum.
proof fn lemma_sum_weights_take_succ(s: Seq<u32>, i: int)
    requires
        0 <= i < s.len(),
    ensures
        sum_weights(s.take(i + 1)) == sum_weights(s.take(i)) + s[i],
    decreases i,
{
    if i == 0 {
        assert(s.take(0) =~= Seq::empty());
        assert(s.take(1).drop_first() =~= Seq::empty());
        assert(s.take(1)[0] == s[0]);
    } else {
        let d = s.drop_first();
        lemma_sum_weights_take_succ(d, i - 1);
        assert(s.take(i + 1).drop_first() =~= d.take(i));
        assert(s.take(i).drop_first() =~= d.take(i - 1));
        assert(s.take(i + 1)[0] == s[0]);
        assert(s.take(i)[0] == s[0]);
    }
}

/// Total of a run of weights, wide enough that it cannot overflow.
fn total_weight(weights: &Vec<u32>) -> (t: u128)
    ensures
        t == sum_weights(weights@),
{
    let n = weights.len();
    let mut t: u128 = 0;
    let mut i: usize = 0;
    while i < n
        invariant
            n == weights@.len(),
            0 <= i <= n,
            t == sum_weights(weights@.take(i as int)),
            t <= i * 0xffffffffu128,
        decreases n - i,
    {
        proof {
            lemma_sum_weights_take_succ(weights@, i as int);
        }
        t = t + weights[i] as u128;
        i = i + 1;
    }
    proof {
        assert(weights@.take(n as int) =~= weights@);
    }
    t
}

/// Walk the weights subtracting the roll until it lands in a bucket; that
/// bucket's index is the pick.
fn pick_weighted_index(weights: &Vec<u32>, roll: u128) -> (r: usize)
    requires
        roll < sum_weights(weights@),
    ensures
        r < weights@.len(),
        r as int == weighted_pick(weights@, roll as int),
{
    let n = weights.len();
    let mut i: usize = 0;
    let mut rem: u128 = roll;
    proof {
        assert(weights@.skip(0) =~= weights@);
    }
    while i < n
        invariant
            n == weights@.len(),
            0 <= i <= n,
            rem <= roll,
            rem < sum_weights(weights@.skip(i as int)),
            weighted_pick(weights@, roll as int) == i + weighted_pick(
                weights@.skip(i as int),
                rem as int,
            ),
        decreases n - i,
    {
        proof {
            lemma_sum_weights_skip(weights@, i as int);
        }
        if rem < weights[i] as u128 {
            proof {
                assert(weights@.skip(i as int)[0] == weights@[i as int]);
            }
            return i;
        }
        proof {
            assert(weights@.skip(i as int)[0] == weights@[i as int]);
            assert(weights@.skip(i as int).drop_first() =~= weights@.skip(i as int + 1));
        }
        rem = rem - weights[i] as u128;
        i = i + 1;
    }
    proof {
        assert(weights@.skip(n as int) =~= Seq::<u32>::empty());
        assert(false);
    }
    0
}

/// The guard key holds a truthy value on the blackboard.
pub open spec fn guard_allows(m: Map<u32, BlackboardValue>, key: u32) -> bool {
    m.contains_key(key) && m[key].truthy()
}

/// Where a sequence or selector resumes: the recorded running child,
/// clamped to the child count.
pub open spec fn resume_start(rc: int, n: int) -> int {
    if rc < n {
        rc
    } else {
        n
    }
}

/// What one sequence walk reports: `log` holds the statuses the ticked
/// children returned, in index order from the resumption index `start`;
/// every child before the last reported success, the verdict is the
/// sequence fold of the log, a running walk records the running child's
/// index, and a succeeding walk saw every remaining child succeed.
pub open spec fn sequence_walk(
    log: Seq<Status>,
    start: int,
    n: int,
    status: Status,
    rc_after: int,
) -> bool {
    &&& status == sequence_result(log)
    &&& 0 <= start && start + log.len() <= n
    &&& (forall|q: int| 0 <= q < log.len() - 1 ==> log[q] == Status::Success)
    &&& (status == Status::Running ==> log.len() >= 1 && log.last() == Status::Running
        && rc_after == start + log.len() - 1)
    &&& (status == Status::Failure ==> log.len() >= 1 && log.last() == Status::Failure)
    &&& (status == Status::Success ==> start + log.len() == n && (forall|q: int|
        0 <= q < log.len() ==> log[q] == Status::Success))
}

/// What one selector walk reports, dual to `sequence_walk`: every child
/// before the last reported failure, and a failing walk saw every remaining
/// child fail.
pub open spec fn selector_walk(
    log: Seq<Status>,
    start: int,
    n: int,
    status: Status,
    rc_after: int,
) -> bool {
    &&& status == selector_result(log)
    &&& 0 <= start && start + log.len() <= n
    &&& (forall|q: int| 0 <= q < log.len() - 1 ==> log[q] == Status::Failure)
    &&& (status == Status::Running ==> log.len() >= 1 && log.last() == Status::Running
        && rc_after == start + log.len() - 1)
    &&& (status == Status::Success ==> log.len() >= 1 && log.last() == Status::Success)
    &&& (status == Status::Failure ==> start + log.len() == n && (forall|q: int|
        0 <= q < log.len() ==> log[q] == Status::Failure))
}

/// Tick the children of a sequence from the recorded resumption index: the
/// first non-success decides, all successes complete the sequence and clear
/// its local state, and a running child records itself for the next tick.
#[allow(clippy::too_many_arguments)]
fn tick_sequence<A, C, AH, CH, O, R>(
    children: &Vec<BehaviorNode<A, C>>,
    node_id: usize,
    states: &mut Vec<NodeState>,
    ctx: &mut Context,
    rng: &mut R,
    action_handler: &mut AH,
    condition_handler: &CH,
    observer: &mut O,
) -> (status: Status) where
    AH: ActionHandler<A>,
    CH: ConditionHandler<C>,
    O: Observer,
    R: RngSource,

    requires
        node_id + 1 + BehaviorNode::seq_size(children@) <= old(states).len(),
        old(rng).can_draw() || !BehaviorNode::seq_uses_random(children@),
    ensures
        frame_isolated(
            old(states)@,
            final(states)@,
            node_id as int,
            node_id + 1 + BehaviorNode::seq_size(children@),
        ),
        old(rng).can_draw() ==> final(rng).can_draw(),
        status != Status::Running ==> final(states)@[node_id as int] == NodeState::empty_spec(),
        status == Status::Running ==> final(states)@[node_id as int].running_child
            < children@.len(),
        children@.len() == 0 ==> status == Status::Success,
        exists|log: Seq<Status>|
            sequence_walk(
                log,
                resume_start(
                    old(states)@[node_id as int].running_child as int,
                    children@.len() as int,
                ),
                children@.len() as int,
                status,
                final(states)@[node_id as int].running_child as int,
            ),
        forall|j: int|
            node_id + 1 <= j < node_id + BehaviorNode::child_offset(
                children@,
                resume_start(
                    old(states)@[node_id as int].running_child as int,
                    children@.len() as int,
                ),
            ) ==> final(states)@[j] == old(states)@[j],
    decreases BehaviorNode::seq_size(children@), 2int,
{
    let n = children.len();
    let rc = states[node_id].running_child;
    let start = if rc < n {
        rc
    } else {
        n
    };
    let mut child_id = child_id_for_index(children, node_id, start);
    let mut i = start;
    let mut result = Status::Success;
    let mut done = false;
    let ghost mut log = Seq::<Status>::empty();
    while i < n && !done
        invariant
            n == children@.len(),
            node_id + 1 + BehaviorNode::seq_size(children@) <= states.len(),
            frame_isolated(
                old(states)@,
                states@,
                node_id as int,
                node_id + 1 + BehaviorNode::seq_size(children@),
            ),
            0 <= i <= n,
            start as int == resume_start(
                old(states)@[node_id as int].running_child as int,
                n as int,
            ),
            start <= i,
            forall|j: int|
                node_id + 1 <= j < node_id + BehaviorNode::child_offset(children@, start as int)
                    ==> states@[j] == old(states)@[j],
            old(rng).can_draw() ==> rng.can_draw(),
            old(rng).can_draw() || !BehaviorNode::seq_uses_random(children@),
            !done ==> child_id == node_id + BehaviorNode::child_offset(children@, i as int),
            !done ==> result == Status::Success,
            !done ==> log.len() == i - start,
            !done ==> forall|q: int| 0 <= q < log.len() ==> log[q] == Status::Success,
            done ==> result == Status::Running || result == Status::Failure,
            done ==> i < n && log.len() >= 1 && i == start + log.len() - 1,
            done ==> log.last() == result,
            done ==> forall|q: int| 0 <= q < log.len() - 1 ==> log[q] == Status::Success,
            done ==> (result == Status::Running ==> states@[node_id as int].running_child == i),
            done ==> (result == Status::Failure ==> states@[node_id as int]
                == NodeState::empty_spec()),
            done ==> result == sequence_result(log),
        decreases n - i + (if done { 0int } else { 1int }),
    {
        proof {
            BehaviorNode::lemma_seq_size_elem(children@, i as int);
            BehaviorNode::lemma_seq_size_take_succ(children@, i as int);
            BehaviorNode::lemma_take_monotone(children@, start as int, i as int);
            if !old(rng).can_draw() {
                BehaviorNode::lemma_seq_uses_random_elem(children@, i as int);
            }
        }
        let cst = tick_node(
            &children[i],
            child_id,
            states,
            ctx,
            rng,
            action_handler,
            condition_handler,
            observer,
        );
        proof {
            log = log.push(cst);
        }
        match cst {
            Status::Running => {
                let mut st = states[node_id];
                st.running_child = i;
                states[node_id] = st;
                result = Status::Running;
                done = true;
                proof {
                    lemma_sequence_stops(log, log.len() - 1);
                }
            },
            Status::Failure => {
                states[node_id] = NodeState::default();
                result = Status::Failure;
                done = true;
                proof {
                    lemma_sequence_stops(log, log.len() - 1);
                }
            },
            Status::Success => {
                let s = subtree_size(&children[i]);
                child_id = child_id + s;
                i = i + 1;
            },
        }
    }
    proof {
        assert forall|j: int|
            node_id + 1 <= j < node_id + BehaviorNode::child_offset(
                children@,
                start as int,
            ) implies states@[j] == old(states)@[j] by {}
    }
    if !done {
        let ghost pre = states@;
        states[node_id] = NodeState::default();
        proof {
            lemma_sequence_all_success(log);
            assert(states@ == pre.update(node_id as int, NodeState::empty_spec()));
            assert forall|j: int|
                node_id + 1 <= j < node_id + BehaviorNode::child_offset(
                    children@,
                    start as int,
                ) implies states@[j] == old(states)@[j] by {
                BehaviorNode::lemma_take_monotone(children@, start as int, children@.len() as int);
                assert(children@.take(children@.len() as int) =~= children@);
                assert(states@[j] == pre[j]);
            }
        }
    }
    proof {
        assert(start as int == resume_start(
            old(states)@[node_id as int].running_child as int,
            children@.len() as int,
        ));
        // the verdict equals the sequence fold of the statuses the ticked
        // children reported, and the fold is exported as a walk
        assert(result == sequence_result(log));
        assert(sequence_walk(
            log,
            start as int,
            n as int,
            result,
            states@[node_id as int].running_child as int,
        ));
    }
    result
}

/// Tick the children of a selector from the recorded resumption index: the
/// first non-failure decides, all failures complete the selector and clear
/// its local state, and a running child records itself for the next tick.
#[allow(clippy::too_many_arguments)]
fn tick_selector<A, C, AH, CH, O, R>(
    children: &Vec<BehaviorNode<A, C>>,
    node_id: usize,
    states: &mut Vec<NodeState>,
    ctx: &mut Context,
    rng: &mut R,
    action_handler: &mut AH,
    condition_handler: &CH,
    observer: &mut O,
) -> (status: Status) where
    AH: ActionHandler<A>,
    CH: ConditionHandler<C>,
    O: Observer,
    R: RngSource,

    requires
        node_id + 1 + BehaviorNode::seq_size(children@) <= old(states).len(),
        old(rng).can_draw() || !BehaviorNode::seq_uses_random(children@),
    ensures
        frame_isolated(
            old(states)@,
            final(states)@,
            node_id as int,
            node_id + 1 + BehaviorNode::seq_size(children@),
        ),
        old(rng).can_draw() ==> final(rng).can_draw(),
        status != Status::Running ==> final(states)@[node_id as int] == NodeState::empty_spec(),
        status == Status::Running ==> final(states)@[node_id as int].running_child
            < children@.len(),
        children@.len() == 0 ==> status == Status::Failure,
        exists|log: Seq<Status>|
            selector_walk(
                log,
                resume_start(
                    old(states)@[node_id as int].running_child as int,
                    children@.len() as int,
                ),
                children@.len() as int,
                status,
                final(states)@[node_id as int].running_child as int,
            ),
        forall|j: int|
            node_id + 1 <= j < node_id + BehaviorNode::child_offset(
                children@,
                resume_start(
                    old(states)@[node_id as int].running_child as int,
                    children@.len() as int,
                ),
            ) ==> final(states)@[j] == old(states)@[j],
    decreases BehaviorNode::seq_size(children@), 2int,
{
    let n = children.len();
    let rc = states[node_id].running_child;
    let start = if rc < n {
        rc
    } else {
        n
    };
    let mut child_id = child_id_for_index(children, node_id, start);
    let mut i = start;
    let mut result = Status::Failure;
    let mut done = false;
    let ghost mut log = Seq::<Status>::empty();
    while i < n && !done
        invariant
            n == children@.len(),
            node_id + 1 + BehaviorNode::seq_size(children@) <= states.len(),
            frame_isolated(
                old(states)@,
                states@,
                node_id as int,
                node_id + 1 + BehaviorNode::seq_size(children@),
            ),
            0 <= i <= n,
            start as int == resume_start(
                old(states)@[node_id as int].running_child as int,
                n as int,
            ),
            start <= i,
            forall|j: int|
                node_id + 1 <= j < node_id + BehaviorNode::child_offset(children@, start as int)
                    ==> states@[j] == old(states)@[j],
            old(rng).can_draw() ==> rng.can_draw(),
            old(rng).can_draw() || !BehaviorNode::seq_uses_random(children@),
            !done ==> child_id == node_id + BehaviorNode::child_offset(children@, i as int),
            !done ==> result == Status::Failure,
            !done ==> log.len() == i - start,
            !done ==> forall|q: int| 0 <= q < log.len() ==> log[q] == Status::Failure,
            done ==> result == Status::Running || result == Status::Success,
            done ==> i < n && log.len() >= 1 && i == start + log.len() - 1,
            done ==> log.last() == result,
            done ==> forall|q: int| 0 <= q < log.len() - 1 ==> log[q] == Status::Failure,
            done ==> (result == Status::Running ==> states@[node_id as int].running_child == i),
            done ==> (result == Status::Success ==> states@[node_id as int]
                == NodeState::empty_spec()),
            done ==> result == selector_result(log),
        decreases n - i + (if done { 0int } else { 1int }),
    {
        proof {
            BehaviorNode::lemma_seq_size_elem(children@, i as int);
            BehaviorNode::lemma_seq_size_take_succ(children@, i as int);
            BehaviorNode::lemma_take_monotone(children@, start as int, i as int);
            if !old(rng).can_draw() {
                BehaviorNode::lemma_seq_uses_random_elem(children@, i as int);
            }
        }
        let cst = tick_node(
            &children[i],
            child_id,
            states,
            ctx,
            rng,
            action_handler,
            condition_handler,
            observer,
        );
        proof {
            log = log.push(cst);
        }
        match cst {
            Status::Running => {
                let mut st = states[node_id];
                st.running_child = i;
                states[node_id] = st;
                result = Status::Running;
                done = true;
                proof {
                    lemma_selector_stops(log, log.len() - 1);
                }
            },
            Status::Success => {
                states[node_id] = NodeState::default();
                result = Status::Success;
                done = true;
                proof {
                    lemma_selector_stops(log, log.len() - 1);
                }
            },
            Status::Failure => {
                let s = subtree_size(&children[i]);
                child_id = child_id + s;
                i = i + 1;
            },
        }
    }
    proof {
        assert forall|j: int|
            node_id + 1 <= j < node_id + BehaviorNode::child_offset(
                children@,
                start as int,
            ) implies states@[j] == old(states)@[j] by {}
    }
    if !done {
        let ghost pre = states@;
        states[node_id] = NodeState::default();
        proof {
            lemma_selector_all_failure(log);
            assert(states@ == pre.update(node_id as int, NodeState::empty_spec()));
            assert forall|j: int|
                node_id + 1 <= j < node_id + BehaviorNode::child_offset(
                    children@,
                    start as int,
                ) implies states@[j] == old(states)@[j] by {
                BehaviorNode::lemma_take_monotone(children@, start as int, children@.len() as int);
                assert(children@.take(children@.len() as int) =~= children@);
                assert(states@[j] == pre[j]);
            }
        }
    }
    proof {
        assert(start as int == resume_start(
            old(states)@[node_id as int].running_child as int,
            children@.len() as int,
        ));
        // the verdict equals the selector fold of the statuses the ticked
        // children reported, and the fold is exported as a walk
        assert(result == selector_result(log));
        assert(selector_walk(
            log,
            start as int,
            n as int,
            result,
            states@[node_id as int].running_child as int,
        ));
    }
    result
}

/// Tick every child of a parallel — no short-circuit and no resumption
/// state at the parallel itself — and resolve the counts by the policy.
#[allow(clippy::too_many_arguments)]
fn tick_parallel<A, C, AH, CH, O, R>(
    policy: &ParallelPolicy,
    children: &Vec<BehaviorNode<A, C>>,
    node_id: usize,
    states: &mut Vec<NodeState>,
    ctx: &mut Context,
    rng: &mut R,
    action_handler: &mut AH,
    condition_handler: &CH,
    observer: &mut O,
) -> (status: Status) where
    AH: ActionHandler<A>,
    CH: ConditionHandler<C>,
    O: Observer,
    R: RngSource,

    requires
        node_id + 1 + BehaviorNode::seq_size(children@) <= old(states).len(),
        old(rng).can_draw() || !BehaviorNode::seq_uses_random(children@),
    ensures
        frame_isolated(
            old(states)@,
            final(states)@,
            node_id + 1,
            node_id + 1 + BehaviorNode::seq_size(children@),
        ),
        old(rng).can_draw() ==> final(rng).can_draw(),
        final(states)@[node_id as int] == old(states)@[node_id as int],
        children@.len() == 0 ==> status == parallel_result(*policy, 0, 0, 0),
        exists|s2: int, f2: int|
            0 <= s2 && 0 <= f2 && s2 + f2 <= children@.len() && status == parallel_result(
                *policy,
                s2,
                f2,
                children@.len() as int,
            ),
    decreases BehaviorNode::seq_size(children@), 2int,
{
    let n = children.len();
    let mut succ: usize = 0;
    let mut fail: usize = 0;
    let mut child_id: usize = node_id + 1;
    let mut i: usize = 0;
    while i < n
        invariant
            n == children@.len(),
            node_id + 1 + BehaviorNode::seq_size(children@) <= states.len(),
            frame_isolated(
                old(states)@,
                states@,
                node_id + 1,
                node_id + 1 + BehaviorNode::seq_size(children@),
            ),
            0 <= i <= n,
            succ + fail <= i,
            old(rng).can_draw() ==> rng.can_draw(),
            old(rng).can_draw() || !BehaviorNode::seq_uses_random(children@),
            child_id == node_id + BehaviorNode::child_offset(children@, i as int),
        decreases n - i,
    {
        proof {
            BehaviorNode::lemma_seq_size_elem(children@, i as int);
            BehaviorNode::lemma_seq_size_take_succ(children@, i as int);
            if !old(rng).can_draw() {
                BehaviorNode::lemma_seq_uses_random_elem(children@, i as int);
            }
        }
        let cst = tick_node(
            &children[i],
            child_id,
            states,
            ctx,
            rng,
            action_handler,
            condition_handler,
            observer,
        );
        match cst {
            Status::Success => {
                succ = succ + 1;
            },
            Status::Failure => {
                fail = fail + 1;
            },
            Status::Running => {},
        }
        let s = subtree_size(&children[i]);
        child_id = child_id + s;
        i = i + 1;
    }
    let resolved = parallel_resolve(policy, succ, fail, n);
    proof {
        assert(resolved == parallel_result(*policy, succ as int, fail as int, n as int));
    }
    resolved
}

/// Everything a decorator tick pins down without naming the status its
/// child returned: gating (guard, armed cooldown, zero repeat and retry,
/// expired timeout), the decorator's own bookkeeping (iteration counts,
/// cooldown arming, timeout accumulation), which frames are cleared, and
/// the status constraints of the reshaping kinds. `csize` is the child's
/// subtree size, so the child frame is `[node_id + 1, node_id + 1 + csize)`
/// and the decorator's whole frame adds the slot `node_id`.
pub open spec fn decorator_effects(
    dec: Decorator,
    csize: int,
    node_id: int,
    s0: Seq<NodeState>,
    s1: Seq<NodeState>,
    bb0: Map<u32, BlackboardValue>,
    delta: u32,
    status: Status,
) -> bool {
    let slot0 = s0[node_id];
    let slot1 = s1[node_id];
    &&& (dec is Inverter ==> slot1 == slot0)
    &&& (dec is Repeat ==> {
        let reps = dec->Repeat_0;
        &&& (reps == 0 ==> status == Status::Success && frame_cleared(
            s1,
            node_id,
            node_id + 1 + csize,
        ))
        &&& (reps > 0 ==> {
            &&& (status == Status::Success ==> count_inc(slot0.iteration_count) >= reps
                && frame_cleared(s1, node_id, node_id + 1 + csize))
            &&& (status == Status::Failure ==> frame_cleared(s1, node_id, node_id + 1 + csize))
            &&& (status == Status::Running ==> slot1 == slot0 || (slot1 == (NodeState {
                iteration_count: count_inc(slot0.iteration_count),
                ..slot0
            }) && count_inc(slot0.iteration_count) < reps && frame_cleared(
                s1,
                node_id + 1,
                node_id + 1 + csize,
            )))
        })
    })
    &&& (dec is Retry ==> {
        let tries = dec->Retry_0;
        &&& (tries == 0 ==> status == Status::Failure && frame_cleared(
            s1,
            node_id,
            node_id + 1 + csize,
        ))
        &&& (tries > 0 ==> {
            &&& (status == Status::Failure ==> count_inc(slot0.iteration_count) >= tries
                && frame_cleared(s1, node_id, node_id + 1 + csize))
            &&& (status == Status::Success ==> frame_cleared(s1, node_id, node_id + 1 + csize))
            &&& (status == Status::Running ==> slot1 == slot0 || (slot1 == (NodeState {
                iteration_count: count_inc(slot0.iteration_count),
                ..slot0
            }) && count_inc(slot0.iteration_count) < tries && frame_cleared(
                s1,
                node_id + 1,
                node_id + 1 + csize,
            )))
        })
    })
    &&& (dec is Cooldown ==> {
        let ticks = dec->Cooldown_0;
        &&& (slot0.tick_counter > 0 ==> status == Status::Failure && slot1 == (NodeState {
            tick_counter: cooldown_count_down(slot0.tick_counter, delta),
            ..slot0
        }) && (forall|j: int| node_id + 1 <= j < node_id + 1 + csize ==> s1[j] == s0[j]))
        &&& (slot0.tick_counter == 0 ==> (status == Status::Running ==> slot1 == slot0) && (
        status != Status::Running ==> slot1 == (NodeState { tick_counter: ticks, ..slot0 })))
    })
    &&& (dec is Guard ==> (!guard_allows(bb0, dec->Guard_0) ==> status == Status::Failure
        && slot1 == slot0 && frame_cleared(s1, node_id + 1, node_id + 1 + csize)) && (
    guard_allows(bb0, dec->Guard_0) ==> slot1 == slot0))
    &&& (dec is UntilSuccess ==> status != Status::Failure && (status == Status::Success
        ==> frame_cleared(s1, node_id, node_id + 1 + csize)) && (status == Status::Running
        ==> slot1 == slot0))
    &&& (dec is UntilFail ==> status != Status::Success && (status == Status::Failure
        ==> frame_cleared(s1, node_id, node_id + 1 + csize)) && (status == Status::Running
        ==> slot1 == slot0))
    &&& (dec is Timeout ==> {
        let t = dec->Timeout_0;
        let elapsed = tick_accum(slot0.tick_counter, delta);
        &&& (elapsed >= t ==> status == Status::Failure && frame_cleared(
            s1,
            node_id,
            node_id + 1 + csize,
        ))
        &&& (elapsed < t ==> (status != Status::Running ==> slot1 == NodeState::empty_spec()) && (
        status == Status::Running ==> slot1 == (NodeState { tick_counter: elapsed, ..slot0 })))
    })
    &&& (dec is ForceSuccess ==> status != Status::Failure && slot1 == slot0)
    &&& (dec is ForceFailure ==> status != Status::Success && slot1 == slot0)
}

/// Tick a decorator: gate, reshape or repeat its single child according to
/// the decorator kind.
#[allow(clippy::too_many_arguments)]
fn tick_decorator<A, C, AH, CH, O, R>(
    dec: &Decorator,
    child: &BehaviorNode<A, C>,
    node_id: usize,
    states: &mut Vec<NodeState>,
    ctx: &mut Context,
    rng: &mut R,
    action_handler: &mut AH,
    condition_handler: &CH,
    observer: &mut O,
) -> (status: Status) where
    AH: ActionHandler<A>,
    CH: ConditionHandler<C>,
    O: Observer,
    R: RngSource,

    requires
        node_id + 1 + (*child).size() <= old(states).len(),
        old(rng).can_draw() || !(*child).uses_random(),
    ensures
        frame_isolated(
            old(states)@,
            final(states)@,
            node_id as int,
            node_id + 1 + (*child).size(),
        ),
        old(rng).can_draw() ==> final(rng).can_draw(),
        decorator_effects(
            *dec,
            (*child).size() as int,
            node_id as int,
            old(states)@,
            final(states)@,
            old(ctx).blackboard@,
            old(ctx).delta_ticks,
            status,
        ),
    decreases (*child).size(), 2int,
{
    let child_id = node_id + 1;
    proof {
        (*child).lemma_size_pos();
    }
    match dec {
        Decorator::Inverter => {
            let cst = tick_node(
                child,
                child_id,
                states,
                ctx,
                rng,
                action_handler,
                condition_handler,
                observer,
            );
            cst.invert()
        },
        Decorator::Repeat(reps) => {
            if *reps == 0 {
                states[node_id] = NodeState::default();
                reset_subtree(child, child_id, states);
                Status::Success
            } else {
                let cst = tick_node(
                    child,
                    child_id,
                    states,
                    ctx,
                    rng,
                    action_handler,
                    condition_handler,
                    observer,
                );
                let it = states[node_id].iteration_count;
                match cst {
                    Status::Failure => {
                        proof {
                            assert(repeat_step(*reps, it, cst) == (Status::Failure, 0u32));
                        }
                        states[node_id] = NodeState::default();
                        reset_subtree(child, child_id, states);
                        Status::Failure
                    },
                    Status::Success => {
                        let next = it.saturating_add(1);
                        if next >= *reps {
                            proof {
                                assert(repeat_step(*reps, it, cst) == (Status::Success, 0u32));
                            }
                            states[node_id] = NodeState::default();
                            reset_subtree(child, child_id, states);
                            Status::Success
                        } else {
                            proof {
                                assert(repeat_step(*reps, it, cst) == (Status::Running, next));
                            }
                            let mut st = states[node_id];
                            st.iteration_count = next;
                            states[node_id] = st;
                            reset_subtree(child, child_id, states);
                            Status::Running
                        }
                    },
                    Status::Running => Status::Running,
                }
            }
        },
        Decorator::Retry(tries) => {
            if *tries == 0 {
                states[node_id] = NodeState::default();
                reset_subtree(child, child_id, states);
                Status::Failure
            } else {
                let cst = tick_node(
                    child,
                    child_id,
                    states,
                    ctx,
                    rng,
                    action_handler,
                    condition_handler,
                    observer,
                );
                let it = states[node_id].iteration_count;
                match cst {
                    Status::Success => {
                        proof {
                            assert(retry_step(*tries, it, cst) == (Status::Success, 0u32));
                        }
                        states[node_id] = NodeState::default();
                        reset_subtree(child, child_id, states);
                        Status::Success
                    },
                    Status::Failure => {
                        let next = it.saturating_add(1);
                        if next >= *tries {
                            proof {
                                assert(retry_step(*tries, it, cst) == (Status::Failure, 0u32));
                            }
                            states[node_id] = NodeState::default();
                            reset_subtree(child, child_id, states);
                            Status::Failure
                        } else {
                            proof {
                                assert(retry_step(*tries, it, cst) == (Status::Running, next));
                            }
                            let mut st = states[node_id];
                            st.iteration_count = next;
                            states[node_id] = st;
                            reset_subtree(child, child_id, states);
                            Status::Running
                        }
                    },
                    Status::Running => Status::Running,
                }
            }
        },
        Decorator::Cooldown(cooldown_ticks) => {
            let remaining = states[node_id].tick_counter;
            if remaining > 0 {
                let delta = ctx.delta_ticks();
                let consumed = if delta < remaining {
                    delta
                } else {
                    remaining
                };
                let mut st = states[node_id];
                st.tick_counter = remaining - consumed;
                states[node_id] = st;
                proof {
                    assert(st.tick_counter == cooldown_count_down(remaining, delta));
                }
                Status::Failure
            } else {
                let cst = tick_node(
                    child,
                    child_id,
                    states,
                    ctx,
                    rng,
                    action_handler,
                    condition_handler,
                    observer,
                );
                if cst.is_done() {
                    let mut st = states[node_id];
                    st.tick_counter = *cooldown_ticks;
                    states[node_id] = st;
                }
                cst
            }
        },
        Decorator::Guard(key) => {
            let allowed = match ctx.blackboard().get(*key) {
                Some(v) => v.is_truthy(),
                None => false,
            };
            if allowed {
                tick_node(
                    child,
                    child_id,
                    states,
                    ctx,
                    rng,
                    action_handler,
                    condition_handler,
                    observer,
                )
            } else {
                reset_subtree(child, child_id, states);
                Status::Failure
            }
        },
        Decorator::UntilSuccess => {
            let cst = tick_node(
                child,
                child_id,
                states,
                ctx,
                rng,
                action_handler,
                condition_handler,
                observer,
            );
            match cst {
                Status::Success => {
                    states[node_id] = NodeState::default();
                    reset_subtree(child, child_id, states);
                    Status::Success
                },
                Status::Failure => {
                    reset_subtree(child, child_id, states);
                    Status::Running
                },
                Status::Running => Status::Running,
            }
        },
        Decorator::UntilFail => {
            let cst = tick_node(
                child,
                child_id,
                states,
                ctx,
                rng,
                action_handler,
                condition_handler,
                observer,
            );
            match cst {
                Status::Failure => {
                    states[node_id] = NodeState::default();
                    reset_subtree(child, child_id, states);
                    Status::Failure
                },
                Status::Success => {
                    reset_subtree(child, child_id, states);
                    Status::Running
                },
                Status::Running => Status::Running,
            }
        },
        Decorator::Timeout(max_ticks) => {
            let delta = ctx.delta_ticks();
            let counter = states[node_id].tick_counter;
            let elapsed = counter.saturating_add(delta);
            let mut st = states[node_id];
            st.tick_counter = elapsed;
            states[node_id] = st;
            proof {
                assert(elapsed == tick_accum(counter, delta));
            }
            if elapsed >= *max_ticks {
                states[node_id] = NodeState::default();
                reset_subtree(child, child_id, states);
                Status::Failure
            } else {
                let cst = tick_node(
                    child,
                    child_id,
                    states,
                    ctx,
                    rng,
                    action_handler,
                    condition_handler,
                    observer,
                );
                if cst.is_done() {
                    states[node_id] = NodeState::default();
                }
                cst
            }
        },
        Decorator::ForceSuccess => {
            let cst = tick_node(
                child,
                child_id,
                states,
                ctx,
                rng,
                action_handler,
                condition_handler,
                observer,
            );
            if cst.is_done() {
                Status::Success
            } else {
                Status::Running
            }
        },
        Decorator::ForceFailure => {
            let cst = tick_node(
                child,
                child_id,
                states,
                ctx,
                rng,
                action_handler,
                condition_handler,
                observer,
            );
            if cst.is_done() {
                Status::Failure
            } else {
                Status::Running
            }
        },
    }
}

/// Tick a utility selector: resume a sticky selection, or score every key
/// through the blackboard's scoring projection and run the argmax child.
#[allow(clippy::too_many_arguments)]
fn tick_utility<A, C, AH, CH, O, R>(
    children: &Vec<BehaviorNode<A, C>>,
    utility_ids: &Vec<u32>,
    node_id: usize,
    states: &mut Vec<NodeState>,
    ctx: &mut Context,
    rng: &mut R,
    action_handler: &mut AH,
    condition_handler: &CH,
    observer: &mut O,
) -> (status: Status) where
    AH: ActionHandler<A>,
    CH: ConditionHandler<C>,
    O: Observer,
    R: RngSource,

    requires
        node_id + 1 + BehaviorNode::seq_size(children@) <= old(states).len(),
        old(rng).can_draw() || !BehaviorNode::seq_uses_random(children@),
    ensures
        frame_isolated(
            old(states)@,
            final(states)@,
            node_id as int,
            node_id + 1 + BehaviorNode::seq_size(children@),
        ),
        old(rng).can_draw() ==> final(rng).can_draw(),
        (children@.len() == 0 || children@.len() != utility_ids@.len()) ==> status
            == Status::Failure && final(states)@[node_id as int] == NodeState::empty_spec() && (
        forall|j: int|
            node_id + 1 <= j < node_id + 1 + BehaviorNode::seq_size(children@) ==> final(states)@[j] == old(states)@[j]),
        (children@.len() > 0 && children@.len() == utility_ids@.len() && (old(states)@[node_id as int].selected_child matches Some(k0) && k0 >= children@.len())) ==> status
            == Status::Failure && final(states)@[node_id as int] == NodeState::empty_spec() && (
        forall|j: int|
            node_id + 1 <= j < node_id + 1 + BehaviorNode::seq_size(children@) ==> final(states)@[j] == old(states)@[j]),
        (children@.len() > 0 && children@.len() == utility_ids@.len()) ==> (status
            != Status::Running ==> final(states)@[node_id as int] == NodeState::empty_spec()),
        (children@.len() > 0 && children@.len() == utility_ids@.len()) ==> (status
            == Status::Running <==> final(states)@[node_id as int].selected_child is Some),
        (children@.len() > 0 && children@.len() == utility_ids@.len() && status
            == Status::Running) ==> (final(states)@[node_id as int].selected_child matches Some(
        k1,
        ) && k1 < children@.len()),
        (children@.len() > 0 && children@.len() == utility_ids@.len() && old(states)@[node_id as int].selected_child is None && status == Status::Running) ==> exists|b: int|
            is_first_argmax(score_seq(old(ctx).blackboard@, utility_ids@), b) && final(states)@[node_id as int].selected_child == Some(b as usize),
        (old(states)@[node_id as int].selected_child matches Some(k) && k < children@.len()
            && children@.len() == utility_ids@.len() && status == Status::Running) ==> final(states)@[node_id as int].selected_child == old(states)@[node_id as int].selected_child,
    decreases BehaviorNode::seq_size(children@), 2int,
{
    let n = children.len();
    if n == 0 || n != utility_ids.len() {
        states[node_id] = NodeState::default();
        return Status::Failure;
    }
    let sel_opt = states[node_id].selected_child;
    match sel_opt {
        Some(selected) => {
            if selected >= n {
                states[node_id] = NodeState::default();
                Status::Failure
            } else {
                proof {
                    BehaviorNode::lemma_seq_size_elem(children@, selected as int);
                    if !old(rng).can_draw() {
                        BehaviorNode::lemma_seq_uses_random_elem(children@, selected as int);
                    }
                }
                let child_id = child_id_for_index(children, node_id, selected);
                let cst = tick_node(
                    &children[selected],
                    child_id,
                    states,
                    ctx,
                    rng,
                    action_handler,
                    condition_handler,
                    observer,
                );
                if cst.is_done() {
                    states[node_id] = NodeState::default();
                }
                cst
            }
        },
        None => {
            let best = select_utility_index(utility_ids, ctx.blackboard(), observer);
            let mut st = states[node_id];
            st.selected_child = Some(best);
            states[node_id] = st;
            proof {
                BehaviorNode::lemma_seq_size_elem(children@, best as int);
                if !old(rng).can_draw() {
                    BehaviorNode::lemma_seq_uses_random_elem(children@, best as int);
                }
            }
            let child_id = child_id_for_index(children, node_id, best);
            let cst = tick_node(
                &children[best],
                child_id,
                states,
                ctx,
                rng,
                action_handler,
                condition_handler,
                observer,
            );
            if cst.is_done() {
                states[node_id] = NodeState::default();
            }
            cst
        },
    }
}

/// Tick a random selector: resume a sticky pick, or draw a fresh child
/// uniformly; the source must be able to draw.
#[allow(clippy::too_many_arguments)]
fn tick_random<A, C, AH, CH, O, R>(
    children: &Vec<BehaviorNode<A, C>>,
    node_id: usize,
    states: &mut Vec<NodeState>,
    ctx: &mut Context,
    rng: &mut R,
    action_handler: &mut AH,
    condition_handler: &CH,
    observer: &mut O,
) -> (status: Status) where
    AH: ActionHandler<A>,
    CH: ConditionHandler<C>,
    O: Observer,
    R: RngSource,

    requires
        node_id + 1 + BehaviorNode::seq_size(children@) <= old(states).len(),
        old(rng).can_draw(),
    ensures
        frame_isolated(
            old(states)@,
            final(states)@,
            node_id as int,
            node_id + 1 + BehaviorNode::seq_size(children@),
        ),
        old(rng).can_draw() ==> final(rng).can_draw(),
        children@.len() == 0 ==> status == Status::Failure && final(states)@[node_id as int]
            == NodeState::empty_spec() && (forall|j: int|
            node_id + 1 <= j < node_id + 1 + BehaviorNode::seq_size(children@) ==> final(states)@[j] == old(states)@[j]),
        status != Status::Running ==> final(states)@[node_id as int] == NodeState::empty_spec(),
        status == Status::Running ==> (final(states)@[node_id as int].random_selection
            matches Some(k2) && k2 < children@.len()),
        (old(states)@[node_id as int].random_selection matches Some(k) && k < children@.len()
            && status == Status::Running) ==> final(states)@[node_id as int].random_selection
            == old(states)@[node_id as int].random_selection,
    decreases BehaviorNode::seq_size(children@), 2int,
{
    let n = children.len();
    if n == 0 {
        states[node_id] = NodeState::default();
        return Status::Failure;
    }
    let reuse: Option<usize> = match states[node_id].random_selection {
        Some(idx) => if idx < n {
            Some(idx)
        } else {
            None
        },
        None => None,
    };
    let selected: usize = match reuse {
        Some(idx) => idx,
        None => {
            let v = rng.next_u32();
            let idx = (v as usize) % n;
            let mut st = states[node_id];
            st.random_selection = Some(idx);
            states[node_id] = st;
            idx
        },
    };
    proof {
        BehaviorNode::lemma_seq_size_elem(children@, selected as int);
    }
    let child_id = child_id_for_index(children, node_id, selected);
    let cst = tick_node(
        &children[selected],
        child_id,
        states,
        ctx,
        rng,
        action_handler,
        condition_handler,
        observer,
    );
    if cst.is_done() {
        states[node_id] = NodeState::default();
    }
    cst
}

/// Tick a weighted selector: resume a sticky pick, or roll against the
/// weight total and run the child whose bucket the roll lands in. A zero
/// total resolves to `Failure` for this tick; the source must be able to
/// draw.
#[allow(clippy::too_many_arguments)]
fn tick_weighted<A, C, AH, CH, O, R>(
    children: &Vec<BehaviorNode<A, C>>,
    weights: &Vec<u32>,
    node_id: usize,
    states: &mut Vec<NodeState>,
    ctx: &mut Context,
    rng: &mut R,
    action_handler: &mut AH,
    condition_handler: &CH,
    observer: &mut O,
) -> (status: Status) where
    AH: ActionHandler<A>,
    CH: ConditionHandler<C>,
    O: Observer,
    R: RngSource,

    requires
        node_id + 1 + BehaviorNode::seq_size(children@) <= old(states).len(),
        old(rng).can_draw(),
    ensures
        frame_isolated(
            old(states)@,
            final(states)@,
            node_id as int,
            node_id + 1 + BehaviorNode::seq_size(children@),
        ),
        old(rng).can_draw() ==> final(rng).can_draw(),
        (children@.len() == 0 || children@.len() != weights@.len()) ==> status == Status::Failure
            && final(states)@[node_id as int] == NodeState::empty_spec() && (forall|j: int|
            node_id + 1 <= j < node_id + 1 + BehaviorNode::seq_size(children@) ==> final(states)@[j] == old(states)@[j]),
        (children@.len() > 0 && children@.len() == weights@.len() && !(old(states)@[node_id as int].random_selection matches Some(k3) && k3 < children@.len())
            && sum_weights(weights@) == 0) ==> status == Status::Failure && final(states)@[node_id as int] == NodeState::empty_spec() && (forall|j: int|
            node_id + 1 <= j < node_id + 1 + BehaviorNode::seq_size(children@) ==> final(states)@[j] == old(states)@[j]),
        status != Status::Running ==> final(states)@[node_id as int] == NodeState::empty_spec(),
        status == Status::Running ==> (final(states)@[node_id as int].random_selection
            matches Some(k2) && k2 < children@.len()),
        (old(states)@[node_id as int].random_selection matches Some(k) && k < children@.len()
            && status == Status::Running) ==> final(states)@[node_id as int].random_selection
            == old(states)@[node_id as int].random_selection,
    decreases BehaviorNode::seq_size(children@), 2int,
{
    let n = children.len();
    if n == 0 || n != weights.len() {
        states[node_id] = NodeState::default();
        return Status::Failure;
    }
    let reuse: Option<usize> = match states[node_id].random_selection {
        Some(idx) => if idx < n {
            Some(idx)
        } else {
            None
        },
        None => None,
    };
    let selected: usize = match reuse {
        Some(idx) => idx,
        None => {
            let total = total_weight(weights);
            if total == 0 {
                states[node_id] = NodeState::default();
                return Status::Failure;
            }
            let v = rng.next_u32();
            let roll = (v as u128) % total;
            let idx = pick_weighted_index(weights, roll);
            let mut st = states[node_id];
            st.random_selection = Some(idx);
            states[node_id] = st;
            idx
        },
    };
    proof {
        BehaviorNode::lemma_seq_size_elem(children@, selected as int);
    }
    let child_id = child_id_for_index(children, node_id, selected);
    let cst = tick_node(
        &children[selected],
        child_id,
        states,
        ctx,
        rng,
        action_handler,
        condition_handler,
        observer,
    );
    if cst.is_done() {
        states[node_id] = NodeState::default();
    }
    cst
}

/// Everything one tick of `node` at `node_id` pins down about the returned
/// status and the slab, stated over the slab before (`s0`) and after
/// (`s1`), the blackboard at entry (`bb0`) and the tick delta. Child
/// statuses come from client handlers, so clauses relate the verdict to
/// them through walks and counts rather than naming them.
pub open spec fn tick_effects<A, C>(
    node: BehaviorNode<A, C>,
    node_id: int,
    s0: Seq<NodeState>,
    s1: Seq<NodeState>,
    bb0: Map<u32, BlackboardValue>,
    delta: u32,
    status: Status,
) -> bool {
    &&& (node is Action || node is Condition ==> s1 == s0)
    &&& (node is Wait ==> {
        let step = wait_step(node->Wait_0, s0[node_id].tick_counter, delta);
        &&& status == step.0
        &&& (status == Status::Success ==> s1[node_id] == NodeState::empty_spec())
        &&& (status == Status::Running ==> s1[node_id] == (NodeState {
            tick_counter: step.1,
            ..s0[node_id]
        }))
    })
    &&& (node is Sequence ==> {
        let cs = node->Sequence_0@;
        let start = resume_start(s0[node_id].running_child as int, cs.len() as int);
        &&& (status != Status::Running ==> s1[node_id] == NodeState::empty_spec())
        &&& (status == Status::Running ==> s1[node_id].running_child < cs.len())
        &&& (cs.len() == 0 ==> status == Status::Success)
        &&& exists|log: Seq<Status>|
            sequence_walk(log, start, cs.len() as int, status, s1[node_id].running_child as int)
        &&& forall|j: int|
            node_id + 1 <= j < node_id + BehaviorNode::child_offset(cs, start) ==> s1[j] == s0[j]
    })
    &&& (node is Selector ==> {
        let cs = node->Selector_0@;
        let start = resume_start(s0[node_id].running_child as int, cs.len() as int);
        &&& (status != Status::Running ==> s1[node_id] == NodeState::empty_spec())
        &&& (status == Status::Running ==> s1[node_id].running_child < cs.len())
        &&& (cs.len() == 0 ==> status == Status::Failure)
        &&& exists|log: Seq<Status>|
            selector_walk(log, start, cs.len() as int, status, s1[node_id].running_child as int)
        &&& forall|j: int|
            node_id + 1 <= j < node_id + BehaviorNode::child_offset(cs, start) ==> s1[j] == s0[j]
    })
    &&& (node is Parallel ==> {
        let policy = node->Parallel_policy;
        let cs = node->Parallel_children@;
        &&& s1[node_id] == s0[node_id]
        &&& (cs.len() == 0 ==> status == parallel_result(policy, 0, 0, 0))
        &&& exists|sc: int, fc: int|
            0 <= sc && 0 <= fc && sc + fc <= cs.len() && status == parallel_result(
                policy,
                sc,
                fc,
                cs.len() as int,
            )
    })
    &&& (node is Decorator ==> decorator_effects(
        node->Decorator_decorator,
        node->Decorator_child.size() as int,
        node_id,
        s0,
        s1,
        bb0,
        delta,
        status,
    ))
    &&& (node is UtilitySelector ==> {
        let cs = node->UtilitySelector_children@;
        let ids = node->UtilitySelector_utility_ids@;
        let shape_ok = cs.len() > 0 && cs.len() == ids.len();
        &&& (!shape_ok ==> status == Status::Failure && s1[node_id] == NodeState::empty_spec()
            && (forall|j: int|
            node_id + 1 <= j < node_id + 1 + BehaviorNode::seq_size(cs) ==> s1[j] == s0[j]))
        &&& (shape_ok && (s0[node_id].selected_child matches Some(k0) && k0 >= cs.len())
            ==> status == Status::Failure && s1[node_id] == NodeState::empty_spec() && (forall|
            j: int,
        |
            node_id + 1 <= j < node_id + 1 + BehaviorNode::seq_size(cs) ==> s1[j] == s0[j]))
        &&& (shape_ok ==> (status != Status::Running ==> s1[node_id] == NodeState::empty_spec()))
        &&& (shape_ok ==> (status == Status::Running <==> s1[node_id].selected_child is Some))
        &&& (shape_ok && status == Status::Running ==> (s1[node_id].selected_child matches Some(
            k1,
        ) && k1 < cs.len()))
        &&& (shape_ok && s0[node_id].selected_child is None && status == Status::Running
            ==> exists|b: int|
            is_first_argmax(score_seq(bb0, ids), b) && s1[node_id].selected_child == Some(
                b as usize,
            ))
        &&& (shape_ok && (s0[node_id].selected_child matches Some(k) && k < cs.len()) && status
            == Status::Running ==> s1[node_id].selected_child == s0[node_id].selected_child)
    })
    &&& (node is RandomSelector ==> {
        let cs = node->RandomSelector_0@;
        &&& (cs.len() == 0 ==> status == Status::Failure && s1[node_id]
            == NodeState::empty_spec() && (forall|j: int|
            node_id + 1 <= j < node_id + 1 + BehaviorNode::seq_size(cs) ==> s1[j] == s0[j]))
        &&& (status != Status::Running ==> s1[node_id] == NodeState::empty_spec())
        &&& (status == Status::Running ==> (s1[node_id].random_selection matches Some(k2) && k2
            < cs.len()))
        &&& (s0[node_id].random_selection matches Some(k) && k < cs.len() && status
            == Status::Running ==> s1[node_id].random_selection == s0[node_id].random_selection)
    })
    &&& (node is WeightedSelector ==> {
        let cs = node->WeightedSelector_children@;
        let ws = node->WeightedSelector_weights@;
        let shape_ok = cs.len() > 0 && cs.len() == ws.len();
        &&& (!shape_ok ==> status == Status::Failure && s1[node_id] == NodeState::empty_spec()
            && (forall|j: int|
            node_id + 1 <= j < node_id + 1 + BehaviorNode::seq_size(cs) ==> s1[j] == s0[j]))
        &&& (shape_ok && !(s0[node_id].random_selection matches Some(k3) && k3 < cs.len())
            && sum_weights(ws) == 0 ==> status == Status::Failure && s1[node_id]
            == NodeState::empty_spec() && (forall|j: int|
            node_id + 1 <= j < node_id + 1 + BehaviorNode::seq_size(cs) ==> s1[j] == s0[j]))
        &&& (status != Status::Running ==> s1[node_id] == NodeState::empty_spec())
        &&& (status == Status::Running ==> (s1[node_id].random_selection matches Some(k2) && k2
            < cs.len()))
        &&& (s0[node_id].random_selection matches Some(k) && k < cs.len() && status
            == Status::Running ==> s1[node_id].random_selection == s0[node_id].random_selection)
    })
}

/// Evaluate one node for one tick. Emits `on_enter` first and `on_exit`
/// last, recurses according to the node's semantics, and touches no slab
/// entry outside the node's own pre-order frame.
#[allow(clippy::too_many_arguments)]
pub fn tick_node<A, C, AH, CH, O, R>(
    node: &BehaviorNode<A, C>,
    node_id: usize,
    states: &mut Vec<NodeState>,
    ctx: &mut Context,
    rng: &mut R,
    action_handler: &mut AH,
    condition_handler: &CH,
    observer: &mut O,
) -> (status: Status) where
    AH: ActionHandler<A>,
    CH: ConditionHandler<C>,
    O: Observer,
    R: RngSource,

    requires
        node_id + (*node).size() <= old(states).len(),
        old(rng).can_draw() || !(*node).uses_random(),
    ensures
        frame_isolated(
            old(states)@,
            final(states)@,
            node_id as int,
            node_id + (*node).size(),
        ),
        old(rng).can_draw() ==> final(rng).can_draw(),
        tick_effects(
            *node,
            node_id as int,
            old(states)@,
            final(states)@,
            old(ctx).blackboard@,
            old(ctx).delta_ticks,
            status,
        ),
    decreases (*node).size(), 1int,
{
    proof {
        (*node).lemma_size_pos();
        if (*node).is_multi_composite() {
            (*node).lemma_multi_size();
        }
    }
    observer.on_enter(node_id);
    let status = match node {
        BehaviorNode::Sequence(cs) => tick_sequence(
            cs,
            node_id,
            states,
            ctx,
            rng,
            action_handler,
            condition_handler,
            observer,
        ),
        BehaviorNode::Selector(cs) => tick_selector(
            cs,
            node_id,
            states,
            ctx,
            rng,
            action_handler,
            condition_handler,
            observer,
        ),
        BehaviorNode::Parallel { policy, children } => tick_parallel(
            policy,
            children,
            node_id,
            states,
            ctx,
            rng,
            action_handler,
            condition_handler,
            observer,
        ),
        BehaviorNode::Decorator { decorator, child } => tick_decorator(
            decorator,
            &**child,
            node_id,
            states,
            ctx,
            rng,
            action_handler,
            condition_handler,
            observer,
        ),
        BehaviorNode::Action(action_id) => action_handler.execute(action_id, ctx),
        BehaviorNode::Condition(condition_id) => {
            if condition_handler.check(condition_id, ctx) {
                Status::Success
            } else {
                Status::Failure
            }
        },
        BehaviorNode::Wait(ticks) => {
            if *ticks == 0 {
                states[node_id] = NodeState::default();
                Status::Success
            } else {
                let delta = ctx.delta_ticks();
                let counter = states[node_id].tick_counter;
                let elapsed = counter.saturating_add(delta);
                if elapsed >= *ticks {
                    states[node_id] = NodeState::default();
                    Status::Success
                } else {
                    let mut st = states[node_id];
                    st.tick_counter = elapsed;
                    states[node_id] = st;
                    Status::Running
                }
            }
        },
        BehaviorNode::UtilitySelector { children, utility_ids } => tick_utility(
            children,
            utility_ids,
            node_id,
            states,
            ctx,
            rng,
            action_handler,
            condition_handler,
            observer,
        ),
        BehaviorNode::RandomSelector(cs) => tick_random(
            cs,
            node_id,
            states,
            ctx,
            rng,
            action_handler,
            condition_handler,
            observer,
        ),
        BehaviorNode::WeightedSelector { children, weights } => tick_weighted(
            children,
            weights,
            node_id,
            states,
            ctx,
            rng,
            action_handler,
            condition_handler,
            observer,
        ),
    };
    observer.on_exit(node_id, status);
    status
}

} // verus!
