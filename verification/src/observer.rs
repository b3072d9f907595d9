use vstd::prelude::*;

use crate::blackboard::BlackboardValue;
use crate::status::Status;

verus! {

/// Hook for watching a tick unfold. Enter events come in pre-order and exit
/// events in post-order; utility scores are reported before the chosen
/// child is entered. Scores are in thousandths, as the scoring projection
/// yields them.
pub trait Observer {
    fn on_enter(&mut self, node_id: usize) {
    }

    fn on_exit(&mut self, node_id: usize, status: Status) {
    }

    fn on_blackboard_write(&mut self, key: u32, value: BlackboardValue) {
    }

    fn on_utility_score(&mut self, action_index: usize, score_milli: i64) {
    }
}

/// An observer that ignores every event.
pub struct NoOpObserver;

impl Observer for NoOpObserver {
}

/// One recorded observer event.
#[derive(Copy, Clone, Debug, PartialEq, Eq, Structural)]
pub enum ObserverEvent {
    Enter(usize),
    Exit(usize, Status),
    BlackboardWrite(u32, BlackboardValue),
    UtilityScore(usize, i64),
}

/// An observer that stores every event it sees, in order.
pub struct RecordingObserver {
    pub events: Vec<ObserverEvent>,
}

impl Default for RecordingObserver {
    fn default() -> (r: Self)
        ensures
            r.events@ == Seq::<ObserverEvent>::empty(),
    {
        RecordingObserver { events: Vec::new() }
    }
}

impl Observer for RecordingObserver {
    fn on_enter(&mut self, node_id: usize) {
        self.events.push(ObserverEvent::Enter(node_id));
    }

    fn on_exit(&mut self, node_id: usize, status: Status) {
        self.events.push(ObserverEvent::Exit(node_id, status));
    }

    fn on_blackboard_write(&mut self, key: u32, value: BlackboardValue) {
        self.events.push(ObserverEvent::BlackboardWrite(key, value));
    }

    fn on_utility_score(&mut self, action_index: usize, score_milli: i64) {
        self.events.push(ObserverEvent::UtilityScore(action_index, score_milli));
    }
}

} // verus!
