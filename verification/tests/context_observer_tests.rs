use cogwise::{
    Blackboard, BlackboardValue, Context, NoOpObserver, Observer, ObserverEvent,
    RecordingObserver, Status,
};

#[test]
fn context_tick_count() {
    let ctx = Context::new(10, 2, Blackboard::new());
    assert_eq!(ctx.tick(), 10);
    assert_eq!(ctx.delta_ticks(), 2);
}

#[test]
fn context_blackboard_read_write() {
    let mut ctx = Context::new(0, 1, Blackboard::new());
    ctx.blackboard_mut().set_int(1, 7);
    assert_eq!(ctx.blackboard().get_int(1), Some(7));
}

#[test]
fn observer_records_events() {
    let mut observer = RecordingObserver::default();
    observer.on_enter(3);
    observer.on_exit(3, Status::Success);
    observer.on_blackboard_write(5, BlackboardValue::Int(7));
    observer.on_utility_score(1, 750);

    assert_eq!(
        observer.events,
        vec![
            ObserverEvent::Enter(3),
            ObserverEvent::Exit(3, Status::Success),
            ObserverEvent::BlackboardWrite(5, BlackboardValue::Int(7)),
            ObserverEvent::UtilityScore(1, 750),
        ]
    );
}

#[test]
fn observer_noop_compiles() {
    let mut observer = NoOpObserver;
    observer.on_enter(0);
    observer.on_exit(0, Status::Running);
}
