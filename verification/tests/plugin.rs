use einkrad::error::{PackageError, PackageErrorKind};
use einkrad::package::Polled;
use einkrad::plugin::{
    inbound, outcome, sleep_for, step, PluginAction, PluginEvent, PluginState, TICK_NANOS,
};

#[test]
fn tick_period_is_a_tenth_of_a_second() {
    assert_eq!(TICK_NANOS, 100_000_000);
}

#[test]
fn sleep_is_the_rest_of_the_period() {
    assert_eq!(sleep_for(0), 100_000_000);
    assert_eq!(sleep_for(1), 99_999_999);
    assert_eq!(sleep_for(30_000_000), 70_000_000);
    assert_eq!(sleep_for(99_999_999), 1);
}

#[test]
fn overrun_tick_sleeps_zero() {
    assert_eq!(sleep_for(100_000_000), 0);
    assert_eq!(sleep_for(100_000_001), 0);
    assert_eq!(sleep_for(u64::MAX), 0);
}

#[test]
fn start_up_binds_loads_and_starts() {
    let (s, a) = step(PluginState::Created, PluginEvent::Spawned);
    assert_eq!((s, a), (PluginState::Binding, PluginAction::Bind));
    let (s, a) = step(s, PluginEvent::Done);
    assert_eq!((s, a), (PluginState::Loading, PluginAction::Load));
    let (s, a) = step(s, PluginEvent::Done);
    assert_eq!((s, a), (PluginState::Starting, PluginAction::Start));
    let (s, a) = step(s, PluginEvent::Done);
    assert_eq!((s, a), (PluginState::Draining, PluginAction::Tick));
}

#[test]
fn tick_delivers_queued_texts_in_order_then_updates_once() {
    let events = vec![
        PluginEvent::Inbound(Some(String::from("one"))),
        PluginEvent::Done,
        PluginEvent::Inbound(Some(String::from("two"))),
        PluginEvent::Done,
        PluginEvent::Inbound(None),
        PluginEvent::Updated(40_000_000),
        PluginEvent::Done,
    ];
    let mut state = PluginState::Draining;
    let mut actions = Vec::new();
    for event in events {
        let (next, action) = step(state, event);
        state = next;
        actions.push(action);
    }
    assert_eq!(
        actions,
        vec![
            PluginAction::Deliver(String::from("one")),
            PluginAction::Poll,
            PluginAction::Deliver(String::from("two")),
            PluginAction::Poll,
            PluginAction::Update,
            PluginAction::Sleep(60_000_000),
            PluginAction::Tick,
        ]
    );
    assert_eq!(state, PluginState::Draining);
}

#[test]
fn tick_without_texts_updates_at_once() {
    let (s, a) = step(PluginState::Draining, PluginEvent::Inbound(None));
    assert_eq!((s, a), (PluginState::Updating, PluginAction::Update));
    let (s, a) = step(s, PluginEvent::Updated(250_000_000));
    assert_eq!((s, a), (PluginState::Sleeping, PluginAction::Sleep(0)));
}

#[test]
fn failure_ends_the_thread_from_every_running_state() {
    let running = [
        PluginState::Created,
        PluginState::Binding,
        PluginState::Loading,
        PluginState::Starting,
        PluginState::Draining,
        PluginState::Delivering,
        PluginState::Updating,
        PluginState::Sleeping,
    ];
    for state in running {
        let error = PackageError { kind: PackageErrorKind::Lua, msg: String::from("boom") };
        let (s, a) = step(state, PluginEvent::Failed(error));
        assert_eq!(s, PluginState::Stopped);
        assert_eq!(
            a,
            PluginAction::Fail(PackageError {
                kind: PackageErrorKind::Lua,
                msg: String::from("boom")
            })
        );
    }
}

#[test]
fn stopped_thread_stays_stopped() {
    let error = PackageError { kind: PackageErrorKind::Io, msg: String::from("gone") };
    for event in [
        PluginEvent::Spawned,
        PluginEvent::Done,
        PluginEvent::Failed(error),
        PluginEvent::Inbound(None),
        PluginEvent::Inbound(Some(String::from("x"))),
        PluginEvent::Updated(1),
    ] {
        assert_eq!(step(PluginState::Stopped, event), (PluginState::Stopped, PluginAction::Halt));
    }
}

#[test]
fn unexpected_event_halts() {
    assert_eq!(
        step(PluginState::Created, PluginEvent::Done),
        (PluginState::Stopped, PluginAction::Halt)
    );
    assert_eq!(
        step(PluginState::Binding, PluginEvent::Spawned),
        (PluginState::Stopped, PluginAction::Halt)
    );
    assert_eq!(
        step(PluginState::Updating, PluginEvent::Done),
        (PluginState::Stopped, PluginAction::Halt)
    );
    assert_eq!(
        step(PluginState::Draining, PluginEvent::Updated(5)),
        (PluginState::Stopped, PluginAction::Halt)
    );
    assert_eq!(
        step(PluginState::Sleeping, PluginEvent::Inbound(None)),
        (PluginState::Stopped, PluginAction::Halt)
    );
    assert_eq!(
        step(PluginState::Delivering, PluginEvent::Inbound(Some(String::from("x")))),
        (PluginState::Stopped, PluginAction::Halt)
    );
}

#[test]
fn found_text_becomes_an_inbound_event() {
    assert_eq!(
        inbound(Polled::Message(String::from("hello"))),
        PluginEvent::Inbound(Some(String::from("hello")))
    );
    assert_eq!(inbound(Polled::Empty), PluginEvent::Inbound(None));
    assert_eq!(inbound(Polled::Disconnected), PluginEvent::Inbound(None));
}

#[test]
fn result_of_a_call_becomes_done_or_failed() {
    assert_eq!(outcome(Ok(())), PluginEvent::Done);
    let error = PackageError { kind: PackageErrorKind::Lua, msg: String::from("boom") };
    assert_eq!(
        outcome(Err(error)),
        PluginEvent::Failed(PackageError { kind: PackageErrorKind::Lua, msg: String::from("boom") })
    );
}
