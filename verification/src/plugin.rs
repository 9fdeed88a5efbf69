//! The life of a plugin thread, as a protocol: the thread's driver
//! performs one action at a time, reports what came of it as an event,
//! and is told the next action. The driver owns the scripting engine, the
//! clock and the queue; the order of things is decided here.

use vstd::prelude::*;
use crate::error::PackageError;
use crate::package::Polled;

verus! {

/// The period of a tick, in nanoseconds: 100 ms.
pub const TICK_NANOS: u64 = 100_000_000;

/// Where a plugin thread stands.
#[derive(Clone, Copy, Debug, PartialEq, Eq, Structural)]
pub enum PluginState {
    /// The thread has not done anything yet.
    Created,
    /// The scripting engine is being set up with the host's bindings.
    Binding,
    /// The entry script is being evaluated.
    Loading,
    /// The script's start callback is running.
    Starting,
    /// A tick is under way and the inbound queue is being looked into.
    Draining,
    /// The script's message callback is running.
    Delivering,
    /// The script's update callback is running.
    Updating,
    /// The thread sleeps until the next tick is due.
    Sleeping,
    /// The thread has ended.
    Stopped,
}

/// What the driver reports.
#[derive(Debug, PartialEq, Eq)]
pub enum PluginEvent {
    /// The thread was spawned.
    Spawned,
    /// The last action was carried out.
    Done,
    /// The last action failed.
    Failed(PackageError),
    /// The look into the inbound queue found this text, or nothing.
    Inbound(Option<String>),
    /// The update callback returned; so many nanoseconds have passed
    /// since the tick began.
    Updated(u64),
}

/// What the driver is to do next.
#[derive(Debug, PartialEq, Eq)]
pub enum PluginAction {
    /// Make a scripting engine and install the host's bindings.
    Bind,
    /// Read and evaluate the entry script.
    Load,
    /// Call the script's start callback.
    Start,
    /// Begin a tick: note the time, then look into the inbound queue.
    Tick,
    /// Look into the inbound queue again.
    Poll,
    /// Call the script's message callback with this text.
    Deliver(String),
    /// Call the script's update callback, then report the time since the
    /// tick began.
    Update,
    /// Sleep for so many nanoseconds.
    Sleep(u64),
    /// Log the error and end the thread. No other thread is affected.
    Fail(PackageError),
    /// End the thread.
    Halt,
}

/// The rest of the tick's period after `elapsed` nanoseconds, zero when
/// the tick overran.
pub open spec fn remaining(elapsed: u64) -> u64 {
    if elapsed >= TICK_NANOS {
        0
    } else {
        (TICK_NANOS - elapsed) as u64
    }
}

/// The protocol. Start-up runs `Bind`, `Load`, `Start`. A tick looks
/// into the inbound queue until it is empty, delivering each text as it is
/// found, then runs `Update` once and sleeps for the rest of the period.
/// A failure at any point ends the thread with `Fail`. An event that the
/// state does not expect ends it with `Halt`.
pub open spec fn next(state: PluginState, event: PluginEvent) -> (PluginState, PluginAction) {
    match (state, event) {
        (PluginState::Stopped, _) => (PluginState::Stopped, PluginAction::Halt),
        (_, PluginEvent::Failed(e)) => (PluginState::Stopped, PluginAction::Fail(e)),
        (PluginState::Created, PluginEvent::Spawned) => (PluginState::Binding, PluginAction::Bind),
        (PluginState::Binding, PluginEvent::Done) => (PluginState::Loading, PluginAction::Load),
        (PluginState::Loading, PluginEvent::Done) => (PluginState::Starting, PluginAction::Start),
        (PluginState::Starting, PluginEvent::Done) => (PluginState::Draining, PluginAction::Tick),
        (PluginState::Draining, PluginEvent::Inbound(Some(text))) => (
            PluginState::Delivering,
            PluginAction::Deliver(text),
        ),
        (PluginState::Draining, PluginEvent::Inbound(None)) => (
            PluginState::Updating,
            PluginAction::Update,
        ),
        (PluginState::Delivering, PluginEvent::Done) => (PluginState::Draining, PluginAction::Poll),
        (PluginState::Updating, PluginEvent::Updated(elapsed)) => (
            PluginState::Sleeping,
            PluginAction::Sleep(remaining(elapsed)),
        ),
        (PluginState::Sleeping, PluginEvent::Done) => (PluginState::Draining, PluginAction::Tick),
        _ => (PluginState::Stopped, PluginAction::Halt),
    }
}

/// The time to sleep after a tick that took `elapsed` nanoseconds.
pub fn sleep_for(elapsed: u64) -> (r: u64)
    ensures
        r == remaining(elapsed),
        r <= TICK_NANOS,
        elapsed < TICK_NANOS ==> r + elapsed == TICK_NANOS,
{
    if elapsed >= TICK_NANOS {
        0
    } else {
        TICK_NANOS - elapsed
    }
}

/// The event for what a look into the inbound queue found. A queue whose
/// sender is gone counts as empty: the tick goes on to the update.
pub fn inbound(found: Polled<String>) -> (e: PluginEvent)
    ensures
        e == match found {
            Polled::Message(text) => PluginEvent::Inbound(Some(text)),
            Polled::Empty => PluginEvent::Inbound(None),
            Polled::Disconnected => PluginEvent::Inbound(None),
        },
{
    match found {
        Polled::Message(text) => PluginEvent::Inbound(Some(text)),
        Polled::Empty => PluginEvent::Inbound(None),
        Polled::Disconnected => PluginEvent::Inbound(None),
    }
}

/// The event for how a script call or a start-up step ended.
pub fn outcome(result: Result<(), PackageError>) -> (e: PluginEvent)
    ensures
        e == match result {
            Ok(_) => PluginEvent::Done,
            Err(error) => PluginEvent::Failed(error),
        },
{
    match result {
        Ok(()) => PluginEvent::Done,
        Err(error) => PluginEvent::Failed(error),
    }
}

/// One step of the protocol: from the state and the driver's report to
/// the next state and the next action.
pub fn step(state: PluginState, event: PluginEvent) -> (r: (PluginState, PluginAction))
    ensures
        r == next(state, event),
{
    match state {
        PluginState::Stopped => (PluginState::Stopped, PluginAction::Halt),
        _ => match event {
            PluginEvent::Failed(e) => (PluginState::Stopped, PluginAction::Fail(e)),
            PluginEvent::Spawned => match state {
                PluginState::Created => (PluginState::Binding, PluginAction::Bind),
                _ => (PluginState::Stopped, PluginAction::Halt),
            },
            PluginEvent::Done => match state {
                PluginState::Binding => (PluginState::Loading, PluginAction::Load),
                PluginState::Loading => (PluginState::Starting, PluginAction::Start),
                PluginState::Starting => (PluginState::Draining, PluginAction::Tick),
                PluginState::Delivering => (PluginState::Draining, PluginAction::Poll),
                PluginState::Sleeping => (PluginState::Draining, PluginAction::Tick),
                _ => (PluginState::Stopped, PluginAction::Halt),
            },
            PluginEvent::Inbound(found) => match state {
                PluginState::Draining => match found {
                    Some(text) => (PluginState::Delivering, PluginAction::Deliver(text)),
                    None => (PluginState::Updating, PluginAction::Update),
                },
                _ => (PluginState::Stopped, PluginAction::Halt),
            },
            PluginEvent::Updated(elapsed) => match state {
                PluginState::Updating => (
                    PluginState::Sleeping,
                    PluginAction::Sleep(sleep_for(elapsed)),
                ),
                _ => (PluginState::Stopped, PluginAction::Halt),
            },
        },
    }
}

/// The state and the actions that a run of events leads to.
pub open spec fn run(state: PluginState, events: Seq<PluginEvent>) -> (
    PluginState,
    Seq<PluginAction>,
)
    decreases events.len(),
{
    if events.len() == 0 {
        (state, Seq::empty())
    } else {
        let (s, actions) = run(state, events.drop_last());
        let (t, a) = next(s, events.last());
        (t, actions.push(a))
    }
}

/// What the driver reports during a tick that finds `texts` queued and
/// takes `elapsed` nanoseconds: each text and the end of its delivery,
/// then the empty queue, then the end of the update.
pub open spec fn tick_events(texts: Seq<String>, elapsed: u64) -> Seq<PluginEvent>
    decreases texts.len(),
{
    if texts.len() == 0 {
        seq![PluginEvent::Inbound(None), PluginEvent::Updated(elapsed)]
    } else {
        seq![PluginEvent::Inbound(Some(texts[0])), PluginEvent::Done] + tick_events(
            texts.drop_first(),
            elapsed,
        )
    }
}

/// What such a tick is to do: deliver each text, in queue order, and look
/// again; then update once; then sleep for the rest of the period.
pub open spec fn tick_actions(texts: Seq<String>, elapsed: u64) -> Seq<PluginAction>
    decreases texts.len(),
{
    if texts.len() == 0 {
        seq![PluginAction::Update, PluginAction::Sleep(remaining(elapsed))]
    } else {
        seq![PluginAction::Deliver(texts[0]), PluginAction::Poll] + tick_actions(
            texts.drop_first(),
            elapsed,
        )
    }
}

/// Running the protocol over two runs of events in a row is running it
/// over the first and then, from the state reached, over the second.
pub proof fn lemma_run_concat(state: PluginState, first: Seq<PluginEvent>, second: Seq<PluginEvent>)
    ensures
        run(state, first + second) == (
            run(run(state, first).0, second).0,
            run(state, first).1 + run(run(state, first).0, second).1,
        ),
    decreases second.len(),
{
    if second.len() == 0 {
        assert(first + second =~= first);
        assert(run(state, first).1 + Seq::<PluginAction>::empty() =~= run(state, first).1);
    } else {
        lemma_run_concat(state, first, second.drop_last());
        assert((first + second).drop_last() =~= first + second.drop_last());
        assert((first + second).last() == second.last());
        let mid = run(state, first);
        let rest = run(mid.0, second.drop_last());
        let a = next(rest.0, second.last()).1;
        assert(mid.1 + rest.1.push(a) =~= (mid.1 + rest.1).push(a));
    }
}

/// A tick delivers every queued text, in queue order, then updates once
/// and sleeps for the rest of the period: from `Draining`, the events of
/// a tick lead to the actions of a tick and to `Sleeping`.
pub proof fn lemma_tick(texts: Seq<String>, elapsed: u64)
    ensures
        run(PluginState::Draining, tick_events(texts, elapsed)) == (
            PluginState::Sleeping,
            tick_actions(texts, elapsed),
        ),
    decreases texts.len(),
{
    reveal_with_fuel(run, 3);
    if texts.len() == 0 {
        let events = tick_events(texts, elapsed);
        assert(events.drop_last() =~= seq![PluginEvent::Inbound(None)]);
        assert(events.drop_last().drop_last() =~= Seq::<PluginEvent>::empty());
        assert(run(PluginState::Draining, events).1 =~= tick_actions(texts, elapsed));
    } else {
        let head = seq![PluginEvent::Inbound(Some(texts[0])), PluginEvent::Done];
        let tail = tick_events(texts.drop_first(), elapsed);
        lemma_tick(texts.drop_first(), elapsed);
        lemma_run_concat(PluginState::Draining, head, tail);
        assert(head.drop_last() =~= seq![PluginEvent::Inbound(Some(texts[0]))]);
        assert(head.drop_last().drop_last() =~= Seq::<PluginEvent>::empty());
        assert(run(PluginState::Draining, head).1 =~= seq![
            PluginAction::Deliver(texts[0]),
            PluginAction::Poll,
        ]);
    }
}

} // verus!
