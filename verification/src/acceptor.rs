//! The connection acceptor as a state machine: admission while listening,
//! draining after a shutdown request, and the stop that follows.
//!
//! The machine decides; the server around it does the waiting. The server
//! feeds it one [`Event`] at a time (a pending connection, the end of a
//! handler, a shutdown request, the end of the grace period) and carries out
//! the [`Action`] that comes back.

use vstd::prelude::*;

verus! {

/// Seconds that handlers in flight are given to finish after a shutdown
/// request, before the server stops without them.
pub const GRACE_PERIOD_SECS: u64 = 10;

/// The most handlers that can be in flight at once.
pub const MAX_IN_FLIGHT: u64 = u64::MAX;

/// The phases of the acceptor, in the order in which they are passed.
#[derive(Clone, Copy, Debug, PartialEq, Eq)]
pub enum Phase {
    /// Connections are admitted.
    Listening,
    /// No connection is admitted; handlers in flight may finish.
    Draining,
    /// Terminal: the server exits.
    Stopped,
}

/// What the server reports to the acceptor.
#[derive(Clone, Copy, Debug, PartialEq, Eq)]
pub enum Event {
    /// The listening socket has handed over a pending connection.
    Connection,
    /// A handler has ended, with or without error.
    HandlerDone,
    /// Termination was requested.
    Shutdown,
    /// The grace period has run out.
    GraceElapsed,
}

/// What the acceptor tells the server to do.
#[derive(Clone, Copy, Debug, PartialEq, Eq)]
pub enum Action {
    /// Hand the connection to a handler of its own.
    Admit,
    /// Drop the connection unhandled.
    Refuse,
    /// Stop accepting, and give the handlers in flight `grace_secs` seconds
    /// to finish.
    BeginDrain { grace_secs: u64 },
    /// Stop the server, leaving `abandoned` handlers unfinished.
    Exit { abandoned: u64 },
    /// Nothing to do but to wait for the next event.
    Continue,
}

/// The state of the acceptor as a mathematical value.
pub struct AcceptorState {
    pub phase: Phase,
    pub in_flight: nat,
}

/// The acceptor: its phase and the number of handlers in flight.
#[derive(Debug)]
pub struct Acceptor {
    phase: Phase,
    in_flight: u64,
}

impl View for Acceptor {
    type V = AcceptorState;

    closed spec fn view(&self) -> AcceptorState {
        AcceptorState { phase: self.phase, in_flight: self.in_flight as nat }
    }
}

/// The state in which a server starts.
pub open spec fn initial() -> AcceptorState {
    AcceptorState { phase: Phase::Listening, in_flight: 0 }
}

/// What holds of every state that the machine reaches: the count fits the
/// machine, and there is no draining with nothing in flight.
pub open spec fn well_formed(state: AcceptorState) -> bool {
    &&& state.in_flight <= MAX_IN_FLIGHT
    &&& state.phase is Draining ==> state.in_flight > 0
}

/// One step of the machine: the state after `event`, and the action it asks
/// for.
pub open spec fn step(state: AcceptorState, event: Event) -> (AcceptorState, Action) {
    match state.phase {
        Phase::Listening => match event {
            Event::Connection => if state.in_flight < MAX_IN_FLIGHT {
                (
                    AcceptorState { phase: Phase::Listening, in_flight: state.in_flight + 1 },
                    Action::Admit,
                )
            } else {
                (state, Action::Refuse)
            },
            Event::HandlerDone => if state.in_flight > 0 {
                (
                    AcceptorState {
                        phase: Phase::Listening,
                        in_flight: (state.in_flight - 1) as nat,
                    },
                    Action::Continue,
                )
            } else {
                (state, Action::Continue)
            },
            Event::Shutdown => if state.in_flight == 0 {
                (AcceptorState { phase: Phase::Stopped, in_flight: 0 }, Action::Exit { abandoned: 0 })
            } else {
                (
                    AcceptorState { phase: Phase::Draining, in_flight: state.in_flight },
                    Action::BeginDrain { grace_secs: GRACE_PERIOD_SECS },
                )
            },
            Event::GraceElapsed => (state, Action::Continue),
        },
        Phase::Draining => match event {
            Event::Connection => (state, Action::Refuse),
            Event::HandlerDone => if state.in_flight <= 1 {
                (AcceptorState { phase: Phase::Stopped, in_flight: 0 }, Action::Exit { abandoned: 0 })
            } else {
                (
                    AcceptorState {
                        phase: Phase::Draining,
                        in_flight: (state.in_flight - 1) as nat,
                    },
                    Action::Continue,
                )
            },
            Event::Shutdown => (state, Action::Continue),
            Event::GraceElapsed => (
                AcceptorState { phase: Phase::Stopped, in_flight: state.in_flight },
                Action::Exit { abandoned: state.in_flight as u64 },
            ),
        },
        Phase::Stopped => match event {
            Event::Connection => (state, Action::Refuse),
            _ => (state, Action::Continue),
        },
    }
}

/// Whether the server waits for `event` in `phase`: while listening, for
/// connections, ended handlers and the shutdown request; while draining, for
/// ended handlers and the end of the grace period; once stopped, for nothing.
pub open spec fn awaits(phase: Phase, event: Event) -> bool {
    match phase {
        Phase::Listening => !(event is GraceElapsed),
        Phase::Draining => event is HandlerDone || event is GraceElapsed,
        Phase::Stopped => false,
    }
}

/// The state after a sequence of events.
pub open spec fn run(state: AcceptorState, events: Seq<Event>) -> AcceptorState
    decreases events.len(),
{
    if events.len() == 0 {
        state
    } else {
        step(run(state, events.drop_last()), events.last()).0
    }
}

/// The action that the event at position `at` of a sequence brings.
pub open spec fn action_at(state: AcceptorState, events: Seq<Event>, at: int) -> Action {
    step(run(state, events.take(at)), events[at]).1
}

/// The number of handlers that the events report as ended.
pub open spec fn done_count(events: Seq<Event>) -> nat
    decreases events.len(),
{
    if events.len() == 0 {
        0
    } else if events.last() is HandlerDone {
        done_count(events.drop_last()) + 1
    } else {
        done_count(events.drop_last())
    }
}

/// Every step keeps the state well formed.
pub proof fn lemma_step_keeps_well_formed(state: AcceptorState, event: Event)
    requires
        well_formed(state),
    ensures
        well_formed(step(state, event).0),
{
}

/// A connection is admitted only while listening, and the phases are never
/// passed backwards: after `Listening` comes `Draining` or `Stopped`, after
/// `Draining` comes `Stopped`, and `Stopped` is terminal.
pub proof fn lemma_phases_advance(state: AcceptorState, event: Event)
    ensures
        step(state, event).1 is Admit ==> state.phase is Listening && event is Connection,
        !(state.phase is Listening) ==> !(step(state, event).0.phase is Listening),
        state.phase is Stopped ==> step(state, event).0 == state,
{
}

/// An event that the server does not wait for changes nothing and admits
/// nothing, should it be reported all the same.
pub proof fn lemma_unawaited_event_changes_nothing(state: AcceptorState, event: Event)
    requires
        !awaits(state.phase, event),
    ensures
        step(state, event).0 == state,
        step(state, event).1 == if event is Connection {
            Action::Refuse
        } else {
            Action::Continue
        },
{
}

/// A shutdown request counts once: a second one changes nothing and asks for
/// nothing.
pub proof fn lemma_shutdown_is_idempotent(state: AcceptorState)
    ensures
        step(step(state, Event::Shutdown).0, Event::Shutdown) == (
            step(state, Event::Shutdown).0,
            Action::Continue,
        ),
{
}

/// The step that stops the server says how many handlers it leaves behind;
/// only the end of the grace period leaves any.
pub proof fn lemma_exit_reports_abandoned(state: AcceptorState, event: Event)
    requires
        well_formed(state),
        !(state.phase is Stopped),
        step(state, event).0.phase is Stopped,
    ensures
        step(state, event).1 == (Action::Exit { abandoned: step(state, event).0.in_flight as u64 }),
        step(state, event).0.in_flight > 0 ==> event is GraceElapsed,
{
}

/// After a shutdown request the machine is never listening again.
pub proof fn lemma_not_listening_after_shutdown(
    state: AcceptorState,
    events: Seq<Event>,
    requested: int,
    later: int,
)
    requires
        0 <= requested < later <= events.len(),
        events[requested] is Shutdown,
    ensures
        !(run(state, events.take(later)).phase is Listening),
    decreases later,
{
    let upto = events.take(later);
    assert(upto.drop_last() =~= events.take(later - 1));
    assert(upto.last() == events[later - 1]);
    if later - 1 > requested {
        lemma_not_listening_after_shutdown(state, events, requested, later - 1);
    }
}

/// Once shutdown is requested no connection is admitted: neither the request
/// itself nor any later event brings `Admit`.
pub proof fn lemma_no_admission_after_shutdown(
    state: AcceptorState,
    events: Seq<Event>,
    requested: int,
    later: int,
)
    requires
        0 <= requested <= later < events.len(),
        events[requested] is Shutdown,
    ensures
        !(action_at(state, events, later) is Admit),
{
    if later > requested {
        lemma_not_listening_after_shutdown(state, events, requested, later);
    }
}

/// While the grace period has not run out, draining follows the handlers:
/// as long as fewer have ended than were in flight the machine drains with
/// the rest in flight, and once all have ended it has stopped with none left.
pub proof fn lemma_drain_follows_handlers(state: AcceptorState, events: Seq<Event>)
    requires
        well_formed(state),
        state.phase is Draining,
        forall|i: int| 0 <= i < events.len() ==> !(#[trigger] events[i] is GraceElapsed),
    ensures
        run(state, events) == if done_count(events) < state.in_flight {
            AcceptorState {
                phase: Phase::Draining,
                in_flight: (state.in_flight - done_count(events)) as nat,
            }
        } else {
            AcceptorState { phase: Phase::Stopped, in_flight: 0 }
        },
    decreases events.len(),
{
    if events.len() > 0 {
        let before = events.drop_last();
        assert forall|i: int| 0 <= i < before.len() implies !(#[trigger] before[i]
            is GraceElapsed) by {
            assert(before[i] == events[i]);
        }
        assert(!(events[events.len() - 1] is GraceElapsed));
        lemma_drain_follows_handlers(state, before);
    }
}

/// Handlers in flight at a shutdown request that all end within the grace
/// period are all allowed to complete: the server stops with none abandoned.
pub proof fn lemma_drain_completes(state: AcceptorState, events: Seq<Event>)
    requires
        well_formed(state),
        state.phase is Draining,
        forall|i: int| 0 <= i < events.len() ==> !(#[trigger] events[i] is GraceElapsed),
        done_count(events) >= state.in_flight,
    ensures
        run(state, events) == (AcceptorState { phase: Phase::Stopped, in_flight: 0 }),
{
    lemma_drain_follows_handlers(state, events);
}

/// Running over two sequences of events one after the other is running over
/// their concatenation.
pub proof fn lemma_run_concat(state: AcceptorState, first: Seq<Event>, second: Seq<Event>)
    ensures
        run(state, first + second) == run(run(state, first), second),
    decreases second.len(),
{
    if second.len() == 0 {
        assert(first + second =~= first);
    } else {
        lemma_run_concat(state, first, second.drop_last());
        assert((first + second).drop_last() =~= first + second.drop_last());
    }
}

/// A server that has stopped stays as it is, whatever is reported to it.
pub proof fn lemma_stopped_is_terminal(state: AcceptorState, events: Seq<Event>)
    requires
        state.phase is Stopped,
    ensures
        run(state, events) == state,
    decreases events.len(),
{
    if events.len() > 0 {
        lemma_stopped_is_terminal(state, events.drop_last());
    }
}

/// Graceful shutdown: when shutdown is requested while handlers are in
/// flight, and all of them end before the grace period runs out, then no
/// connection is admitted from the request on, and the server stops with no
/// handler abandoned.
pub proof fn lemma_graceful_shutdown(state: AcceptorState, after: Seq<Event>)
    requires
        well_formed(state),
        state.phase is Listening,
        forall|i: int| 0 <= i < after.len() ==> !(#[trigger] after[i] is GraceElapsed),
        done_count(after) >= state.in_flight,
    ensures
        run(state, seq![Event::Shutdown] + after) == (AcceptorState {
            phase: Phase::Stopped,
            in_flight: 0,
        }),
        forall|i: int|
            0 <= i <= after.len() ==> !(#[trigger] action_at(
                state,
                seq![Event::Shutdown] + after,
                i,
            ) is Admit),
{
    let request = seq![Event::Shutdown];
    let events = request + after;
    let requested = step(state, Event::Shutdown).0;
    assert(run(state, request) == requested) by {
        assert(request.drop_last() =~= Seq::<Event>::empty());
        assert(run(state, request.drop_last()) == state);
    }
    lemma_run_concat(state, request, after);
    if state.in_flight == 0 {
        lemma_stopped_is_terminal(requested, after);
    } else {
        lemma_drain_completes(requested, after);
    }
    assert forall|i: int| 0 <= i <= after.len() implies !(#[trigger] action_at(state, events, i)
        is Admit) by {
        lemma_no_admission_after_shutdown(state, events, 0, i);
    }
}

impl Acceptor {
    #[verifier::type_invariant]
    spec fn is_well_formed(&self) -> bool {
        well_formed(self@)
    }

    /// The acceptor of a server that starts: listening, with nothing in
    /// flight.
    pub fn new() -> (acceptor: Acceptor)
        ensures
            acceptor@ == initial(),
    {
        Acceptor { phase: Phase::Listening, in_flight: 0 }
    }

    /// The current phase.
    pub fn phase(&self) -> (phase: Phase)
        ensures
            phase == self@.phase,
            well_formed(self@),
    {
        proof {
            use_type_invariant(self);
        }
        self.phase
    }

    /// The number of handlers in flight.
    pub fn in_flight(&self) -> (count: u64)
        ensures
            count == self@.in_flight,
            well_formed(self@),
    {
        proof {
            use_type_invariant(self);
        }
        self.in_flight
    }

    /// Whether to wait for `event` in the current phase: see [`awaits`].
    pub fn awaits(&self, event: Event) -> (waits: bool)
        ensures
            waits == awaits(self@.phase, event),
    {
        match self.phase {
            Phase::Listening => match event {
                Event::GraceElapsed => false,
                _ => true,
            },
            Phase::Draining => match event {
                Event::HandlerDone => true,
                Event::GraceElapsed => true,
                _ => false,
            },
            Phase::Stopped => false,
        }
    }

    /// Takes one event and says what to do about it: see [`step`].
    pub fn step(&mut self, event: Event) -> (action: Action)
        ensures
            (final(self)@, action) == step(old(self)@, event),
            well_formed(old(self)@),
            well_formed(final(self)@),
    {
        proof {
            use_type_invariant(&*self);
        }
        match self.phase {
            Phase::Listening => match event {
                Event::Connection => {
                    if self.in_flight < MAX_IN_FLIGHT {
                        self.in_flight = self.in_flight + 1;
                        Action::Admit
                    } else {
                        Action::Refuse
                    }
                },
                Event::HandlerDone => {
                    if self.in_flight > 0 {
                        self.in_flight = self.in_flight - 1;
                    }
                    Action::Continue
                },
                Event::Shutdown => {
                    if self.in_flight == 0 {
                        self.phase = Phase::Stopped;
                        Action::Exit { abandoned: 0 }
                    } else {
                        self.phase = Phase::Draining;
                        Action::BeginDrain { grace_secs: GRACE_PERIOD_SECS }
                    }
                },
                Event::GraceElapsed => Action::Continue,
            },
            Phase::Draining => match event {
                Event::Connection => Action::Refuse,
                Event::HandlerDone => {
                    if self.in_flight <= 1 {
                        self.phase = Phase::Stopped;
                        self.in_flight = 0;
                        Action::Exit { abandoned: 0 }
                    } else {
                        self.in_flight = self.in_flight - 1;
                        Action::Continue
                    }
                },
                Event::Shutdown => Action::Continue,
                Event::GraceElapsed => {
                    self.phase = Phase::Stopped;
                    Action::Exit { abandoned: self.in_flight }
                },
            },
            Phase::Stopped => match event {
                Event::Connection => Action::Refuse,
                _ => Action::Continue,
            },
        }
    }
}

} // verus!
