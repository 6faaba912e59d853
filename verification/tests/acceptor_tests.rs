use rust_toy_webserver::acceptor::{Acceptor, Action, Event, Phase, GRACE_PERIOD_SECS};

fn listening_with(in_flight: u64) -> Acceptor {
    let mut acceptor = Acceptor::new();
    for _ in 0..in_flight {
        assert_eq!(acceptor.step(Event::Connection), Action::Admit);
    }
    acceptor
}

#[test]
fn starts_listening_with_nothing_in_flight() {
    let acceptor = Acceptor::new();
    assert_eq!(acceptor.phase(), Phase::Listening);
    assert_eq!(acceptor.in_flight(), 0);
    assert_eq!(GRACE_PERIOD_SECS, 10);
}

#[test]
fn admits_connections_while_listening() {
    let mut acceptor = Acceptor::new();
    assert_eq!(acceptor.step(Event::Connection), Action::Admit);
    assert_eq!(acceptor.step(Event::Connection), Action::Admit);
    assert_eq!(acceptor.in_flight(), 2);
    assert_eq!(acceptor.step(Event::HandlerDone), Action::Continue);
    assert_eq!(acceptor.in_flight(), 1);
    assert_eq!(acceptor.step(Event::Connection), Action::Admit);
    assert_eq!(acceptor.in_flight(), 2);
    assert_eq!(acceptor.phase(), Phase::Listening);
}

#[test]
fn stray_events_while_listening_change_nothing() {
    let mut acceptor = Acceptor::new();
    assert_eq!(acceptor.step(Event::HandlerDone), Action::Continue);
    assert_eq!(acceptor.step(Event::GraceElapsed), Action::Continue);
    assert_eq!(acceptor.phase(), Phase::Listening);
    assert_eq!(acceptor.in_flight(), 0);
}

#[test]
fn shutdown_with_nothing_in_flight_stops_at_once() {
    let mut acceptor = Acceptor::new();
    assert_eq!(acceptor.step(Event::Shutdown), Action::Exit { abandoned: 0 });
    assert_eq!(acceptor.phase(), Phase::Stopped);
}

#[test]
fn shutdown_admits_nothing_new_and_lets_handlers_finish() {
    let mut acceptor = listening_with(3);
    assert_eq!(acceptor.step(Event::Shutdown), Action::BeginDrain { grace_secs: 10 });
    assert_eq!(acceptor.phase(), Phase::Draining);
    assert_eq!(acceptor.in_flight(), 3);

    assert_eq!(acceptor.step(Event::Connection), Action::Refuse);
    assert_eq!(acceptor.in_flight(), 3);

    assert_eq!(acceptor.step(Event::HandlerDone), Action::Continue);
    assert_eq!(acceptor.step(Event::Connection), Action::Refuse);
    assert_eq!(acceptor.step(Event::HandlerDone), Action::Continue);
    assert_eq!(acceptor.phase(), Phase::Draining);
    assert_eq!(acceptor.in_flight(), 1);
    assert_eq!(acceptor.step(Event::HandlerDone), Action::Exit { abandoned: 0 });
    assert_eq!(acceptor.phase(), Phase::Stopped);
    assert_eq!(acceptor.in_flight(), 0);
}

#[test]
fn grace_period_abandons_what_is_left() {
    let mut acceptor = listening_with(3);
    assert_eq!(acceptor.step(Event::Shutdown), Action::BeginDrain { grace_secs: 10 });
    assert_eq!(acceptor.step(Event::HandlerDone), Action::Continue);
    assert_eq!(acceptor.step(Event::GraceElapsed), Action::Exit { abandoned: 2 });
    assert_eq!(acceptor.phase(), Phase::Stopped);
    assert_eq!(acceptor.in_flight(), 2);
}

#[test]
fn shutdown_request_is_idempotent() {
    let mut acceptor = listening_with(1);
    assert_eq!(acceptor.step(Event::Shutdown), Action::BeginDrain { grace_secs: 10 });
    assert_eq!(acceptor.step(Event::Shutdown), Action::Continue);
    assert_eq!(acceptor.step(Event::Shutdown), Action::Continue);
    assert_eq!(acceptor.phase(), Phase::Draining);
    assert_eq!(acceptor.in_flight(), 1);
}

#[test]
fn stopped_is_terminal() {
    let mut acceptor = listening_with(2);
    acceptor.step(Event::Shutdown);
    acceptor.step(Event::GraceElapsed);
    assert_eq!(acceptor.phase(), Phase::Stopped);

    assert_eq!(acceptor.step(Event::Connection), Action::Refuse);
    assert_eq!(acceptor.step(Event::HandlerDone), Action::Continue);
    assert_eq!(acceptor.step(Event::Shutdown), Action::Continue);
    assert_eq!(acceptor.step(Event::GraceElapsed), Action::Continue);
    assert_eq!(acceptor.phase(), Phase::Stopped);
    assert_eq!(acceptor.in_flight(), 2);
}

#[test]
fn no_event_after_shutdown_is_admitted() {
    let events = [
        Event::Connection,
        Event::Connection,
        Event::Shutdown,
        Event::Connection,
        Event::HandlerDone,
        Event::Connection,
        Event::Shutdown,
        Event::HandlerDone,
        Event::Connection,
        Event::GraceElapsed,
        Event::Connection,
    ];
    let mut acceptor = Acceptor::new();
    let mut requested = false;
    for event in events {
        requested = requested || event == Event::Shutdown;
        let action = acceptor.step(event);
        if requested {
            assert_ne!(action, Action::Admit);
            assert_ne!(acceptor.phase(), Phase::Listening);
        }
    }
    assert_eq!(acceptor.phase(), Phase::Stopped);
}

#[test]
fn each_phase_waits_for_its_own_events() {
    let mut acceptor = listening_with(1);
    assert!(acceptor.awaits(Event::Connection));
    assert!(acceptor.awaits(Event::HandlerDone));
    assert!(acceptor.awaits(Event::Shutdown));
    assert!(!acceptor.awaits(Event::GraceElapsed));

    acceptor.step(Event::Shutdown);
    assert!(!acceptor.awaits(Event::Connection));
    assert!(acceptor.awaits(Event::HandlerDone));
    assert!(!acceptor.awaits(Event::Shutdown));
    assert!(acceptor.awaits(Event::GraceElapsed));

    acceptor.step(Event::GraceElapsed);
    for event in [Event::Connection, Event::HandlerDone, Event::Shutdown, Event::GraceElapsed] {
        assert!(!acceptor.awaits(event));
    }
}
