use hab_sup::signal::{
    Message, NotifierState, PollOutcome, Signal, SignalNotifier, TIMEOUT_MS,
};

#[test]
fn signal_numbers_match_posix() {
    assert_eq!(Signal::SIGHUP.number(), 1);
    assert_eq!(Signal::SIGINT.number(), 2);
    assert_eq!(Signal::SIGQUIT.number(), 3);
    assert_eq!(Signal::SIGKILL.number(), 9);
    assert_eq!(Signal::SIGALRM.number(), 14);
    assert_eq!(Signal::SIGTERM.number(), 15);
    assert_eq!(Signal::SIGUSR1.number(), 30);
    assert_eq!(Signal::SIGUSR2.number(), 31);
}

#[test]
fn sigkill_cannot_be_trapped() {
    assert_eq!(Signal::from_number(9), None);
    assert_eq!(Signal::from_number(1), Some(Signal::SIGHUP));
    assert_eq!(Signal::from_number(99), None);
}

#[test]
fn second_start_fails() {
    let mut s = NotifierState::new();
    assert_eq!(SignalNotifier::init(&mut s), Ok(TIMEOUT_MS));
    assert_eq!(SignalNotifier::init(&mut s), Err(()));
    // The notifier is initialized at most once for the whole process:
    // even after a stop, a second start fails.
    assert_eq!(SignalNotifier::stop(&mut s), Message::Okay);
    assert_eq!(SignalNotifier::init(&mut s), Err(()));
}

#[test]
fn stop_is_acknowledged() {
    let (stopping, ack) = SignalNotifier::handle_call(Message::Stop);
    assert!(stopping);
    assert_eq!(ack, Message::Okay);
    let (stopping, ack) = SignalNotifier::handle_call(Message::Signal(Signal::SIGHUP));
    assert!(!stopping);
    assert_eq!(ack, Message::Okay);
}

#[test]
fn rapid_signals_collapse_to_one_event() {
    let mut s = NotifierState::new();
    SignalNotifier::init(&mut s).unwrap();
    // Three SIGHUPs land before the next poll.
    s.store(1);
    s.store(1);
    s.store(1);
    let mut events = 0;
    for _ in 0..5 {
        if let PollOutcome::Event(sig) = SignalNotifier::handle_timeout(&mut s) {
            assert_eq!(sig, Signal::SIGHUP);
            events += 1;
        }
    }
    // Between 1 and 3, never 0: here exactly one, the rest collapsed.
    assert_eq!(events, 1);
}

#[test]
fn each_polled_delivery_is_an_event() {
    let mut s = NotifierState::new();
    SignalNotifier::init(&mut s).unwrap();
    let mut events = 0;
    for _ in 0..3 {
        s.store(15);
        if let PollOutcome::Event(sig) = SignalNotifier::handle_timeout(&mut s) {
            assert_eq!(sig, Signal::SIGTERM);
            events += 1;
        }
    }
    assert_eq!(events, 3);
}

#[test]
fn unknown_signal_number_is_fatal() {
    let mut s = NotifierState::new();
    SignalNotifier::init(&mut s).unwrap();
    s.store(9);
    assert_eq!(SignalNotifier::handle_timeout(&mut s), PollOutcome::Fatal(9));
}

#[test]
fn quiet_poll_reports_nothing() {
    let mut s = NotifierState::new();
    SignalNotifier::init(&mut s).unwrap();
    assert_eq!(SignalNotifier::handle_timeout(&mut s), PollOutcome::Quiet);
}
