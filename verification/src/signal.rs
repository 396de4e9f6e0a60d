//! Signal notifier: a state machine over the process-global flags that a
//! POSIX signal handler writes.
//!
//! The handler itself must be async-signal-safe and so lives outside this
//! library; it only stores a "caught" flag and the signal number. This module
//! holds everything that can be decided from those two values: starting the
//! notifier at most once, polling the flags, translating signal numbers, and
//! collapsing repeated signals into at most one event per poll.

use vstd::prelude::*;

verus! {

/// Unix signals of interest to the Supervisor.
///
/// SIGKILL is listed for naming only; it cannot be trapped, so the poll
/// loop never reports it.
#[derive(Clone, Copy, Debug, PartialEq, Eq, Structural)]
pub enum Signal {
    /// terminate process - terminal line hangup
    SIGHUP,
    /// terminate process - interrupt program
    SIGINT,
    /// create core image - quit program
    SIGQUIT,
    /// kill a process (untrappable)
    SIGKILL,
    /// terminate process - real-time timer expired
    SIGALRM,
    /// terminate process - software termination signal
    SIGTERM,
    /// terminate process - user defined signal 1
    SIGUSR1,
    /// terminate process - user defined signal 2
    SIGUSR2,
}

impl Signal {
    /// The conventional number of this signal.
    pub open spec fn spec_number(self) -> u32 {
        match self {
            Signal::SIGHUP => 1,
            Signal::SIGINT => 2,
            Signal::SIGQUIT => 3,
            Signal::SIGKILL => 9,
            Signal::SIGALRM => 14,
            Signal::SIGTERM => 15,
            Signal::SIGUSR1 => 30,
            Signal::SIGUSR2 => 31,
        }
    }

    /// The conventional number of this signal, for handing to the host.
    pub fn number(self) -> (n: u32)
        ensures
            n == self.spec_number(),
    {
        match self {
            Signal::SIGHUP => 1,
            Signal::SIGINT => 2,
            Signal::SIGQUIT => 3,
            Signal::SIGKILL => 9,
            Signal::SIGALRM => 14,
            Signal::SIGTERM => 15,
            Signal::SIGUSR1 => 30,
            Signal::SIGUSR2 => 31,
        }
    }

    /// The trappable signal with number `n`, if any.
    ///
    /// SIGKILL cannot be trapped, so 9 yields `None` like every other
    /// number the notifier did not register a handler for.
    pub open spec fn spec_from_number(n: usize) -> Option<Signal> {
        if n == 1 {
            Some(Signal::SIGHUP)
        } else if n == 2 {
            Some(Signal::SIGINT)
        } else if n == 3 {
            Some(Signal::SIGQUIT)
        } else if n == 14 {
            Some(Signal::SIGALRM)
        } else if n == 15 {
            Some(Signal::SIGTERM)
        } else if n == 30 {
            Some(Signal::SIGUSR1)
        } else if n == 31 {
            Some(Signal::SIGUSR2)
        } else {
            None
        }
    }

    /// Translate a caught signal number back to a `Signal`.
    pub fn from_number(n: usize) -> (r: Option<Signal>)
        ensures
            r == Signal::spec_from_number(n),
    {
        if n == 1 {
            Some(Signal::SIGHUP)
        } else if n == 2 {
            Some(Signal::SIGINT)
        } else if n == 3 {
            Some(Signal::SIGQUIT)
        } else if n == 14 {
            Some(Signal::SIGALRM)
        } else if n == 15 {
            Some(Signal::SIGTERM)
        } else if n == 30 {
            Some(Signal::SIGUSR1)
        } else if n == 31 {
            Some(Signal::SIGUSR2)
        } else {
            None
        }
    }
}

/// Messages exchanged with the notifier task.
#[derive(Clone, Copy, Debug, PartialEq, Eq, Structural)]
pub enum Message {
    /// A trapped signal, delivered to subscribers.
    Signal(Signal),
    /// Ask the notifier to shut down.
    Stop,
    /// Terminal acknowledgment of a stop.
    Okay,
}

/// Milliseconds between polls of the handler flags.
pub const TIMEOUT_MS: u64 = 30;

/// Model of the process-global state shared with the signal handler:
/// whether the notifier task runs, whether a signal was caught since the
/// last poll, and which one.
#[derive(Clone, Copy, Debug, PartialEq, Eq, Structural)]
pub struct NotifierState {
    /// True once a notifier has started; a second start must fail.
    pub alive: bool,
    /// True when the handler has stored a signal not yet polled.
    pub caught: bool,
    /// The number the handler stored; meaningful only while `caught`.
    pub signum: usize,
}

impl NotifierState {
    /// The state before any notifier has started.
    pub fn new() -> (s: NotifierState)
        ensures
            s == (NotifierState { alive: false, caught: false, signum: 0 }),
    {
        NotifierState { alive: false, caught: false, signum: 0 }
    }

    /// What the handler does on delivery of signal number `n`: an
    /// async-signal-safe store of the flag and the number. A second
    /// delivery before the next poll overwrites the first.
    pub fn store(&mut self, n: usize)
        ensures
            *final(self) == (NotifierState { caught: true, signum: n, ..*old(self) }),
    {
        self.caught = true;
        self.signum = n;
    }
}

/// What one poll of the handler flags decided.
#[derive(Clone, Copy, Debug, PartialEq, Eq, Structural)]
pub enum PollOutcome {
    /// Nothing was caught since the last poll; poll again after `TIMEOUT_MS`.
    Quiet,
    /// One trapped signal, collapsed from every delivery since the last
    /// poll; the flags are cleared.
    Event(Signal),
    /// A number no handler was registered for: an invariant violation,
    /// the notifier stops.
    Fatal(usize),
}

/// The functional result of one poll, as a spec-level transition.
pub open spec fn spec_poll(s: NotifierState) -> (NotifierState, PollOutcome) {
    if !s.caught {
        (s, PollOutcome::Quiet)
    } else {
        match Signal::spec_from_number(s.signum) {
            Some(sig) => (
                NotifierState { caught: false, signum: 0, ..s },
                PollOutcome::Event(sig),
            ),
            None => (s, PollOutcome::Fatal(s.signum)),
        }
    }
}

/// Thread worker that traps UNIX signals and delivers each as a typed
/// `Message::Signal` event. The actual trapping and channel plumbing run
/// outside the library; these transitions are its whole decision logic.
pub struct SignalNotifier;

impl SignalNotifier {
    /// Start the notifier: fails if one is already running, otherwise
    /// clears the flags and asks to be polled every `TIMEOUT_MS`.
    ///
    /// Returns `Err(())` exactly when a notifier was already alive.
    pub fn init(s: &mut NotifierState) -> (r: Result<u64, ()>)
        ensures
            old(s).alive ==> r == Result::<u64, ()>::Err(()) && *final(s) == *old(s),
            !old(s).alive ==> r == Result::<u64, ()>::Ok(TIMEOUT_MS) && *final(s) == (
            NotifierState { alive: true, caught: false, signum: 0 }),
    {
        if s.alive {
            Err(())
        } else {
            s.alive = true;
            s.caught = false;
            s.signum = 0;
            Ok(TIMEOUT_MS)
        }
    }

    /// Handle a synchronous call: `Stop` stops normally with a terminal
    /// `Ok` acknowledgment; any other message is unexpected and fatal,
    /// still acknowledged.
    pub fn handle_call(message: Message) -> (r: (bool, Message))
        ensures
            r.0 == (message == Message::Stop),
            r.1 == Message::Okay,
    {
        match message {
            Message::Stop => (true, Message::Okay),
            _ => (false, Message::Okay),
        }
    }

    /// One poll of the handler flags.
    ///
    /// If nothing was caught, nothing changes. If a trappable signal was
    /// caught — however many times since the last poll — exactly one event
    /// is produced and both flags are cleared, so the same delivery is
    /// never reported twice. An unknown number is fatal.
    pub fn handle_timeout(s: &mut NotifierState) -> (r: PollOutcome)
        ensures
            (*final(s), r) == spec_poll(*old(s)),
    {
        if s.caught {
            match Signal::from_number(s.signum) {
                Some(sig) => {
                    s.caught = false;
                    s.signum = 0;
                    PollOutcome::Event(sig)
                },
                None => PollOutcome::Fatal(s.signum),
            }
        } else {
            PollOutcome::Quiet
        }
    }

    /// Ask a running notifier to stop: the caller sends `Stop` and treats
    /// the terminal acknowledgment as success. The notifier is
    /// process-wide and initialized at most once, so stopping does not
    /// clear `alive`: a second start still fails.
    pub fn stop(s: &mut NotifierState) -> (r: Message)
        ensures
            *final(s) == *old(s),
            r == Message::Okay,
    {
        Message::Okay
    }
}

/// One interaction with the handler flags, for reasoning about whole
/// runs: a delivery of the signal under study, or one poll.
pub ghost enum SignalOp {
    Deliver,
    Poll,
}

/// Deliveries in a run.
pub open spec fn count_deliveries(ops: Seq<SignalOp>) -> int
    decreases ops.len(),
{
    if ops.len() == 0 {
        0
    } else {
        (if ops[0] is Deliver {
            1int
        } else {
            0int
        }) + count_deliveries(ops.skip(1))
    }
}

/// Run a sequence of deliveries of signal number `s` and polls: the final
/// flag state, and how many events the polls produced.
pub open spec fn run_signals(st: NotifierState, ops: Seq<SignalOp>, s: usize) -> (
    NotifierState,
    int,
)
    decreases ops.len(),
{
    if ops.len() == 0 {
        (st, 0)
    } else {
        let (st1, c) = match ops[0] {
            SignalOp::Deliver => (NotifierState { caught: true, signum: s, ..st }, 0int),
            SignalOp::Poll => {
                let (st2, out) = spec_poll(st);
                (
                    st2,
                    if out is Event {
                        1int
                    } else {
                        0int
                    },
                )
            },
        };
        let rest = run_signals(st1, ops.skip(1), s);
        (rest.0, c + rest.1)
    }
}

/// Law: signal collapsing. Any run of `n` deliveries of one trappable
/// signal, interleaved with polls, produces at most `n` events; and at
/// least one, provided something was delivered and a poll ran after the
/// last delivery (the flags end clear). Never zero, never more than the
/// deliveries.
pub proof fn lemma_signal_collapsing(st: NotifierState, ops: Seq<SignalOp>, s: usize)
    requires
        Signal::spec_from_number(s) is Some,
        st.caught ==> st.signum == s,
    ensures
        ({
            let fin = run_signals(st, ops, s).0;
            let ev = run_signals(st, ops, s).1;
            &&& (fin.caught ==> fin.signum == s)
            &&& ev + (if fin.caught { 1int } else { 0int })
                <= count_deliveries(ops) + (if st.caught { 1int } else { 0int })
            &&& ((count_deliveries(ops) >= 1 || st.caught) && !fin.caught ==> ev >= 1)
            &&& ev >= 0
        }),
    decreases ops.len(),
{
    if ops.len() > 0 {
        let st1 = match ops[0] {
            SignalOp::Deliver => NotifierState { caught: true, signum: s, ..st },
            SignalOp::Poll => spec_poll(st).0,
        };
        lemma_signal_collapsing(st1, ops.skip(1), s);
    }
}

} // verus!
