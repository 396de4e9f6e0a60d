//! The supervised child process: its state machine, the restart policy,
//! the health-check mapping, and output bounding.

use vstd::prelude::*;
use vstd::string::StringExecFns;
use crate::gossip_file::{backoff_ms, spec_backoff_ms};

verus! {

/// Continuous liveness needed before the restart backoff resets.
pub const STABLE_FOR_MS: u64 = 30000;

/// Health-check output kept before truncation.
pub const OUTPUT_LIMIT: usize = 4096;

/// What a health check reported.
#[derive(Clone, Copy, Debug, PartialEq, Eq, Structural)]
pub enum HealthStatus {
    /// Exit code 0: the service is well.
    Okay,
    /// Exit code 1: the service runs degraded.
    Warning,
    /// Exit code 2: the service is failing.
    Critical,
    /// Any other exit code: the check itself misbehaved.
    Unknown,
}

/// The health a check's exit code reports: 0, 1 and 2 in order, anything
/// else unknown.
pub open spec fn spec_status_from_exit(code: i32) -> HealthStatus {
    if code == 0 {
        HealthStatus::Okay
    } else if code == 1 {
        HealthStatus::Warning
    } else if code == 2 {
        HealthStatus::Critical
    } else {
        HealthStatus::Unknown
    }
}

/// The health a check's exit code reports.
pub fn status_from_exit(code: i32) -> (r: HealthStatus)
    ensures
        r == spec_status_from_exit(code),
{
    if code == 0 {
        HealthStatus::Okay
    } else if code == 1 {
        HealthStatus::Warning
    } else if code == 2 {
        HealthStatus::Critical
    } else {
        HealthStatus::Unknown
    }
}

/// The HTTP status the health endpoint answers with: well or degraded is
/// 200, failing is 503, a broken check is 500.
pub open spec fn spec_http_code_of(s: HealthStatus) -> u16 {
    match s {
        HealthStatus::Okay => 200,
        HealthStatus::Warning => 200,
        HealthStatus::Critical => 503,
        HealthStatus::Unknown => 500,
    }
}

/// The HTTP status the health endpoint answers with.
pub fn http_code_of(s: HealthStatus) -> (r: u16)
    ensures
        r == spec_http_code_of(s),
{
    match s {
        HealthStatus::Okay => 200,
        HealthStatus::Warning => 200,
        HealthStatus::Critical => 503,
        HealthStatus::Unknown => 500,
    }
}

/// The marker appended to truncated output: "..[truncated]".
pub open spec fn truncation_marker() -> Seq<u8> {
    seq![
        46u8, 46u8, 91u8, 116u8, 114u8, 117u8, 110u8, 99u8, 97u8, 116u8, 101u8, 100u8, 93u8,
    ]
}

/// Bound captured output: up to `OUTPUT_LIMIT` bytes kept verbatim, more
/// is cut there and marked.
pub fn bound_output(out: Vec<u8>) -> (r: Vec<u8>)
    ensures
        out@.len() <= OUTPUT_LIMIT ==> r@ == out@,
        out@.len() > OUTPUT_LIMIT ==> r@ == out@.subrange(0, OUTPUT_LIMIT as int)
            + truncation_marker(),
{
    if out.len() <= OUTPUT_LIMIT {
        return out;
    }
    let ghost orig = out@;
    let mut out = out;
    out.truncate(OUTPUT_LIMIT);
    out.push(46);
    out.push(46);
    out.push(91);
    out.push(116);
    out.push(114);
    out.push(117);
    out.push(110);
    out.push(99);
    out.push(97);
    out.push(116);
    out.push(101);
    out.push(100);
    out.push(93);
    proof {
        assert(out@ =~= orig.subrange(0, OUTPUT_LIMIT as int) + truncation_marker());
    }
    out
}

/// The life of the supervised child.
#[derive(Clone, Copy, Debug, PartialEq, Eq, Structural)]
pub enum ProcessState {
    /// No child runs.
    Down,
    /// A start was ordered; the child is not up yet.
    Starting,
    /// The child runs under this pid.
    Up,
    /// A stop was ordered; the child has until its grace deadline.
    Stopping,
}

/// The supervised child process, as the supervisor sees it.
pub struct Supervisor {
    pub state: ProcessState,
    /// The child's pid while one runs.
    pub pid: Option<u32>,
    /// Consecutive restarts since the child last ran stable.
    pub restarts: u32,
    /// When the running child started, in supervisor milliseconds.
    pub started_at_ms: u64,
    /// When a stopping child is forcibly killed.
    pub grace_deadline_ms: Option<u64>,
}

impl Supervisor {
    /// A supervisor with no child yet.
    pub fn new() -> (s: Supervisor)
        ensures
            s.state == ProcessState::Down,
            s.pid is None,
            s.restarts == 0,
            s.grace_deadline_ms is None,
    {
        Supervisor {
            state: ProcessState::Down,
            pid: None,
            restarts: 0,
            started_at_ms: 0,
            grace_deadline_ms: None,
        }
    }

    /// The child came up under `pid` at `now_ms`.
    pub fn started(&mut self, pid: u32, now_ms: u64)
        ensures
            *final(self) == (Supervisor {
                state: ProcessState::Up,
                pid: Some(pid),
                started_at_ms: now_ms,
                grace_deadline_ms: None,
                ..*old(self)
            }),
    {
        self.state = ProcessState::Up;
        self.pid = Some(pid);
        self.started_at_ms = now_ms;
        self.grace_deadline_ms = None;
    }

    /// The child exited on its own at `now_ms`: the restart policy
    /// answers with the backoff to wait before the next start. A child
    /// that ran stable resets the backoff; otherwise it doubles, capped.
    pub fn child_exited(&mut self, now_ms: u64) -> (delay_ms: u64)
        requires
            old(self).started_at_ms <= now_ms,
        ensures
            final(self).state == ProcessState::Down,
            final(self).pid is None,
            ({
                let stable = now_ms - old(self).started_at_ms >= STABLE_FOR_MS;
                if stable {
                    final(self).restarts == 1 && delay_ms == spec_backoff_ms(0)
                } else {
                    final(self).restarts == (if old(self).restarts < u32::MAX {
                        (old(self).restarts + 1) as u32
                    } else {
                        old(self).restarts
                    }) && delay_ms == spec_backoff_ms(old(self).restarts)
                }
            }),
    {
        self.state = ProcessState::Down;
        self.pid = None;
        let delay: u64;
        if now_ms - self.started_at_ms >= STABLE_FOR_MS {
            self.restarts = 1;
            delay = backoff_ms(0);
        } else {
            delay = backoff_ms(self.restarts);
            if self.restarts < u32::MAX {
                self.restarts = self.restarts + 1;
            }
        }
        delay
    }

    /// A stop was ordered: the child has until `now_ms + grace_ms`, then
    /// it is killed outright.
    pub fn stop_ordered(&mut self, now_ms: u64, grace_ms: u64)
        requires
            now_ms + grace_ms <= u64::MAX,
        ensures
            *final(self) == (Supervisor {
                state: ProcessState::Stopping,
                grace_deadline_ms: Some((now_ms + grace_ms) as u64),
                ..*old(self)
            }),
    {
        self.state = ProcessState::Stopping;
        self.grace_deadline_ms = Some(now_ms + grace_ms);
    }

    /// Whether a stopping child's grace has run out at `now_ms`: then it
    /// is killed, not waited on.
    pub fn grace_expired(&self, now_ms: u64) -> (r: bool)
        ensures
            r == (self.state == ProcessState::Stopping && match self.grace_deadline_ms {
                Some(d) => now_ms >= d,
                None => false,
            }),
    {
        match self.state {
            ProcessState::Stopping => match self.grace_deadline_ms {
                Some(d) => now_ms >= d,
                None => false,
            },
            _ => false,
        }
    }

    /// The child is gone, by exit or by force.
    pub fn stopped(&mut self)
        ensures
            *final(self) == (Supervisor {
                state: ProcessState::Down,
                pid: None,
                grace_deadline_ms: None,
                ..*old(self)
            }),
    {
        self.state = ProcessState::Down;
        self.pid = None;
        self.grace_deadline_ms = None;
    }

    /// The supervisor's snapshot of the child: its state and a one-word
    /// description.
    pub fn status(&self) -> (r: (ProcessState, String))
        ensures
            r.0 == self.state,
            self.state == ProcessState::Down ==> r.1@ == "down"@,
            self.state == ProcessState::Starting ==> r.1@ == "starting"@,
            self.state == ProcessState::Up ==> r.1@ == "up"@,
            self.state == ProcessState::Stopping ==> r.1@ == "stopping"@,
    {
        let text = match self.state {
            ProcessState::Down => String::from_str("down"),
            ProcessState::Starting => String::from_str("starting"),
            ProcessState::Up => String::from_str("up"),
            ProcessState::Stopping => String::from_str("stopping"),
        };
        (self.state, text)
    }
}

} // verus!
