//! The failure detector's probe cycle.
//!
//! Each probe interval the detector pings one random alive peer. An
//! unanswered ping is retried indirectly through other members; a probe
//! that stays unanswered for the whole interval puts the target under
//! suspicion. The clock readings and the datagrams come from outside;
//! every decision is made here.

use vstd::prelude::*;
use crate::gossip::{PING_TIMEOUT_MS, PROBE_INTERVAL_MS};

verus! {

/// Where the detector stands in its probe cycle.
#[derive(Clone, Copy, Debug, PartialEq, Eq, Structural)]
pub enum DetectorPhase {
    /// Between probes.
    Idle,
    /// A ping went to `target`; a direct answer is due by `deadline_ms`.
    AwaitingAck { target: u128, deadline_ms: u64 },
    /// Other members were asked to probe `target`; a relayed answer is
    /// due by `deadline_ms`.
    AwaitingIndirect { target: u128, deadline_ms: u64 },
}

/// What the host must do after a detector step.
#[derive(Clone, Copy, Debug, PartialEq, Eq, Structural)]
pub enum DetectorAction {
    /// Nothing; wait for the next event.
    Hold,
    /// Send a ping to this member.
    SendPing(u128),
    /// Ask `PINGREQ_FANOUT` other members to probe this member.
    SendPingReq(u128),
    /// The probe ran out unanswered: mark this member suspect and gossip
    /// a suspicion rumor.
    Suspect(u128),
}

/// What the detector hears between steps.
#[derive(Clone, Copy, Debug, PartialEq, Eq, Structural)]
pub enum DetectorEvent {
    /// The probe interval elapsed; `pick` is a random alive peer to
    /// probe next, if any.
    Tick { now_ms: u64, pick: Option<u128> },
    /// An acknowledgment arrived — direct or relayed — from this member.
    AckFrom(u128),
}

/// The probe scheduler's state: its phase and its counters.
#[derive(Clone, Copy, Debug, PartialEq, Eq, Structural)]
pub struct Detector {
    pub phase: DetectorPhase,
    pub probes_sent: u64,
    pub acks_received: u64,
}

/// The detector's transition: what one event makes of one phase.
///
/// Idle, a tick starts a probe of the picked peer, answer due within
/// `PING_TIMEOUT_MS`. Awaiting a direct answer, the target's ack ends the
/// probe; a tick past the deadline asks others to probe indirectly, with
/// the rest of the probe interval to answer. Awaiting an indirect answer,
/// the target's relayed ack ends the probe; a tick past the deadline
/// gives the target up as suspect. Strangers' acks change nothing.
pub open spec fn spec_detector_step(phase: DetectorPhase, ev: DetectorEvent) -> (
    DetectorPhase,
    DetectorAction,
) {
    match phase {
        DetectorPhase::Idle => match ev {
            DetectorEvent::Tick { now_ms, pick } => match pick {
                Some(t) => if now_ms + PING_TIMEOUT_MS <= u64::MAX {
                    (
                        DetectorPhase::AwaitingAck {
                            target: t,
                            deadline_ms: (now_ms + PING_TIMEOUT_MS) as u64,
                        },
                        DetectorAction::SendPing(t),
                    )
                } else {
                    (phase, DetectorAction::Hold)
                },
                None => (phase, DetectorAction::Hold),
            },
            DetectorEvent::AckFrom(_) => (phase, DetectorAction::Hold),
        },
        DetectorPhase::AwaitingAck { target, deadline_ms } => match ev {
            DetectorEvent::AckFrom(m) => if m == target {
                (DetectorPhase::Idle, DetectorAction::Hold)
            } else {
                (phase, DetectorAction::Hold)
            },
            DetectorEvent::Tick { now_ms, .. } => if now_ms >= deadline_ms && now_ms
                + PROBE_INTERVAL_MS >= PING_TIMEOUT_MS && now_ms + PROBE_INTERVAL_MS
                - PING_TIMEOUT_MS <= u64::MAX {
                (
                    DetectorPhase::AwaitingIndirect {
                        target,
                        deadline_ms: (now_ms + PROBE_INTERVAL_MS - PING_TIMEOUT_MS) as u64,
                    },
                    DetectorAction::SendPingReq(target),
                )
            } else {
                (phase, DetectorAction::Hold)
            },
        },
        DetectorPhase::AwaitingIndirect { target, deadline_ms } => match ev {
            DetectorEvent::AckFrom(m) => if m == target {
                (DetectorPhase::Idle, DetectorAction::Hold)
            } else {
                (phase, DetectorAction::Hold)
            },
            DetectorEvent::Tick { now_ms, .. } => if now_ms >= deadline_ms {
                (DetectorPhase::Idle, DetectorAction::Suspect(target))
            } else {
                (phase, DetectorAction::Hold)
            },
        },
    }
}

impl Detector {
    /// A detector that has not probed yet.
    pub fn new() -> (d: Detector)
        ensures
            d == (Detector { phase: DetectorPhase::Idle, probes_sent: 0, acks_received: 0 }),
    {
        Detector { phase: DetectorPhase::Idle, probes_sent: 0, acks_received: 0 }
    }

    /// Feed the detector one event and learn what to do. The counters
    /// track probes begun and probes answered, saturating.
    pub fn step(&mut self, ev: DetectorEvent) -> (action: DetectorAction)
        ensures
            (final(self).phase, action) == spec_detector_step(old(self).phase, ev),
            final(self).probes_sent == (if action matches DetectorAction::SendPing(_)
                && old(self).probes_sent < u64::MAX {
                (old(self).probes_sent + 1) as u64
            } else {
                old(self).probes_sent
            }),
            final(self).acks_received == (if old(self).phase != final(self).phase
                && final(self).phase == DetectorPhase::Idle && old(self).acks_received
                < u64::MAX {
                (old(self).acks_received + 1) as u64
            } else {
                old(self).acks_received
            }),
    {
        let (next, action) = Self::transition(self.phase, ev);
        let answered = match (self.phase, next) {
            (DetectorPhase::Idle, _) => false,
            (_, DetectorPhase::Idle) => true,
            _ => false,
        };
        proof {
            assert(answered == (old(self).phase != next && next == DetectorPhase::Idle)) by {
                assert(old(self).phase == DetectorPhase::Idle && next == DetectorPhase::Idle
                    ==> old(self).phase == next);
            }
        }
        self.phase = next;
        match action {
            DetectorAction::SendPing(_) => {
                if self.probes_sent < u64::MAX {
                    self.probes_sent = self.probes_sent + 1;
                }
            },
            _ => {},
        }
        if answered && self.acks_received < u64::MAX {
            self.acks_received = self.acks_received + 1;
        }
        action
    }

    /// The transition itself, as a function.
    fn transition(phase: DetectorPhase, ev: DetectorEvent) -> (r: (DetectorPhase, DetectorAction))
        ensures
            r == spec_detector_step(phase, ev),
    {
        match phase {
            DetectorPhase::Idle => match ev {
                DetectorEvent::Tick { now_ms, pick } => match pick {
                    Some(t) => if now_ms <= u64::MAX - PING_TIMEOUT_MS {
                        (
                            DetectorPhase::AwaitingAck {
                                target: t,
                                deadline_ms: now_ms + PING_TIMEOUT_MS,
                            },
                            DetectorAction::SendPing(t),
                        )
                    } else {
                        (phase, DetectorAction::Hold)
                    },
                    None => (phase, DetectorAction::Hold),
                },
                DetectorEvent::AckFrom(_) => (phase, DetectorAction::Hold),
            },
            DetectorPhase::AwaitingAck { target, deadline_ms } => match ev {
                DetectorEvent::AckFrom(m) => if m == target {
                    (DetectorPhase::Idle, DetectorAction::Hold)
                } else {
                    (phase, DetectorAction::Hold)
                },
                DetectorEvent::Tick { now_ms, .. } => if now_ms >= deadline_ms && now_ms
                    <= u64::MAX - (PROBE_INTERVAL_MS - PING_TIMEOUT_MS) {
                    (
                        DetectorPhase::AwaitingIndirect {
                            target,
                            deadline_ms: now_ms + (PROBE_INTERVAL_MS - PING_TIMEOUT_MS),
                        },
                        DetectorAction::SendPingReq(target),
                    )
                } else {
                    (phase, DetectorAction::Hold)
                },
            },
            DetectorPhase::AwaitingIndirect { target, deadline_ms } => match ev {
                DetectorEvent::AckFrom(m) => if m == target {
                    (DetectorPhase::Idle, DetectorAction::Hold)
                } else {
                    (phase, DetectorAction::Hold)
                },
                DetectorEvent::Tick { now_ms, .. } => if now_ms >= deadline_ms {
                    (DetectorPhase::Idle, DetectorAction::Suspect(target))
                } else {
                    (phase, DetectorAction::Hold)
                },
            },
        }
    }
}

} // verus!
