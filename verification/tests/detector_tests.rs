use hab_sup::detector::{Detector, DetectorAction, DetectorEvent, DetectorPhase};

#[test]
fn an_answered_probe_ends_quietly() {
    let mut d = Detector::new();
    let a = d.step(DetectorEvent::Tick { now_ms: 1000, pick: Some(7) });
    assert_eq!(a, DetectorAction::SendPing(7));
    assert_eq!(d.probes_sent, 1);
    // The ack arrives inside the 500 ms window.
    let a = d.step(DetectorEvent::AckFrom(7));
    assert_eq!(a, DetectorAction::Hold);
    assert_eq!(d.phase, DetectorPhase::Idle);
    assert_eq!(d.acks_received, 1);
}

#[test]
fn a_strangers_ack_does_not_count() {
    let mut d = Detector::new();
    d.step(DetectorEvent::Tick { now_ms: 1000, pick: Some(7) });
    let a = d.step(DetectorEvent::AckFrom(9));
    assert_eq!(a, DetectorAction::Hold);
    assert!(matches!(d.phase, DetectorPhase::AwaitingAck { target: 7, .. }));
    assert_eq!(d.acks_received, 0);
}

#[test]
fn a_silent_peer_is_probed_indirectly_then_suspected() {
    let mut d = Detector::new();
    d.step(DetectorEvent::Tick { now_ms: 1000, pick: Some(7) });
    // No direct answer within 500 ms: ask others to probe.
    let a = d.step(DetectorEvent::Tick { now_ms: 1500, pick: Some(9) });
    assert_eq!(a, DetectorAction::SendPingReq(7));
    // Nothing relayed within the rest of the interval: suspect.
    let a = d.step(DetectorEvent::Tick { now_ms: 2000, pick: Some(9) });
    assert_eq!(a, DetectorAction::Suspect(7));
    assert_eq!(d.phase, DetectorPhase::Idle);
}

#[test]
fn a_relayed_ack_saves_the_suspect() {
    let mut d = Detector::new();
    d.step(DetectorEvent::Tick { now_ms: 1000, pick: Some(7) });
    d.step(DetectorEvent::Tick { now_ms: 1500, pick: None });
    let a = d.step(DetectorEvent::AckFrom(7));
    assert_eq!(a, DetectorAction::Hold);
    assert_eq!(d.phase, DetectorPhase::Idle);
    assert_eq!(d.acks_received, 1);
}

#[test]
fn nothing_to_probe_nothing_happens() {
    let mut d = Detector::new();
    let a = d.step(DetectorEvent::Tick { now_ms: 1000, pick: None });
    assert_eq!(a, DetectorAction::Hold);
    assert_eq!(d.phase, DetectorPhase::Idle);
    assert_eq!(d.probes_sent, 0);
}
