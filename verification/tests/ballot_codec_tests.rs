use hab_sup::election::{Election, ElectionStatus, STABILIZATION_WINDOW_MS};
use hab_sup::gossip::{
    retention_expired, suspicion_expired, DEAD_TIMEOUT_MS, SUSPECT_TIMEOUT_MS,
};
use hab_sup::gossip_file::{
    clear_write_retry, record_write_failure, retry_due, FileWriteRetry,
};
use hab_sup::election::majority_stable;
use hab_sup::wire::{decode_ballot, encode_ballot};

fn ballot() -> Election {
    Election {
        service_group: b"redis.default".to_vec(),
        term: 4,
        candidate: 77,
        votes: vec![77, 12, 9000],
        status: ElectionStatus::InProgress,
    }
}

#[test]
fn ballots_round_trip_the_wire() {
    let e = ballot();
    let wire = encode_ballot(&e);
    let back = decode_ballot(wire.as_slice()).expect("an encoded ballot decodes");
    assert_eq!(back.service_group, e.service_group);
    assert_eq!(back.term, 4);
    assert_eq!(back.candidate, 77);
    assert_eq!(back.votes, vec![77, 12, 9000]);
    assert_eq!(back.status, ElectionStatus::InProgress);
}

#[test]
fn a_finished_ballot_round_trips() {
    let mut e = ballot();
    e.status = ElectionStatus::Finished;
    e.votes = vec![77];
    let wire = encode_ballot(&e);
    let back = decode_ballot(wire.as_slice()).expect("an encoded ballot decodes");
    assert_eq!(back.status, ElectionStatus::Finished);
    assert_eq!(back.votes, vec![77]);
}

#[test]
fn duplicate_votes_reject_the_ballot() {
    let mut e = ballot();
    e.votes = vec![77, 12, 77];
    let wire = encode_ballot(&e);
    assert!(decode_ballot(wire.as_slice()).is_none(), "nobody is counted twice");
}

#[test]
fn a_bad_status_byte_rejects_the_ballot() {
    let e = ballot();
    let mut wire = encode_ballot(&e);
    wire[24] = 9;
    assert!(decode_ballot(wire.as_slice()).is_none());
}

#[test]
fn a_truncated_ballot_is_rejected() {
    let e = ballot();
    let wire = encode_ballot(&e);
    assert!(decode_ballot(&wire[..wire.len() - 1]).is_none());
    assert!(decode_ballot(&wire[..10]).is_none());
}

#[test]
fn timeouts_fire_exactly_at_their_deadline() {
    assert!(!suspicion_expired(1000, 1000 + SUSPECT_TIMEOUT_MS - 1));
    assert!(suspicion_expired(1000, 1000 + SUSPECT_TIMEOUT_MS));
    assert!(!retention_expired(1000, 1000 + DEAD_TIMEOUT_MS - 1));
    assert!(retention_expired(1000, 1000 + DEAD_TIMEOUT_MS));
    assert!(!majority_stable(1000, 1000 + STABILIZATION_WINDOW_MS - 1));
    assert!(majority_stable(1000, 1000 + STABILIZATION_WINDOW_MS));
}

#[test]
fn failed_writes_back_off_exponentially() {
    let mut retries: Vec<FileWriteRetry> = Vec::new();
    record_write_failure(&mut retries, b"app.toml", 1000);
    assert_eq!(retries.len(), 1);
    assert_eq!(retries[0].attempts, 1);
    assert_eq!(retries[0].next_attempt_ms, 1100);
    assert!(!retry_due(&retries[0], 1099));
    assert!(retry_due(&retries[0], 1100));

    record_write_failure(&mut retries, b"app.toml", 1100);
    assert_eq!(retries.len(), 1);
    assert_eq!(retries[0].attempts, 2);
    assert_eq!(retries[0].next_attempt_ms, 1100 + 200);

    // A different file keeps its own record.
    record_write_failure(&mut retries, b"other.toml", 1000);
    assert_eq!(retries.len(), 2);

    assert!(clear_write_retry(&mut retries, b"app.toml"));
    assert_eq!(retries.len(), 1);
    assert_eq!(retries[0].filename, b"other.toml".to_vec());
    assert!(!clear_write_retry(&mut retries, b"app.toml"));
}
