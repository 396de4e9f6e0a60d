use hab_sup::gossip::{
    apply_delta, delta_for, digest_of, InboundQueue, INBOUND_QUEUE_LIMIT,
};
use hab_sup::gossip_file::{
    backoff_ms, file_decision, FileApply, FileDecision, GossipFile,
};
use hab_sup::rumor::{Rumor, RumorKind, RumorList};

fn rumor(kind: RumorKind, key: &[u8], incarnation: u64, body: &[u8]) -> Rumor {
    Rumor { kind, key: key.to_vec(), incarnation, body: body.to_vec() }
}

/// One pull round: `to` asks `from` for everything newer than its digest.
fn pull(to: &mut RumorList, from: &RumorList) {
    let digest = digest_of(to);
    let delta = delta_for(from, &digest);
    apply_delta(to, delta);
}

#[test]
fn delta_carries_only_what_the_peer_lacks() {
    let mut a = RumorList::new();
    a.add_rumor(rumor(RumorKind::ServiceConfig, b"sg", 2, b"new"));
    a.add_rumor(rumor(RumorKind::Election, b"sg", 1, b"ballot"));

    let mut b = RumorList::new();
    b.add_rumor(rumor(RumorKind::ServiceConfig, b"sg", 1, b"old"));

    let delta = delta_for(&a, &digest_of(&b));
    // b lacks the election rumor and holds the config at a lower incarnation.
    assert_eq!(delta.len(), 2);

    let delta_back = delta_for(&b, &digest_of(&a));
    // a already dominates everything b has.
    assert_eq!(delta_back.len(), 0);
}

#[test]
fn rumor_gossip_reaches_every_node() {
    // Publish a gossip file rumor at a; two pull rounds later b and c hold
    // byte-identical contents.
    let mut a = RumorList::new();
    let mut b = RumorList::new();
    let mut c = RumorList::new();
    a.add_rumor(rumor(RumorKind::GossipFile, b"sg/app.toml", 1, b"port = 8080"));

    pull(&mut b, &a);
    pull(&mut c, &b);

    for node in [&b, &c] {
        assert_eq!(node.rumors.len(), 1);
        assert_eq!(node.rumors[0].body, b"port = 8080".to_vec());
        assert_eq!(node.rumors[0].incarnation, 1);
    }
}

#[test]
fn anti_entropy_converges_both_ways() {
    let mut a = RumorList::new();
    a.add_rumor(rumor(RumorKind::ServiceConfig, b"sg", 3, b"a-side"));
    let mut b = RumorList::new();
    b.add_rumor(rumor(RumorKind::Membership, b"peer", 1, b"b-side"));

    pull(&mut a, &b);
    pull(&mut b, &a);

    assert_eq!(a.rumors.len(), 2);
    assert_eq!(b.rumors.len(), 2);
    let delta = delta_for(&a, &digest_of(&b));
    assert_eq!(delta.len(), 0, "nothing left to exchange");
}

#[test]
fn inbound_queue_drops_beyond_the_limit() {
    let mut q = InboundQueue::new();
    for _ in 0..INBOUND_QUEUE_LIMIT {
        assert!(q.offer(vec![0u8]));
    }
    assert!(!q.offer(vec![1u8]));
    assert!(!q.offer(vec![2u8]));
    assert_eq!(q.dropped, 2);
    assert_eq!(q.queue.len(), INBOUND_QUEUE_LIMIT);
    assert!(q.take().is_some());
}

#[test]
fn file_versions_must_strictly_grow() {
    assert_eq!(file_decision(None, 1, true), FileDecision::Applied);
    assert_eq!(file_decision(Some(1), 2, true), FileDecision::Applied);
    assert_eq!(file_decision(Some(2), 2, true), FileDecision::Stale);
    assert_eq!(file_decision(Some(2), 1, true), FileDecision::Stale);
}

#[test]
fn bad_signature_is_dropped_not_retried() {
    assert_eq!(file_decision(None, 1, false), FileDecision::BadSignature);
    assert_eq!(file_decision(Some(0), 9, false), FileDecision::BadSignature);
}

#[test]
fn write_retry_backoff_doubles_and_caps() {
    assert_eq!(backoff_ms(0), 100);
    assert_eq!(backoff_ms(1), 200);
    assert_eq!(backoff_ms(3), 800);
    assert_eq!(backoff_ms(9), 51200);
    assert_eq!(backoff_ms(10), 60000);
    assert_eq!(backoff_ms(40), 60000);
}

#[test]
fn atomic_apply_never_exposes_a_partial_file() {
    let mut disk = FileApply::new();
    disk.stage(1, b"version one".to_vec());
    // A crash between stage and commit leaves the target untouched.
    disk.crash();
    assert!(disk.current.is_none());

    disk.stage(1, b"version one".to_vec());
    disk.commit();
    assert_eq!(disk.current, Some((1, b"version one".to_vec())));

    // A crash mid-way through the next write keeps the old version whole.
    disk.stage(2, b"version two".to_vec());
    disk.crash();
    assert_eq!(disk.current, Some((1, b"version one".to_vec())));

    disk.stage(2, b"version two".to_vec());
    disk.commit();
    assert_eq!(disk.current, Some((2, b"version two".to_vec())));
}

#[test]
fn gossip_file_from_body_keeps_its_fields() {
    let f = GossipFile::from_body(
        b"redis.default".to_vec(),
        b"app.toml".to_vec(),
        b"port = 8080".to_vec(),
        4,
    );
    assert_eq!(f.service_group, b"redis.default".to_vec());
    assert_eq!(f.filename, b"app.toml".to_vec());
    assert_eq!(f.body, b"port = 8080".to_vec());
    assert_eq!(f.version, 4);
}
