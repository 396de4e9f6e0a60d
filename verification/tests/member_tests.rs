use hab_sup::member::{Health, Member, MemberEvent, MemberList};

fn member(id: u128, incarnation: u64, health: Health) -> Member {
    Member { id, host: b"10.0.0.1".to_vec(), gossip_port: 9638, incarnation, health }
}

fn list() -> MemberList {
    MemberList::new(member(1, 0, Health::Alive))
}

#[test]
fn roster_starts_with_self_alive() {
    let l = list();
    assert_eq!(l.my_id, 1);
    assert_eq!(l.health_of(1), Some(Health::Alive));
    assert_eq!(l.incarnation_of(1), Some(0));
}

#[test]
fn news_about_peers_merges_by_incarnation_then_health() {
    let mut l = list();
    assert_eq!(l.merge_member(member(2, 1, Health::Alive)), MemberEvent::Updated);
    // Equal incarnation, worse health wins.
    assert_eq!(l.merge_member(member(2, 1, Health::Suspect)), MemberEvent::Updated);
    assert_eq!(l.health_of(2), Some(Health::Suspect));
    // Stale news is ignored: the incarnation never decreases.
    assert_eq!(l.merge_member(member(2, 0, Health::Confirmed)), MemberEvent::Ignored);
    assert_eq!(l.incarnation_of(2), Some(1));
    // A greater incarnation refutes the suspicion.
    assert_eq!(l.merge_member(member(2, 2, Health::Alive)), MemberEvent::Updated);
    assert_eq!(l.health_of(2), Some(Health::Alive));
}

#[test]
fn suspicion_about_self_is_refuted_with_greater_incarnation() {
    let mut l = list();
    // A peer gossips that this node (incarnation 0) looks dead.
    let ev = l.merge_member(member(1, 0, Health::Suspect));
    match ev {
        MemberEvent::Refuted(inc) => {
            assert!(inc > 0);
            assert_eq!(l.health_of(1), Some(Health::Alive));
            assert_eq!(l.incarnation_of(1), Some(inc));
        }
        other => panic!("expected a refutation, got {:?}", other),
    }
}

#[test]
fn stale_suspicion_about_self_is_ignored() {
    let mut l = list();
    let ev = l.merge_member(member(1, 5, Health::Suspect));
    let inc = match ev {
        MemberEvent::Refuted(inc) => inc,
        other => panic!("expected a refutation, got {:?}", other),
    };
    assert!(inc > 5);
    // Suspicion below the refuted incarnation no longer moves the node.
    assert_eq!(l.merge_member(member(1, 5, Health::Suspect)), MemberEvent::Ignored);
    assert_eq!(l.health_of(1), Some(Health::Alive));
}

#[test]
fn detector_transitions_alive_suspect_confirmed() {
    let mut l = list();
    l.merge_member(member(2, 3, Health::Alive));
    assert_eq!(l.suspect(2), Some(3));
    assert_eq!(l.health_of(2), Some(Health::Suspect));
    // Suspecting a suspect changes nothing.
    assert_eq!(l.suspect(2), None);
    assert!(l.confirm(2));
    assert_eq!(l.health_of(2), Some(Health::Confirmed));
    assert!(!l.confirm(2));
}

#[test]
fn only_the_confirmed_dead_are_purged() {
    let mut l = list();
    l.merge_member(member(2, 0, Health::Alive));
    l.merge_member(member(3, 0, Health::Alive));
    assert!(!l.purge(2), "an alive member is kept");
    l.suspect(2);
    assert!(!l.purge(2), "a suspect might still refute");
    l.confirm(2);
    assert!(l.purge(2), "a confirmed member is purged after retention");
    assert_eq!(l.health_of(2), None);
    assert_eq!(l.health_of(3), Some(Health::Alive));
    assert_eq!(l.health_of(1), Some(Health::Alive));
}

#[test]
fn alive_peer_ids_excludes_self_and_the_sick() {
    let mut l = list();
    l.merge_member(member(2, 0, Health::Alive));
    l.merge_member(member(3, 0, Health::Alive));
    l.merge_member(member(4, 0, Health::Suspect));
    let mut alive = l.alive_peer_ids();
    alive.sort();
    assert_eq!(alive, vec![2, 3]);
    let suspects = l.peer_ids_with_health(Health::Suspect);
    assert_eq!(suspects, vec![4]);
}

#[test]
fn three_node_convergence() {
    // Nodes a, b and c learn of each other by exchanging their rosters.
    let mut a = MemberList::new(member(1, 0, Health::Alive));
    let mut b = MemberList::new(member(2, 0, Health::Alive));
    let mut c = MemberList::new(member(3, 0, Health::Alive));

    for _round in 0..2 {
        let from_a: Vec<Member> = a.members.iter().map(copy_member).collect();
        let from_b: Vec<Member> = b.members.iter().map(copy_member).collect();
        let from_c: Vec<Member> = c.members.iter().map(copy_member).collect();
        for m in &from_a {
            b.merge_member(copy_member(&m));
            c.merge_member(copy_member(&m));
        }
        for m in &from_b {
            a.merge_member(copy_member(&m));
            c.merge_member(copy_member(&m));
        }
        for m in &from_c {
            a.merge_member(copy_member(&m));
            b.merge_member(copy_member(&m));
        }
    }
    for l in [&a, &b, &c] {
        for id in 1..=3u128 {
            assert_eq!(l.health_of(id), Some(Health::Alive), "node must see {} alive", id);
        }
    }
}

fn copy_member(m: &Member) -> Member {
    Member {
        id: m.id,
        host: m.host.clone(),
        gossip_port: m.gossip_port,
        incarnation: m.incarnation,
        health: m.health,
    }
}
