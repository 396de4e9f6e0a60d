use hab_sup::census::{Census, CensusEntry};
use hab_sup::election::{election_step, Election, ElectionList, ElectionStatus};

fn entry(member_id: u128, suitability: u64, alive: bool) -> CensusEntry {
    CensusEntry {
        member_id,
        service_group: b"redis.default".to_vec(),
        suitability,
        vote: None,
        leader: false,
        follower: false,
        data_init: true,
        alive,
    }
}

fn census_abc() -> Census {
    Census { entries: vec![entry(1, 10, true), entry(2, 20, true), entry(3, 30, true)] }
}

#[test]
fn quorum_rules() {
    let c = census_abc();
    assert!(c.minimum_quorum());
    assert!(c.has_quorum());
    assert_eq!(c.alive_count(), 3);

    let two = Census { entries: vec![entry(1, 10, true), entry(2, 20, true)] };
    assert!(!two.minimum_quorum());

    let partitioned = Census {
        entries: vec![entry(1, 10, true), entry(2, 20, false), entry(3, 30, false)],
    };
    assert!(!partitioned.has_quorum());
}

#[test]
fn clean_leader_election_prefers_suitability() {
    // Suitabilities a=10, b=20, c=30: everyone names c.
    let c = census_abc();
    let winner = c.determine_winner().expect("someone is alive");
    assert_eq!(c.entries[winner].member_id, 3);
}

#[test]
fn leader_failure_elects_the_next_highest() {
    // c dies: the winner is b, the next-highest suitability.
    let mut c = census_abc();
    c.entries[2].alive = false;
    let winner = c.determine_winner().expect("someone is alive");
    assert_eq!(c.entries[winner].member_id, 2);
}

#[test]
fn the_leader_mark_names_one_entry() {
    let mut c = census_abc();
    assert!(c.get_leader().is_none());
    c.entries[2].leader = true;
    let i = c.get_leader().expect("one entry is marked");
    assert_eq!(c.entries[i].member_id, 3);
}

#[test]
fn candidates_are_ordered_by_suitability_then_id() {
    let c = Census {
        entries: vec![
            entry(1, 10, true),
            entry(2, 20, true),
            entry(3, 30, true),
            entry(4, 20, false),
            entry(5, 20, true),
        ],
    };
    let order: Vec<u128> = c.candidates().iter().map(|&i| c.entries[i].member_id).collect();
    // Best first; the dead entry is left out; the suitability tie at 20
    // breaks toward the smaller id.
    assert_eq!(order, vec![3, 2, 5, 1]);
}

#[test]
fn suitability_ties_break_by_lower_id() {
    let c = Census { entries: vec![entry(9, 20, true), entry(4, 20, true)] };
    let winner = c.determine_winner().expect("someone is alive");
    assert_eq!(c.entries[winner].member_id, 4);
}

#[test]
fn no_winner_without_alive_entries() {
    let c = Census { entries: vec![entry(1, 10, false), entry(2, 20, false)] };
    assert!(c.determine_winner().is_none());
}

#[test]
fn ballots_count_each_voter_once() {
    let mut e = Election::start(b"redis.default".to_vec(), 0, 3);
    assert_eq!(e.term, 1);
    assert_eq!(e.candidate, 3);
    assert!(e.has_voted(3));
    assert!(!e.add_vote(3));
    assert!(e.add_vote(1));
    assert!(!e.add_vote(1));
    assert_eq!(e.votes.len(), 2);
    assert!(e.has_majority(3));
    assert!(!e.has_majority(5));
}

#[test]
fn election_phases_follow_the_quorum() {
    // No quorum cancels everything.
    let s = election_step(ElectionStatus::Finished, true, false, true, true, true);
    assert_eq!(s, ElectionStatus::NoQuorum);
    let s = election_step(ElectionStatus::InProgress, false, true, true, true, true);
    assert_eq!(s, ElectionStatus::NoQuorum);
    // Quorum observed: a ballot opens.
    let s = election_step(ElectionStatus::NoQuorum, true, true, false, false, false);
    assert_eq!(s, ElectionStatus::InProgress);
    // A majority that has not stabilized does not finish.
    let s = election_step(ElectionStatus::InProgress, true, true, true, false, false);
    assert_eq!(s, ElectionStatus::InProgress);
    // A stable majority finishes.
    let s = election_step(ElectionStatus::InProgress, true, true, true, true, false);
    assert_eq!(s, ElectionStatus::Finished);
    // Losing the leader reopens the ballot.
    let s = election_step(ElectionStatus::Finished, true, true, false, false, false);
    assert_eq!(s, ElectionStatus::InProgress);
    let s = election_step(ElectionStatus::Finished, true, true, false, false, true);
    assert_eq!(s, ElectionStatus::Finished);
}

#[test]
fn one_election_per_service_group() {
    let mut l = ElectionList::new(b"redis.default".to_vec());
    assert!(l.election().is_none());
    let first = Election::start(b"redis.default".to_vec(), 0, 3);
    assert!(!l.upsert(first));
    let second = Election::start(b"redis.default".to_vec(), 1, 2);
    assert!(l.upsert(second));
    assert_eq!(l.elections.len(), 1);
    assert_eq!(l.elections[0].term, 2);
    let mine = l.election().expect("own group is tracked");
    assert_eq!(l.elections[mine].candidate, 2);
}

#[test]
fn partition_and_heal() {
    // Partition {a} vs {b, c}: a alone observes no quorum.
    let a_view = Census {
        entries: vec![entry(1, 10, true), entry(2, 20, false), entry(3, 30, false)],
    };
    assert!(!a_view.has_quorum());
    assert_eq!(
        election_step(ElectionStatus::Finished, true, a_view.has_quorum(), false, false, false),
        ElectionStatus::NoQuorum
    );
    // The majority side elects b while c's old lead is gone with it... here
    // b and c both run, and b is not the best: c left, so b wins.
    let bc_view = Census {
        entries: vec![entry(1, 10, false), entry(2, 20, true), entry(3, 30, true)],
    };
    assert!(bc_view.has_quorum());
    // On heal every entry is alive again and c re-wins by suitability.
    let healed = census_abc();
    let winner = healed.determine_winner().expect("all alive");
    assert_eq!(healed.entries[winner].member_id, 3);
}
