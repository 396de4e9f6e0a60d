//! Per-service-group leader election over the gossip plane.
//!
//! One `Election` record per service group lives in the rumor list; a
//! higher term supersedes a lower one. A candidate starts a term with a
//! vote for itself; peers add their vote at most once per term; the ballot
//! finishes when a majority of the alive entries voted and the state has
//! held for the stabilization window.

use vstd::prelude::*;
use crate::rumor::bytes_eq;

verus! {

/// How long a majority must hold, free of higher-term contenders, before
/// the candidate publishes `Finished` (milliseconds).
pub const STABILIZATION_WINDOW_MS: u64 = 3000;

/// The phase of an election.
#[derive(Clone, Copy, Debug, PartialEq, Eq, Structural)]
pub enum ElectionStatus {
    /// Too few members, or too few alive: no ballots are cast.
    NoQuorum,
    /// A ballot is open for the current term.
    InProgress,
    /// The candidate gathered a stable majority and leads the group.
    Finished,
}

/// A leader-election ballot for one service group.
#[derive(Clone, Debug)]
pub struct Election {
    pub service_group: Vec<u8>,
    pub term: u64,
    pub candidate: u128,
    pub votes: Vec<u128>,
    pub status: ElectionStatus,
}

/// The mathematical value of a ballot.
#[verifier::ext_equal]
pub ghost struct ElectionView {
    pub service_group: Seq<u8>,
    pub term: u64,
    pub candidate: u128,
    pub votes: Seq<u128>,
    pub status: ElectionStatus,
}

impl View for Election {
    type V = ElectionView;

    open spec fn view(&self) -> ElectionView {
        ElectionView {
            service_group: self.service_group@,
            term: self.term,
            candidate: self.candidate,
            votes: self.votes@,
            status: self.status,
        }
    }
}

impl Election {
    /// Well-formed: nobody's vote is counted twice.
    pub open spec fn wf(self) -> bool {
        self.votes@.no_duplicates()
    }

    /// Open a ballot for the next term: the caller (the best alive
    /// candidate) nominates itself and casts the first vote.
    pub fn start(service_group: Vec<u8>, prev_term: u64, me: u128) -> (e: Election)
        requires
            prev_term < u64::MAX,
        ensures
            e.wf(),
            e.service_group@ == service_group@,
            e.term == prev_term + 1,
            e.candidate == me,
            e.votes@ =~= seq![me],
            e.status == ElectionStatus::InProgress,
    {
        let mut votes: Vec<u128> = Vec::new();
        votes.push(me);
        Election {
            service_group,
            term: prev_term + 1,
            candidate: me,
            votes,
            status: ElectionStatus::InProgress,
        }
    }

    /// Whether `voter` has already voted in this ballot.
    pub fn has_voted(&self, voter: u128) -> (r: bool)
        ensures
            r == self.votes@.contains(voter),
    {
        let mut i: usize = 0;
        while i < self.votes.len()
            invariant
                0 <= i <= self.votes@.len(),
                forall|j: int| 0 <= j < i ==> self.votes@[j] != voter,
            decreases self.votes@.len() - i,
        {
            if self.votes[i] == voter {
                return true;
            }
            i = i + 1;
        }
        false
    }

    /// Cast `voter`'s vote: counted once, however often it is offered.
    /// Returns whether the ballot grew.
    pub fn add_vote(&mut self, voter: u128) -> (grew: bool)
        requires
            old(self).wf(),
        ensures
            final(self).wf(),
            final(self).service_group@ == old(self).service_group@,
            final(self).term == old(self).term,
            final(self).candidate == old(self).candidate,
            final(self).status == old(self).status,
            grew == !old(self).votes@.contains(voter),
            final(self).votes@ == if grew {
                old(self).votes@.push(voter)
            } else {
                old(self).votes@
            },
            final(self).votes@.contains(voter),
    {
        if self.has_voted(voter) {
            proof {
                assert(self.votes@.contains(voter));
            }
            false
        } else {
            self.votes.push(voter);
            proof {
                assert(self.votes@.last() == voter);
                assert(self.votes@.contains(voter));
            }
            true
        }
    }

    /// A peer weighs an incoming ballot: it casts its vote exactly when
    /// the ballot is open, carries at least the term the peer knows, its
    /// candidate is still alive, and the peer has not already voted for a
    /// different candidate this term. Returns whether the ballot grew.
    pub fn consider_vote(
        &mut self,
        my_id: u128,
        local_term: u64,
        candidate_alive: bool,
        voted_other_this_term: bool,
    ) -> (voted: bool)
        requires
            old(self).wf(),
        ensures
            final(self).wf(),
            final(self).service_group@ == old(self).service_group@,
            final(self).term == old(self).term,
            final(self).candidate == old(self).candidate,
            final(self).status == old(self).status,
            voted == (old(self).status == ElectionStatus::InProgress && old(self).term
                >= local_term && candidate_alive && !voted_other_this_term && !old(
                self,
            ).votes@.contains(my_id)),
            final(self).votes@ == if voted {
                old(self).votes@.push(my_id)
            } else {
                old(self).votes@
            },
    {
        let open = match self.status {
            ElectionStatus::InProgress => true,
            _ => false,
        };
        if open && self.term >= local_term && candidate_alive && !voted_other_this_term {
            self.add_vote(my_id)
        } else {
            false
        }
    }

    /// Whether the ballot carries a majority of `alive_count` voters.
    pub fn has_majority(&self, alive_count: usize) -> (r: bool)
        ensures
            r == (self.votes@.len() > alive_count / 2),
    {
        self.votes.len() > alive_count / 2
    }

    /// Whether this ballot is about `service_group`.
    pub fn is_for(&self, service_group: &[u8]) -> (r: bool)
        ensures
            r == (self.service_group@ == service_group@),
    {
        bytes_eq(self.service_group.as_slice(), service_group)
    }
}

/// Whether a ballot's majority, held since `majority_since_ms`, has stood
/// through the stabilization window with no higher-term contender: only
/// then may the candidate publish `Finished`.
pub open spec fn spec_majority_stable(majority_since_ms: u64, now_ms: u64) -> bool {
    now_ms >= majority_since_ms + STABILIZATION_WINDOW_MS
}

/// Whether a ballot's majority has stood through the stabilization window.
pub fn majority_stable(majority_since_ms: u64, now_ms: u64) -> (r: bool)
    ensures
        r == spec_majority_stable(majority_since_ms, now_ms),
{
    now_ms >= majority_since_ms && now_ms - majority_since_ms >= STABILIZATION_WINDOW_MS
}

/// The next phase of an election, given what the census and the clock say.
///
/// No quorum — too few members or too few alive — cancels any phase. With
/// quorum, an open ballot finishes exactly when it holds a majority and
/// has held it for the stabilization window without a higher-term
/// contender; a finished ballot reverts to `InProgress` when its leader
/// is no longer alive.
pub open spec fn spec_election_step(
    status: ElectionStatus,
    minimum_quorum: bool,
    has_quorum: bool,
    majority: bool,
    stable: bool,
    leader_alive: bool,
) -> ElectionStatus {
    if !minimum_quorum || !has_quorum {
        ElectionStatus::NoQuorum
    } else {
        match status {
            ElectionStatus::NoQuorum => ElectionStatus::InProgress,
            ElectionStatus::InProgress => if majority && stable {
                ElectionStatus::Finished
            } else {
                ElectionStatus::InProgress
            },
            ElectionStatus::Finished => if leader_alive {
                ElectionStatus::Finished
            } else {
                ElectionStatus::InProgress
            },
        }
    }
}

/// The election tick: drive one phase transition.
pub fn election_step(
    status: ElectionStatus,
    minimum_quorum: bool,
    has_quorum: bool,
    majority: bool,
    stable: bool,
    leader_alive: bool,
) -> (r: ElectionStatus)
    ensures
        r == spec_election_step(status, minimum_quorum, has_quorum, majority, stable, leader_alive),
{
    if !minimum_quorum || !has_quorum {
        ElectionStatus::NoQuorum
    } else {
        match status {
            ElectionStatus::NoQuorum => ElectionStatus::InProgress,
            ElectionStatus::InProgress => if majority && stable {
                ElectionStatus::Finished
            } else {
                ElectionStatus::InProgress
            },
            ElectionStatus::Finished => if leader_alive {
                ElectionStatus::Finished
            } else {
                ElectionStatus::InProgress
            },
        }
    }
}

/// The elections this node tracks: one per service group, plus the name
/// of the group this node itself serves.
pub struct ElectionList {
    pub elections: Vec<Election>,
    pub my_service_group: Vec<u8>,
}

impl ElectionList {
    /// Well-formed: one election per service group, each with a clean
    /// ballot.
    pub open spec fn wf(self) -> bool {
        &&& forall|i: int, j: int|
            0 <= i < j < self.elections@.len() ==> (#[trigger] self.elections@[i]).service_group@
                != (#[trigger] self.elections@[j]).service_group@
        &&& forall|i: int| 0 <= i < self.elections@.len() ==> (#[trigger] self.elections@[i]).wf()
    }

    /// An empty list for a node serving `my_service_group`.
    pub fn new(my_service_group: Vec<u8>) -> (l: ElectionList)
        ensures
            l.wf(),
            l.elections@.len() == 0,
            l.my_service_group@ == my_service_group@,
    {
        ElectionList { elections: Vec::new(), my_service_group }
    }

    /// The position of the election for `service_group`, if tracked.
    pub fn find(&self, service_group: &[u8]) -> (r: Option<usize>)
        ensures
            match r {
                Some(i) => 0 <= i < self.elections@.len() && self.elections@[
                    i as int
                ].service_group@ == service_group@,
                None => forall|j: int|
                    0 <= j < self.elections@.len() ==> (
                    #[trigger] self.elections@[j]).service_group@ != service_group@,
            },
    {
        let mut i: usize = 0;
        while i < self.elections.len()
            invariant
                0 <= i <= self.elections@.len(),
                forall|j: int|
                    0 <= j < i ==> (#[trigger] self.elections@[j]).service_group@
                        != service_group@,
            decreases self.elections@.len() - i,
        {
            if self.elections[i].is_for(service_group) {
                return Some(i);
            }
            i = i + 1;
        }
        None
    }

    /// The election for this node's own service group, if tracked.
    pub fn election(&self) -> (r: Option<usize>)
        ensures
            match r {
                Some(i) => 0 <= i < self.elections@.len() && self.elections@[
                    i as int
                ].service_group@ == self.my_service_group@,
                None => forall|j: int|
                    0 <= j < self.elections@.len() ==> (
                    #[trigger] self.elections@[j]).service_group@ != self.my_service_group@,
            },
    {
        let mut i: usize = 0;
        while i < self.elections.len()
            invariant
                0 <= i <= self.elections@.len(),
                forall|j: int|
                    0 <= j < i ==> (#[trigger] self.elections@[j]).service_group@
                        != self.my_service_group@,
            decreases self.elections@.len() - i,
        {
            let sg = &self.my_service_group;
            if bytes_eq(self.elections[i].service_group.as_slice(), sg.as_slice()) {
                return Some(i);
            }
            i = i + 1;
        }
        None
    }

    /// Store the election for its service group: a tracked group is
    /// replaced in place, every other group's election untouched; a new
    /// group is appended.
    pub fn upsert(&mut self, e: Election) -> (replaced: bool)
        requires
            old(self).wf(),
            e.wf(),
        ensures
            final(self).wf(),
            final(self).my_service_group@ == old(self).my_service_group@,
            replaced ==> exists|i: int|
                0 <= i < old(self).elections@.len() && (#[trigger] old(
                    self,
                ).elections@[i]).service_group@ == e.service_group@ && final(self).elections@
                    =~= old(self).elections@.update(i, e),
            !replaced ==> final(self).elections@ =~= old(self).elections@.push(e),
            exists|i: int|
                0 <= i < final(self).elections@.len() && #[trigger] final(self).elections@[i]
                    == e,
    {
        let ghost pre = *self;
        match self.find(e.service_group.as_slice()) {
            Some(i) => {
                self.elections[i] = e;
                proof {
                    assert forall|i2: int, j2: int|
                        0 <= i2 < j2 < self.elections@.len() implies (
                    #[trigger] self.elections@[i2]).service_group@ != (
                    #[trigger] self.elections@[j2]).service_group@ by {
                        assert(pre.elections@[i2].service_group@
                            != pre.elections@[j2].service_group@);
                        assert(self.elections@[i as int].service_group@
                            == pre.elections@[i as int].service_group@);
                    }
                    assert(self.elections@[i as int] == e);
                }
                true
            },
            None => {
                self.elections.push(e);
                proof {
                    let n = pre.elections@.len() as int;
                    assert(self.elections@[n] == e);
                }
                false
            },
        }
    }
}

/// Law: a node tracks at most one election per service group — two
/// tracked elections about one group are the same one. At convergence all
/// nodes hold the same ballot for a group, so with `lemma_winner_unique`
/// each group has at most one finished leader at any node.
pub proof fn lemma_election_uniqueness(l: ElectionList, i: int, j: int)
    requires
        l.wf(),
        0 <= i < l.elections@.len(),
        0 <= j < l.elections@.len(),
        l.elections@[i].service_group@ == l.elections@[j].service_group@,
    ensures
        i == j,
{
    if i != j {
        if i < j {
            assert(l.elections@[i].service_group@ != l.elections@[j].service_group@);
        } else {
            assert(l.elections@[j].service_group@ != l.elections@[i].service_group@);
        }
    }
}

} // verus!
