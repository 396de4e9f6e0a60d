//! The census: a per-service-group projection over the member list, and
//! the quorum and candidate-ordering rules the election reads.

use vstd::prelude::*;

verus! {

/// One member's standing in a service group, as this node sees it.
#[derive(Clone, Debug)]
pub struct CensusEntry {
    pub member_id: u128,
    pub service_group: Vec<u8>,
    /// Fitness for leadership; here uptime seconds. Any total order that
    /// all nodes observe alike will do.
    pub suitability: u64,
    pub vote: Option<u128>,
    pub leader: bool,
    pub follower: bool,
    pub data_init: bool,
    pub alive: bool,
}

/// The mathematical value of a census entry.
#[verifier::ext_equal]
pub ghost struct CensusEntryView {
    pub member_id: u128,
    pub service_group: Seq<u8>,
    pub suitability: u64,
    pub vote: Option<u128>,
    pub leader: bool,
    pub follower: bool,
    pub data_init: bool,
    pub alive: bool,
}

impl View for CensusEntry {
    type V = CensusEntryView;

    open spec fn view(&self) -> CensusEntryView {
        CensusEntryView {
            member_id: self.member_id,
            service_group: self.service_group@,
            suitability: self.suitability,
            vote: self.vote,
            leader: self.leader,
            follower: self.follower,
            data_init: self.data_init,
            alive: self.alive,
        }
    }
}

/// Candidate order: higher suitability first, ties to the smaller id.
pub open spec fn better_candidate(a: CensusEntryView, b: CensusEntryView) -> bool {
    ||| a.suitability > b.suitability
    ||| (a.suitability == b.suitability && a.member_id < b.member_id)
}

/// The set of entries for one service group on this node's view.
pub struct Census {
    pub entries: Vec<CensusEntry>,
}

/// Alive entries among the first `n`.
pub open spec fn count_alive(s: Seq<CensusEntryView>, n: int) -> int
    decreases n,
{
    if n <= 0 {
        0
    } else {
        count_alive(s, n - 1) + if s[n - 1].alive {
            1int
        } else {
            0int
        }
    }
}

impl Census {
    /// Well-formed: member ids are unique, and at most one entry is
    /// marked leader.
    pub open spec fn wf(self) -> bool {
        &&& forall|i: int, j: int|
            0 <= i < j < self.entries@.len() ==> (#[trigger] self.entries@[i]).member_id != (
            #[trigger] self.entries@[j]).member_id
        &&& forall|i: int, j: int|
            0 <= i < j < self.entries@.len() ==> !((#[trigger] self.entries@[i])@.leader && (
            #[trigger] self.entries@[j])@.leader)
    }

    /// Entries in all.
    pub open spec fn spec_total(self) -> int {
        self.entries@.len() as int
    }

    /// Entries currently alive.
    pub open spec fn spec_alive(self) -> int {
        count_alive(self.entries@.map_values(|e: CensusEntry| e@), self.entries@.len() as int)
    }

    /// A majority of the known entries is alive.
    pub open spec fn spec_has_quorum(self) -> bool {
        self.spec_alive() > self.spec_total() / 2
    }

    /// Enough entries exist for an election to mean anything.
    pub open spec fn spec_minimum_quorum(self) -> bool {
        self.spec_total() >= 3
    }

    /// How many entries are alive.
    pub fn alive_count(&self) -> (r: usize)
        ensures
            r == self.spec_alive(),
    {
        let ghost views = self.entries@.map_values(|e: CensusEntry| e@);
        let mut n: usize = 0;
        let mut i: usize = 0;
        while i < self.entries.len()
            invariant
                views == self.entries@.map_values(|e: CensusEntry| e@),
                0 <= i <= self.entries@.len(),
                n == count_alive(views, i as int),
                n <= i,
            decreases self.entries@.len() - i,
        {
            if self.entries[i].alive {
                n = n + 1;
            }
            i = i + 1;
        }
        n
    }

    /// Whether a majority of the known entries is alive.
    pub fn has_quorum(&self) -> (r: bool)
        ensures
            r == self.spec_has_quorum(),
    {
        self.alive_count() > self.entries.len() / 2
    }

    /// Whether enough entries exist for an election to mean anything.
    pub fn minimum_quorum(&self) -> (r: bool)
        ensures
            r == self.spec_minimum_quorum(),
    {
        self.entries.len() >= 3
    }

    /// The position of the unique entry marked leader, if any.
    pub fn get_leader(&self) -> (r: Option<usize>)
        requires
            self.wf(),
        ensures
            match r {
                Some(i) => 0 <= i < self.entries@.len() && self.entries@[i as int]@.leader
                    && forall|j: int|
                    0 <= j < self.entries@.len() && j != i ==> !(
                    #[trigger] self.entries@[j])@.leader,
                None => forall|j: int|
                    0 <= j < self.entries@.len() ==> !(#[trigger] self.entries@[j])@.leader,
            },
    {
        let mut i: usize = 0;
        while i < self.entries.len()
            invariant
                self.wf(),
                0 <= i <= self.entries@.len(),
                forall|j: int| 0 <= j < i ==> !(#[trigger] self.entries@[j])@.leader,
            decreases self.entries@.len() - i,
        {
            if self.entries[i].leader {
                proof {
                    assert forall|j: int|
                        0 <= j < self.entries@.len() && j != i implies !(
                    #[trigger] self.entries@[j])@.leader by {
                        if j > i {
                            assert(!(self.entries@[i as int]@.leader
                                && self.entries@[j]@.leader));
                        }
                    }
                }
                return Some(i);
            }
            i = i + 1;
        }
        None
    }

    /// The position of the best alive candidate: alive, and better than
    /// every other alive entry in the `(suitability desc, id asc)` order.
    /// `None` exactly when no entry is alive.
    pub fn determine_winner(&self) -> (r: Option<usize>)
        requires
            self.wf(),
        ensures
            match r {
                Some(i) => 0 <= i < self.entries@.len() && self.entries@[i as int]@.alive
                    && forall|j: int|
                    0 <= j < self.entries@.len() && j != i && (
                    #[trigger] self.entries@[j])@.alive ==> better_candidate(
                        self.entries@[i as int]@,
                        self.entries@[j]@,
                    ),
                None => forall|j: int|
                    0 <= j < self.entries@.len() ==> !(#[trigger] self.entries@[j])@.alive,
            },
    {
        let mut best: Option<usize> = None;
        let mut i: usize = 0;
        while i < self.entries.len()
            invariant
                self.wf(),
                0 <= i <= self.entries@.len(),
                match best {
                    Some(b) => 0 <= b < i && self.entries@[b as int]@.alive && forall|j: int|
                        0 <= j < i && j != b && (#[trigger] self.entries@[j])@.alive
                            ==> better_candidate(self.entries@[b as int]@, self.entries@[j]@),
                    None => forall|j: int| 0 <= j < i ==> !(#[trigger] self.entries@[j])@.alive,
                },
            decreases self.entries@.len() - i,
        {
            if self.entries[i].alive {
                match best {
                    Some(b) => {
                        let eb = &self.entries[b];
                        let ei = &self.entries[i];
                        if ei.suitability > eb.suitability || (ei.suitability == eb.suitability
                            && ei.member_id < eb.member_id) {
                            best = Some(i);
                        }
                    },
                    None => {
                        best = Some(i);
                    },
                }
            }
            i = i + 1;
        }
        best
    }
}

/// The candidate order is total on entries with distinct ids.
pub proof fn lemma_better_candidate_total(a: CensusEntryView, b: CensusEntryView)
    requires
        a.member_id != b.member_id,
    ensures
        better_candidate(a, b) || better_candidate(b, a),
{
}

/// The candidate order is transitive.
pub proof fn lemma_better_candidate_trans(
    a: CensusEntryView,
    b: CensusEntryView,
    c: CensusEntryView,
)
    requires
        better_candidate(a, b),
        better_candidate(b, c),
    ensures
        better_candidate(a, c),
{
}

/// Whether `a` is a better candidate than `b`, executably.
pub fn is_better_candidate(a: &CensusEntry, b: &CensusEntry) -> (r: bool)
    ensures
        r == better_candidate(a@, b@),
{
    a.suitability > b.suitability || (a.suitability == b.suitability && a.member_id < b.member_id)
}

impl Census {
    /// The ordered candidate list: the positions of the alive entries,
    /// best first in the `(suitability desc, id asc)` order, each exactly
    /// once.
    pub fn candidates(&self) -> (r: Vec<usize>)
        requires
            self.wf(),
        ensures
            r@.no_duplicates(),
            forall|j: int|
                0 <= j < r@.len() ==> (#[trigger] r@[j]) < self.entries@.len()
                    && self.entries@[r@[j] as int]@.alive,
            forall|i: int|
                0 <= i < self.entries@.len() && (#[trigger] self.entries@[i])@.alive
                    ==> r@.contains(i as usize),
            forall|a: int, b: int|
                0 <= a < b < r@.len() ==> better_candidate(
                    #[trigger] self.entries@[r@[a] as int]@,
                    #[trigger] self.entries@[r@[b] as int]@,
                ),
    {
        let mut r: Vec<usize> = Vec::new();
        let mut i: usize = 0;
        while i < self.entries.len()
            invariant
                self.wf(),
                0 <= i <= self.entries@.len(),
                r@.no_duplicates(),
                forall|j: int| 0 <= j < r@.len() ==> (#[trigger] r@[j]) < i,
                forall|j: int|
                    0 <= j < r@.len() ==> (#[trigger] r@[j]) < self.entries@.len()
                        && self.entries@[r@[j] as int]@.alive,
                forall|w: int|
                    0 <= w < i && (#[trigger] self.entries@[w])@.alive ==> r@.contains(w as usize),
                forall|a: int, b: int|
                    0 <= a < b < r@.len() ==> better_candidate(
                        #[trigger] self.entries@[r@[a] as int]@,
                        #[trigger] self.entries@[r@[b] as int]@,
                    ),
            decreases self.entries@.len() - i,
        {
            if self.entries[i].alive {
                let mut p: usize = 0;
                while p < r.len() && is_better_candidate(&self.entries[r[p]], &self.entries[i])
                    invariant
                        self.wf(),
                        i < self.entries@.len(),
                        0 <= p <= r@.len(),
                        forall|j: int| 0 <= j < r@.len() ==> (#[trigger] r@[j]) < i,
                        forall|j: int|
                            0 <= j < r@.len() ==> (#[trigger] r@[j]) < self.entries@.len()
                                && self.entries@[r@[j] as int]@.alive,
                        forall|q: int|
                            0 <= q < p ==> better_candidate(
                                #[trigger] self.entries@[r@[q] as int]@,
                                self.entries@[i as int]@,
                            ),
                    decreases r@.len() - p,
                {
                    p = p + 1;
                }
                proof {
                    if p < r@.len() {
                        // The entry at the insertion point does not beat the
                        // new one; by totality the new one beats it and, by
                        // transitivity, everything after it.
                        assert(self.entries@[r@[p as int] as int].member_id != self.entries@[
                            i as int
                        ].member_id) by {
                            if r@[p as int] < i {
                                assert(self.entries@[r@[p as int] as int].member_id
                                    != self.entries@[i as int].member_id);
                            }
                        }
                        lemma_better_candidate_total(
                            self.entries@[r@[p as int] as int]@,
                            self.entries@[i as int]@,
                        );
                        assert(better_candidate(
                            self.entries@[i as int]@,
                            self.entries@[r@[p as int] as int]@,
                        ));
                        assert forall|b: int| p <= b < r@.len() implies better_candidate(
                            self.entries@[i as int]@,
                            #[trigger] self.entries@[r@[b] as int]@,
                        ) by {
                            if b > p {
                                lemma_better_candidate_trans(
                                    self.entries@[i as int]@,
                                    self.entries@[r@[p as int] as int]@,
                                    self.entries@[r@[b] as int]@,
                                );
                            }
                        }
                    }
                }
                let ghost r_old = r@;
                r.insert(p, i);
                proof {
                    assert(r@ =~= r_old.insert(p as int, i as usize));
                    assert forall|j: int| 0 <= j < r@.len() implies (#[trigger] r@[j]) == (
                    if j < p {
                        r_old[j]
                    } else if j == p {
                        i as usize
                    } else {
                        r_old[j - 1]
                    }) by {}
                    assert forall|w: int|
                        0 <= w < i + 1 && (#[trigger] self.entries@[w])@.alive implies r@.contains(
                        w as usize,
                    ) by {
                        if w < i {
                            let j = choose|j: int|
                                0 <= j < r_old.len() && r_old[j] == w as usize;
                            if j < p {
                                assert(r@[j] == w as usize);
                            } else {
                                assert(r@[j + 1] == w as usize);
                            }
                        } else {
                            assert(r@[p as int] == i as usize);
                        }
                    }
                }
            }
            i = i + 1;
        }
        r
    }
}

/// Law: the winner position is unique — two positions that each hold an
/// alive entry better than every other alive entry are the same position.
/// With equal views of the group, every node therefore names one leader.
pub proof fn lemma_winner_unique(c: Census, i: int, j: int)
    requires
        c.wf(),
        0 <= i < c.entries@.len(),
        0 <= j < c.entries@.len(),
        c.entries@[i]@.alive,
        c.entries@[j]@.alive,
        forall|w: int|
            0 <= w < c.entries@.len() && w != i && (#[trigger] c.entries@[w])@.alive
                ==> better_candidate(c.entries@[i]@, c.entries@[w]@),
        forall|w: int|
            0 <= w < c.entries@.len() && w != j && (#[trigger] c.entries@[w])@.alive
                ==> better_candidate(c.entries@[j]@, c.entries@[w]@),
    ensures
        i == j,
{
    if i != j {
        assert(better_candidate(c.entries@[i]@, c.entries@[j]@));
        assert(better_candidate(c.entries@[j]@, c.entries@[i]@));
    }
}

} // verus!
