//! Peer roster and the SWIM-style health merge.
//!
//! Each member carries an incarnation counter and a health in
//! `Alive < Suspect < Confirmed`. News about a member merges by greater
//! incarnation first, then worse health. The one exception is the local
//! member: nobody may worsen its state — on hearing suspicion about itself
//! the node raises its own incarnation and answers with a fresh `Alive`.

use vstd::prelude::*;

verus! {

/// Health of a member as the failure detector sees it.
#[derive(Clone, Copy, Debug, PartialEq, Eq, Structural)]
pub enum Health {
    /// Recently acknowledged a probe.
    Alive,
    /// Missed a probe round; under suspicion.
    Suspect,
    /// Suspicion expired unrefuted; treated as dead.
    Confirmed,
}

/// The rank of a health state: worse news ranks higher.
pub open spec fn health_rank(h: Health) -> int {
    match h {
        Health::Alive => 0,
        Health::Suspect => 1,
        Health::Confirmed => 2,
    }
}

/// A peer Supervisor: stable 128-bit identity, gossip address, incarnation
/// and health.
#[derive(Clone, Debug)]
pub struct Member {
    pub id: u128,
    pub host: Vec<u8>,
    pub gossip_port: u16,
    pub incarnation: u64,
    pub health: Health,
}

/// The mathematical value of a member.
#[verifier::ext_equal]
pub ghost struct MemberView {
    pub id: u128,
    pub host: Seq<u8>,
    pub gossip_port: u16,
    pub incarnation: u64,
    pub health: Health,
}

impl View for Member {
    type V = MemberView;

    open spec fn view(&self) -> MemberView {
        MemberView {
            id: self.id,
            host: self.host@,
            gossip_port: self.gossip_port,
            incarnation: self.incarnation,
            health: self.health,
        }
    }
}

/// Whether news `a` beats the held state `b`: greater incarnation wins;
/// with equal incarnations, worse health wins.
pub open spec fn member_outranks(a: MemberView, b: MemberView) -> bool {
    ||| a.incarnation > b.incarnation
    ||| (a.incarnation == b.incarnation && health_rank(a.health) > health_rank(b.health))
}

/// The merge of held state `cur` with incoming news `inc` about the same
/// member: keep the greater.
pub open spec fn spec_member_merge(cur: MemberView, inc: MemberView) -> MemberView {
    if member_outranks(inc, cur) {
        inc
    } else {
        cur
    }
}

/// What merging one piece of membership news did.
#[derive(Clone, Copy, Debug, PartialEq, Eq, Structural)]
pub enum MemberEvent {
    /// The news was stale or equal; nothing changed.
    Ignored,
    /// The news won and was stored (or the member was new).
    Updated,
    /// The news spoke ill of this node itself: the node raised its own
    /// incarnation to the carried value and stays `Alive`; the caller
    /// gossips the refutation on.
    Refuted(u64),
}

/// The rank of a health state, executably.
pub fn health_rank_of(h: Health) -> (r: u8)
    ensures
        r == health_rank(h),
{
    match h {
        Health::Alive => 0,
        Health::Suspect => 1,
        Health::Confirmed => 2,
    }
}

/// Whether news `a` beats held state `b`: the executable side of
/// `member_outranks`.
pub fn member_wins(a: &Member, b: &Member) -> (r: bool)
    ensures
        r == member_outranks(a@, b@),
{
    a.incarnation > b.incarnation || (a.incarnation == b.incarnation && health_rank_of(a.health)
        > health_rank_of(b.health))
}

/// The peer roster: a mapping from member id to member, plus this node's
/// own id. The local member is always present and `Alive`.
pub struct MemberList {
    pub my_id: u128,
    pub members: Vec<Member>,
}

impl MemberList {
    /// Well-formed: ids are unique, and the local member is present,
    /// `Alive`, and never outranked by anyone silently.
    pub open spec fn wf(self) -> bool {
        &&& forall|i: int, j: int|
            0 <= i < j < self.members@.len() ==> (#[trigger] self.members@[i]).id != (
            #[trigger] self.members@[j]).id
        &&& self.has_id(self.my_id)
        &&& self.contents()[self.my_id].health == Health::Alive
    }

    /// Whether a member with id `id` is on the roster.
    pub open spec fn has_id(self, id: u128) -> bool {
        exists|i: int| 0 <= i < self.members@.len() && (#[trigger] self.members@[i]).id == id
    }

    /// The position of the member with id `id`; unique when well-formed.
    pub open spec fn idx_of(self, id: u128) -> int {
        choose|i: int| 0 <= i < self.members@.len() && (#[trigger] self.members@[i]).id == id
    }

    /// The roster as a mapping from id to member.
    pub open spec fn contents(self) -> Map<u128, MemberView> {
        Map::new(|id: u128| self.has_id(id), |id: u128| self.members@[self.idx_of(id)]@)
    }

    /// Whether some peer other than this node has health `h`.
    pub open spec fn spec_has_peer(self, h: Health) -> bool {
        exists|id: u128|
            self.has_id(id) && (#[trigger] self.contents()[id]).health == h && id != self.my_id
    }

    /// In a well-formed roster, any position holding id `id` is the
    /// position `idx_of` names.
    pub proof fn lemma_idx_unique(self, i: int, id: u128)
        requires
            forall|i2: int, j2: int|
                0 <= i2 < j2 < self.members@.len() ==> (#[trigger] self.members@[i2]).id != (
                #[trigger] self.members@[j2]).id,
            0 <= i < self.members@.len(),
            self.members@[i].id == id,
        ensures
            self.has_id(id),
            self.idx_of(id) == i,
    {
        assert(self.has_id(id));
        let j = self.idx_of(id);
        if j != i {
            if j < i {
                assert(self.members@[j].id != self.members@[i].id);
            } else {
                assert(self.members@[i].id != self.members@[j].id);
            }
        }
    }

    /// A roster holding only this node, `Alive` at the given incarnation.
    pub fn new(me: Member) -> (l: MemberList)
        requires
            me@.health == Health::Alive,
        ensures
            l.wf(),
            l.my_id == me@.id,
            l.contents() =~= Map::<u128, MemberView>::empty().insert(me@.id, me@),
    {
        let ghost mv = me@;
        let id = me.id;
        let mut members: Vec<Member> = Vec::new();
        members.push(me);
        let l = MemberList { my_id: id, members };
        proof {
            l.lemma_idx_unique(0, id);
            assert forall|id2: u128| l.has_id(id2) implies id2 == id by {
                let w = l.idx_of(id2);
                assert(l.members@[w].id == id2);
            }
        }
        l
    }

    /// The position of the member with id `id`, if on the roster.
    pub fn find(&self, id: u128) -> (r: Option<usize>)
        ensures
            match r {
                Some(i) => 0 <= i < self.members@.len() && (self.members@[i as int]).id == id,
                None => !self.has_id(id),
            },
    {
        let mut i: usize = 0;
        while i < self.members.len()
            invariant
                0 <= i <= self.members@.len(),
                forall|j: int| 0 <= j < i ==> (#[trigger] self.members@[j]).id != id,
            decreases self.members@.len() - i,
        {
            if self.members[i].id == id {
                return Some(i);
            }
            i = i + 1;
        }
        None
    }

    /// The health stored for `id`, if on the roster.
    pub fn health_of(&self, id: u128) -> (r: Option<Health>)
        requires
            self.wf(),
        ensures
            r == if self.has_id(id) {
                Some(self.contents()[id].health)
            } else {
                None::<Health>
            },
    {
        match self.find(id) {
            Some(i) => {
                proof {
                    self.lemma_idx_unique(i as int, id);
                }
                Some(self.members[i].health)
            },
            None => None,
        }
    }

    /// The incarnation stored for `id`, if on the roster.
    pub fn incarnation_of(&self, id: u128) -> (r: Option<u64>)
        requires
            self.wf(),
        ensures
            r == if self.has_id(id) {
                Some(self.contents()[id].incarnation)
            } else {
                None::<u64>
            },
    {
        match self.find(id) {
            Some(i) => {
                proof {
                    self.lemma_idx_unique(i as int, id);
                }
                Some(self.members[i].incarnation)
            },
            None => None,
        }
    }

    /// Merge one piece of membership news into the roster.
    ///
    /// News about a peer merges by greater incarnation, ties to worse
    /// health; stale news is ignored. News about this node that would
    /// worsen its state is refuted instead: the local member raises its
    /// incarnation strictly above both the news and its own old value and
    /// stays `Alive`, and the caller gossips the refutation. For every
    /// member the stored incarnation never decreases.
    pub fn merge_member(&mut self, m: Member) -> (ev: MemberEvent)
        requires
            old(self).wf(),
            m@.incarnation < u64::MAX,
            old(self).contents()[old(self).my_id].incarnation < u64::MAX,
        ensures
            final(self).wf(),
            final(self).my_id == old(self).my_id,
            ({
                let me = old(self).my_id;
                let k = m@.id;
                if k != me {
                    let stored = if old(self).has_id(k) {
                        spec_member_merge(old(self).contents()[k], m@)
                    } else {
                        m@
                    };
                    &&& final(self).contents() =~= old(self).contents().insert(k, stored)
                    &&& (ev == MemberEvent::Updated <==> (!old(self).has_id(k) || member_outranks(
                        m@,
                        old(self).contents()[k],
                    )))
                    &&& (ev == MemberEvent::Ignored <==> !(ev == MemberEvent::Updated))
                } else {
                    if member_outranks(m@, old(self).contents()[me]) {
                        &&& ev matches MemberEvent::Refuted(inc) && inc > m@.incarnation
                            && inc > old(self).contents()[me].incarnation
                            && final(self).contents()[me].incarnation == inc
                        &&& final(self).contents()[me].health == Health::Alive
                        &&& final(self).contents().dom() =~= old(self).contents().dom()
                        &&& forall|id: u128|
                            old(self).contents().dom().contains(id) && id != me
                                ==> #[trigger] final(self).contents()[id] == old(self).contents()[id]
                    } else {
                        &&& ev == MemberEvent::Ignored
                        &&& final(self).contents() =~= old(self).contents()
                    }
                }
            }),
            forall|id: u128|
                old(self).contents().dom().contains(id)
                    ==> final(self).contents().dom().contains(id)
                    && (#[trigger] final(self).contents()[id]).incarnation
                    >= old(self).contents()[id].incarnation,
    {
        let ghost pre = *self;
        let k = m.id;
        let me = self.my_id;
        let ghost mv = m@;
        let found = self.find(k);
        let ev: MemberEvent;
        match found {
            Some(i) => {
                proof {
                    pre.lemma_idx_unique(i as int, k);
                }
                if k == me {
                    let local_inc = self.members[i].incarnation;
                    if member_wins(&m, &self.members[i]) {
                        let new_inc = if m.incarnation >= local_inc {
                            m.incarnation + 1
                        } else {
                            local_inc + 1
                        };
                        self.members[i].incarnation = new_inc;
                        self.members[i].health = Health::Alive;
                        ev = MemberEvent::Refuted(new_inc);
                    } else {
                        ev = MemberEvent::Ignored;
                    }
                } else {
                    if member_wins(&m, &self.members[i]) {
                        self.members[i] = m;
                        ev = MemberEvent::Updated;
                    } else {
                        ev = MemberEvent::Ignored;
                    }
                }
                proof {
                    assert forall|i2: int, j2: int|
                        0 <= i2 < j2 < self.members@.len() implies (#[trigger] self.members@[i2]).id
                        != (#[trigger] self.members@[j2]).id by {
                        assert(pre.members@[i2].id != pre.members@[j2].id);
                    }
                    assert forall|id2: u128| #[trigger]
                        self.has_id(id2) == pre.has_id(id2) by {
                        if self.has_id(id2) {
                            let w = self.idx_of(id2);
                            assert(pre.members@[w].id == id2);
                        }
                        if pre.has_id(id2) {
                            let w = pre.idx_of(id2);
                            assert(self.members@[w].id == id2);
                        }
                    }
                    assert forall|id2: u128| self.has_id(id2) && id2 != k implies (
                    #[trigger] self.contents()[id2]) == pre.contents()[id2] by {
                        let w = self.idx_of(id2);
                        assert(0 <= w < self.members@.len() && self.members@[w].id == id2);
                        assert(w != i as int);
                        assert(pre.members@[w].id == id2);
                        pre.lemma_idx_unique(w, id2);
                        self.lemma_idx_unique(w, id2);
                    }
                    self.lemma_idx_unique(i as int, k);
                    pre.lemma_idx_unique(pre.idx_of(me), me);
                }
            },
            None => {
                proof {
                    let w = pre.idx_of(me);
                    assert(pre.members@[w].id == me);
                    assert(k != me);
                }
                self.members.push(m);
                ev = MemberEvent::Updated;
                proof {
                    let n = pre.members@.len() as int;
                    assert(self.members@ =~= pre.members@.push(m));
                    assert forall|i2: int, j2: int|
                        0 <= i2 < j2 < self.members@.len() implies (#[trigger] self.members@[i2]).id
                        != (#[trigger] self.members@[j2]).id by {
                        if j2 < n {
                            assert(pre.members@[i2].id != pre.members@[j2].id);
                        } else {
                            if pre.members@[i2].id == k {
                                assert(pre.has_id(k));
                            }
                        }
                    }
                    self.lemma_idx_unique(n, k);
                    assert forall|id2: u128| #[trigger]
                        self.has_id(id2) == (pre.has_id(id2) || id2 == k) by {
                        if self.has_id(id2) && id2 != k {
                            let w = self.idx_of(id2);
                            assert(self.members@[w].id == id2);
                            assert(w != n);
                            assert(pre.members@[w].id == id2);
                        }
                        if pre.has_id(id2) {
                            let w = pre.idx_of(id2);
                            assert(self.members@[w].id == id2);
                        }
                    }
                    assert forall|id2: u128| self.has_id(id2) && id2 != k implies (
                    #[trigger] self.contents()[id2]) == pre.contents()[id2] by {
                        let w = self.idx_of(id2);
                        assert(w != n);
                        assert(pre.members@[w].id == id2);
                        pre.lemma_idx_unique(w, id2);
                        self.lemma_idx_unique(w, id2);
                    }
                    assert(self.contents() =~= pre.contents().insert(k, mv));
                }
            },
        }
        ev
    }

    /// Facts carried from a roster to one differing in a single slot with
    /// the same id: uniqueness, the same ids, and all other members kept.
    proof fn lemma_update_at(pre: MemberList, post: MemberList, i: int)
        requires
            forall|i2: int, j2: int|
                0 <= i2 < j2 < pre.members@.len() ==> (#[trigger] pre.members@[i2]).id != (
                #[trigger] pre.members@[j2]).id,
            post.members@.len() == pre.members@.len(),
            0 <= i < pre.members@.len(),
            forall|j: int|
                0 <= j < pre.members@.len() && j != i ==> #[trigger] post.members@[j]
                    == pre.members@[j],
            post.members@[i].id == pre.members@[i].id,
        ensures
            forall|i2: int, j2: int|
                0 <= i2 < j2 < post.members@.len() ==> (#[trigger] post.members@[i2]).id != (
                #[trigger] post.members@[j2]).id,
            forall|id: u128| #[trigger] post.has_id(id) == pre.has_id(id),
            forall|id: u128|
                pre.has_id(id) && id != pre.members@[i].id ==> #[trigger] post.contents()[id]
                    == pre.contents()[id],
            post.has_id(pre.members@[i].id),
            post.contents()[pre.members@[i].id] == post.members@[i]@,
    {
        assert forall|i2: int, j2: int|
            0 <= i2 < j2 < post.members@.len() implies (#[trigger] post.members@[i2]).id != (
        #[trigger] post.members@[j2]).id by {
            assert(pre.members@[i2].id != pre.members@[j2].id);
        }
        assert forall|id: u128| #[trigger] post.has_id(id) == pre.has_id(id) by {
            if post.has_id(id) {
                let w = post.idx_of(id);
                assert(pre.members@[w].id == id);
            }
            if pre.has_id(id) {
                let w = pre.idx_of(id);
                assert(post.members@[w].id == id);
            }
        }
        assert forall|id: u128|
            pre.has_id(id) && id != pre.members@[i].id implies #[trigger] post.contents()[id]
            == pre.contents()[id] by {
            let w = pre.idx_of(id);
            assert(pre.members@[w].id == id);
            assert(w != i);
            pre.lemma_idx_unique(w, id);
            post.lemma_idx_unique(w, id);
        }
        post.lemma_idx_unique(i, pre.members@[i].id);
    }

    /// The failure detector gave up on `id`: an unacknowledged probe turns
    /// an `Alive` peer `Suspect`. Returns the incarnation under suspicion,
    /// to be gossiped as a `Suspect` rumor; `None` when `id` is absent or
    /// not `Alive`. Never applied to this node itself.
    pub fn suspect(&mut self, id: u128) -> (r: Option<u64>)
        requires
            old(self).wf(),
            id != old(self).my_id,
        ensures
            final(self).wf(),
            final(self).my_id == old(self).my_id,
            final(self).contents().dom() =~= old(self).contents().dom(),
            if old(self).has_id(id) && old(self).contents()[id].health == Health::Alive {
                r == Some(old(self).contents()[id].incarnation) && final(self).contents() =~= old(
                    self,
                ).contents().insert(
                    id,
                    MemberView { health: Health::Suspect, ..old(self).contents()[id] },
                )
            } else {
                r == None::<u64> && final(self).contents() =~= old(self).contents()
            },
    {
        let ghost pre = *self;
        match self.find(id) {
            Some(i) => {
                proof {
                    pre.lemma_idx_unique(i as int, id);
                }
                let is_alive = match self.members[i].health {
                    Health::Alive => true,
                    _ => false,
                };
                if is_alive {
                    let inc = self.members[i].incarnation;
                    self.members[i].health = Health::Suspect;
                    proof {
                        MemberList::lemma_update_at(pre, *self, i as int);
                        let w = pre.idx_of(pre.my_id);
                        assert(pre.members@[w].id == pre.my_id);
                        pre.lemma_idx_unique(w, pre.my_id);
                        self.lemma_idx_unique(w, pre.my_id);
                    }
                    Some(inc)
                } else {
                    None
                }
            },
            None => None,
        }
    }

    /// A suspicion expired unrefuted: `Suspect` becomes `Confirmed`.
    /// Returns whether the transition happened. Never applied to this
    /// node itself.
    pub fn confirm(&mut self, id: u128) -> (r: bool)
        requires
            old(self).wf(),
            id != old(self).my_id,
        ensures
            final(self).wf(),
            final(self).my_id == old(self).my_id,
            final(self).contents().dom() =~= old(self).contents().dom(),
            if old(self).has_id(id) && old(self).contents()[id].health == Health::Suspect {
                r && final(self).contents() =~= old(self).contents().insert(
                    id,
                    MemberView { health: Health::Confirmed, ..old(self).contents()[id] },
                )
            } else {
                !r && final(self).contents() =~= old(self).contents()
            },
    {
        let ghost pre = *self;
        match self.find(id) {
            Some(i) => {
                proof {
                    pre.lemma_idx_unique(i as int, id);
                }
                let is_suspect = match self.members[i].health {
                    Health::Suspect => true,
                    _ => false,
                };
                if is_suspect {
                    self.members[i].health = Health::Confirmed;
                    proof {
                        MemberList::lemma_update_at(pre, *self, i as int);
                        let w = pre.idx_of(pre.my_id);
                        assert(pre.members@[w].id == pre.my_id);
                        pre.lemma_idx_unique(w, pre.my_id);
                        self.lemma_idx_unique(w, pre.my_id);
                    }
                    true
                } else {
                    false
                }
            },
            None => false,
        }
    }

    /// Forget a confirmed-dead member once its retention has run out, so
    /// that its obituary is no longer re-learned. Only a `Confirmed` peer
    /// other than this node is purged; the rest of the roster is kept.
    pub fn purge(&mut self, id: u128) -> (purged: bool)
        requires
            old(self).wf(),
            id != old(self).my_id,
        ensures
            final(self).wf(),
            final(self).my_id == old(self).my_id,
            purged == (old(self).has_id(id) && old(self).contents()[id].health
                == Health::Confirmed),
            purged ==> final(self).contents() =~= old(self).contents().remove(id),
            !purged ==> final(self).contents() =~= old(self).contents(),
    {
        let ghost pre = *self;
        match self.find(id) {
            Some(i) => {
                proof {
                    pre.lemma_idx_unique(i as int, id);
                }
                let is_confirmed = match self.members[i].health {
                    Health::Confirmed => true,
                    _ => false,
                };
                if is_confirmed {
                    self.members.remove(i);
                    proof {
                        let n = pre.members@.len() as int;
                        assert(self.members@ =~= pre.members@.subrange(0, i as int)
                            + pre.members@.subrange(i + 1, n));
                        assert forall|w: int|
                            0 <= w < self.members@.len() implies #[trigger] self.members@[w] == (
                        if w < i as int {
                            pre.members@[w]
                        } else {
                            pre.members@[w + 1]
                        }) by {}
                        assert forall|i2: int, j2: int|
                            0 <= i2 < j2 < self.members@.len() implies (
                        #[trigger] self.members@[i2]).id != (#[trigger] self.members@[j2]).id by {
                            let p2 = if i2 < i as int {
                                i2
                            } else {
                                i2 + 1
                            };
                            let q2 = if j2 < i as int {
                                j2
                            } else {
                                j2 + 1
                            };
                            assert(pre.members@[p2].id != pre.members@[q2].id);
                        }
                        assert forall|id2: u128| #[trigger]
                            self.has_id(id2) == (pre.has_id(id2) && id2 != id) by {
                            if self.has_id(id2) {
                                let w = self.idx_of(id2);
                                let p = if w < i as int {
                                    w
                                } else {
                                    w + 1
                                };
                                assert(pre.members@[p].id == id2);
                                if id2 == id {
                                    pre.lemma_idx_unique(p, id2);
                                }
                            }
                            if pre.has_id(id2) && id2 != id {
                                let w = pre.idx_of(id2);
                                assert(pre.members@[w].id == id2);
                                assert(w != i as int);
                                if w < i as int {
                                    assert(self.members@[w].id == id2);
                                } else {
                                    assert(self.members@[w - 1].id == id2);
                                }
                            }
                        }
                        assert forall|id2: u128| self.has_id(id2) implies (
                        #[trigger] self.contents()[id2]) == pre.contents()[id2] by {
                            let w = self.idx_of(id2);
                            assert(self.members@[w].id == id2);
                            let p = if w < i as int {
                                w
                            } else {
                                w + 1
                            };
                            assert(pre.members@[p].id == id2);
                            pre.lemma_idx_unique(p, id2);
                            self.lemma_idx_unique(w, id2);
                        }
                        assert(self.contents() =~= pre.contents().remove(id));
                        let wm = pre.idx_of(pre.my_id);
                        assert(pre.members@[wm].id == pre.my_id);
                        assert(wm != i as int);
                        if wm < i as int {
                            assert(self.members@[wm].id == pre.my_id);
                        } else {
                            assert(self.members@[wm - 1].id == pre.my_id);
                        }
                        assert(self.has_id(self.my_id));
                    }
                    true
                } else {
                    false
                }
            },
            None => false,
        }
    }

    /// The ids of the peers, other than this node, whose health is `h`:
    /// the candidate sets for probing and gossip.
    pub fn peer_ids_with_health(&self, h: Health) -> (r: Vec<u128>)
        requires
            self.wf(),
        ensures
            r@.no_duplicates(),
            forall|j: int|
                0 <= j < r@.len() ==> self.has_id(#[trigger] r@[j]) && self.contents()[r@[j]].health
                    == h && r@[j] != self.my_id,
            forall|id: u128|
                self.has_id(id) && (#[trigger] self.contents()[id]).health == h && id
                    != self.my_id ==> r@.contains(id),
    {
        let mut r: Vec<u128> = Vec::new();
        let mut i: usize = 0;
        while i < self.members.len()
            invariant
                self.wf(),
                0 <= i <= self.members@.len(),
                r@.no_duplicates(),
                forall|j: int|
                    0 <= j < r@.len() ==> self.has_id(#[trigger] r@[j])
                        && self.contents()[r@[j]].health == h && r@[j] != self.my_id,
                forall|w: int|
                    0 <= w < i && (#[trigger] self.members@[w]).health == h
                        && self.members@[w].id != self.my_id ==> r@.contains(self.members@[w].id),
                forall|j: int|
                    0 <= j < r@.len() ==> exists|w: int|
                        0 <= w < i && (#[trigger] self.members@[w]).id == #[trigger] r@[j],
            decreases self.members@.len() - i,
        {
            let is_alive = health_rank_of(self.members[i].health) == health_rank_of(h);
            proof {
                assert(is_alive == (self.members@[i as int].health == h));
            }
            if is_alive && self.members[i].id != self.my_id {
                proof {
                    self.lemma_idx_unique(i as int, self.members@[i as int].id);
                    if r@.contains(self.members@[i as int].id) {
                        let j = choose|j: int|
                            0 <= j < r@.len() && r@[j] == self.members@[i as int].id;
                        let w = choose|w: int|
                            0 <= w < i && (#[trigger] self.members@[w]).id == r@[j];
                        assert(self.members@[w].id == self.members@[i as int].id);
                    }
                }
                let ghost r_old = r@;
                r.push(self.members[i].id);
                proof {
                    assert forall|x: u128| r_old.contains(x) implies r@.contains(x) by {
                        let j = choose|j: int| 0 <= j < r_old.len() && r_old[j] == x;
                        assert(r@[j] == x);
                    }
                    assert(r@[r@.len() - 1] == self.members@[i as int].id);
                    assert(r@.contains(self.members@[i as int].id));
                }
            }
            i = i + 1;
        }
        proof {
            assert forall|id: u128|
                self.has_id(id) && (#[trigger] self.contents()[id]).health == h && id
                    != self.my_id implies r@.contains(id) by {
                let w = self.idx_of(id);
                assert(self.members@[w].id == id);
                assert(self.members@[w]@ == self.contents()[id]);
            }
        }
        r
    }

    /// The ids of the `Alive` peers other than this node.
    pub fn alive_peer_ids(&self) -> (r: Vec<u128>)
        requires
            self.wf(),
        ensures
            r@.no_duplicates(),
            forall|j: int|
                0 <= j < r@.len() ==> self.has_id(#[trigger] r@[j]) && self.contents()[r@[j]].health
                    == Health::Alive && r@[j] != self.my_id,
            forall|id: u128|
                self.has_id(id) && (#[trigger] self.contents()[id]).health == Health::Alive && id
                    != self.my_id ==> r@.contains(id),
    {
        self.peer_ids_with_health(Health::Alive)
    }
}

} // verus!
