//! Pairwise anti-entropy: digests of held rumors, deltas against a peer's
//! digest, gossip-target selection, and the bounded inbound queue.

use vstd::prelude::*;
use crate::member::{Health, MemberList};
use crate::rumor::{bytes_eq, spec_merge, subject_of, Rumor, RumorKind, RumorList, RumorView};

verus! {

/// Milliseconds between gossip rounds.
pub const GOSSIP_INTERVAL_MS: u64 = 1000;

/// Peers addressed per round: two alive and one suspect.
pub const FANOUT: usize = 3;

/// Milliseconds between failure-detector probes.
pub const PROBE_INTERVAL_MS: u64 = 1000;

/// Milliseconds to wait for a direct acknowledgment.
pub const PING_TIMEOUT_MS: u64 = 500;

/// Members asked to probe a suspect indirectly.
pub const PINGREQ_FANOUT: usize = 3;

/// Milliseconds a suspicion may stand unrefuted.
pub const SUSPECT_TIMEOUT_MS: u64 = 5000;

/// Milliseconds a confirmed-dead member is retained before purging.
pub const DEAD_TIMEOUT_MS: u64 = 300000;

/// Datagrams the inbound queue holds before dropping.
pub const INBOUND_QUEUE_LIMIT: usize = 1024;

/// Bytes of payload per datagram before fragmenting.
pub const MTU: usize = 1200;

/// Relies on rand::random_range over `0..n`: a draw from a never-empty
/// range lies below its bound. Nothing more is promised of a random value.
#[verifier::external_body]
fn random_below(n: usize) -> (r: usize)
    requires
        n > 0,
    ensures
        r < n,
{
    rand::random_range(0..n)
}

/// Whether a suspicion that began at `suspected_at_ms` has stood
/// unrefuted past the suspect timeout: the member is then confirmed dead.
pub open spec fn spec_suspicion_expired(suspected_at_ms: u64, now_ms: u64) -> bool {
    now_ms >= suspected_at_ms + SUSPECT_TIMEOUT_MS
}

/// Whether a suspicion has stood unrefuted past the suspect timeout.
pub fn suspicion_expired(suspected_at_ms: u64, now_ms: u64) -> (r: bool)
    ensures
        r == spec_suspicion_expired(suspected_at_ms, now_ms),
{
    now_ms >= suspected_at_ms && now_ms - suspected_at_ms >= SUSPECT_TIMEOUT_MS
}

/// Whether a confirmed-dead member's retention, begun at
/// `confirmed_at_ms`, has run out: the member is then purged.
pub open spec fn spec_retention_expired(confirmed_at_ms: u64, now_ms: u64) -> bool {
    now_ms >= confirmed_at_ms + DEAD_TIMEOUT_MS
}

/// Whether a confirmed-dead member's retention has run out.
pub fn retention_expired(confirmed_at_ms: u64, now_ms: u64) -> (r: bool)
    ensures
        r == spec_retention_expired(confirmed_at_ms, now_ms),
{
    now_ms >= confirmed_at_ms && now_ms - confirmed_at_ms >= DEAD_TIMEOUT_MS
}

/// A compact summary of one held rumor: its subject and incarnation.
#[derive(Clone, Debug)]
pub struct DigestEntry {
    pub kind: RumorKind,
    pub key: Vec<u8>,
    pub incarnation: u64,
}

/// The mathematical value of a digest entry.
#[verifier::ext_equal]
pub ghost struct DigestEntryView {
    pub kind: RumorKind,
    pub key: Seq<u8>,
    pub incarnation: u64,
}

impl View for DigestEntry {
    type V = DigestEntryView;

    open spec fn view(&self) -> DigestEntryView {
        DigestEntryView { kind: self.kind, key: self.key@, incarnation: self.incarnation }
    }
}

/// Copy a byte vector.
pub fn copy_bytes(v: &[u8]) -> (r: Vec<u8>)
    ensures
        r@ == v@,
{
    let mut r: Vec<u8> = Vec::new();
    let mut i: usize = 0;
    while i < v.len()
        invariant
            0 <= i <= v@.len(),
            r@ =~= v@.subrange(0, i as int),
        decreases v@.len() - i,
    {
        r.push(v[i]);
        proof {
            assert(v@.subrange(0, i + 1) =~= v@.subrange(0, i as int).push(v@[i as int]));
        }
        i = i + 1;
    }
    proof {
        assert(v@.subrange(0, v@.len() as int) =~= v@);
    }
    r
}

/// Copy a rumor.
pub fn copy_rumor(r: &Rumor) -> (c: Rumor)
    ensures
        c@ == r@,
{
    Rumor {
        kind: r.kind,
        key: copy_bytes(r.key.as_slice()),
        incarnation: r.incarnation,
        body: copy_bytes(r.body.as_slice()),
    }
}

/// The digest of everything a node holds: one entry per rumor, carrying
/// its subject and incarnation.
pub fn digest_of(rl: &RumorList) -> (r: Vec<DigestEntry>)
    ensures
        r@.len() == rl.rumors@.len(),
        forall|i: int|
            0 <= i < r@.len() ==> (#[trigger] r@[i])@ == (DigestEntryView {
                kind: rl.rumors@[i]@.kind,
                key: rl.rumors@[i]@.key,
                incarnation: rl.rumors@[i]@.incarnation,
            }),
{
    let mut r: Vec<DigestEntry> = Vec::new();
    let mut i: usize = 0;
    while i < rl.rumors.len()
        invariant
            0 <= i <= rl.rumors@.len(),
            r@.len() == i,
            forall|j: int|
                0 <= j < i ==> (#[trigger] r@[j])@ == (DigestEntryView {
                    kind: rl.rumors@[j]@.kind,
                    key: rl.rumors@[j]@.key,
                    incarnation: rl.rumors@[j]@.incarnation,
                }),
        decreases rl.rumors@.len() - i,
    {
        let e = DigestEntry {
            kind: rl.rumors[i].kind,
            key: copy_bytes(rl.rumors[i].key.as_slice()),
            incarnation: rl.rumors[i].incarnation,
        };
        r.push(e);
        i = i + 1;
    }
    r
}

/// A digest, entry by entry, as mathematical values.
pub open spec fn digest_views(d: Seq<DigestEntry>) -> Seq<DigestEntryView> {
    d.map_values(|e: DigestEntry| e@)
}

/// Whether some digest entry already covers this rumor: same subject, at
/// least its incarnation.
pub open spec fn dominated(d: Seq<DigestEntryView>, rv: RumorView) -> bool {
    exists|i: int|
        0 <= i < d.len() && (#[trigger] d[i]).kind == rv.kind && d[i].key == rv.key
            && d[i].incarnation >= rv.incarnation
}

/// Whether some digest entry already covers this rumor.
fn is_dominated(d: &Vec<DigestEntry>, r: &Rumor) -> (b: bool)
    ensures
        b == dominated(digest_views(d@), r@),
{
    let ghost dv = digest_views(d@);
    let mut i: usize = 0;
    while i < d.len()
        invariant
            dv == digest_views(d@),
            0 <= i <= d@.len(),
            forall|j: int|
                0 <= j < i ==> !((#[trigger] dv[j]).kind == r@.kind && dv[j].key == r@.key
                    && dv[j].incarnation >= r@.incarnation),
        decreases d@.len() - i,
    {
        if d[i].kind == r.kind && bytes_eq(d[i].key.as_slice(), r.key.as_slice())
            && d[i].incarnation >= r.incarnation {
            proof {
                assert(dv[i as int].kind == r@.kind && dv[i as int].key == r@.key && dv[
                    i as int
                ].incarnation >= r@.incarnation);
            }
            return true;
        }
        i = i + 1;
    }
    false
}

/// Whether some rumor in `s` has exactly the value `x`.
pub open spec fn holds_rumor(s: Seq<Rumor>, x: RumorView) -> bool {
    exists|i: int| 0 <= i < s.len() && (#[trigger] s[i])@ == x
}

/// The delta for a peer: every held rumor that no entry of the peer's
/// digest covers — the rumors the peer lacks or holds at a lower
/// incarnation.
pub fn delta_for(rl: &RumorList, digest: &Vec<DigestEntry>) -> (r: Vec<Rumor>)
    ensures
        forall|j: int|
            0 <= j < r@.len() ==> !dominated(digest_views(digest@), (#[trigger] r@[j])@),
        forall|j: int| 0 <= j < r@.len() ==> holds_rumor(rl.rumors@, (#[trigger] r@[j])@),
        forall|i: int|
            0 <= i < rl.rumors@.len() && !dominated(digest_views(digest@), (
            #[trigger] rl.rumors@[i])@) ==> holds_rumor(r@, rl.rumors@[i]@),
{
    let mut r: Vec<Rumor> = Vec::new();
    let mut i: usize = 0;
    while i < rl.rumors.len()
        invariant
            0 <= i <= rl.rumors@.len(),
            forall|j: int|
                0 <= j < r@.len() ==> !dominated(digest_views(digest@), (#[trigger] r@[j])@),
            forall|j: int| 0 <= j < r@.len() ==> holds_rumor(rl.rumors@, (#[trigger] r@[j])@),
            forall|w: int|
                0 <= w < i && !dominated(digest_views(digest@), (#[trigger] rl.rumors@[w])@)
                    ==> holds_rumor(r@, rl.rumors@[w]@),
        decreases rl.rumors@.len() - i,
    {
        if !is_dominated(digest, &rl.rumors[i]) {
            let c = copy_rumor(&rl.rumors[i]);
            let ghost r_old = r@;
            r.push(c);
            proof {
                assert(r@[r@.len() - 1]@ == rl.rumors@[i as int]@);
                assert(holds_rumor(rl.rumors@, r@[r@.len() - 1]@));
                assert forall|w: int|
                    0 <= w < i + 1 && !dominated(digest_views(digest@), (
                #[trigger] rl.rumors@[w])@) implies holds_rumor(r@, rl.rumors@[w]@) by {
                    if w < i {
                        assert(holds_rumor(r_old, rl.rumors@[w]@));
                        let j = choose|j: int|
                            0 <= j < r_old.len() && (#[trigger] r_old[j])@ == rl.rumors@[w]@;
                        assert(r@[j]@ == rl.rumors@[w]@);
                    } else {
                        assert(r@[r@.len() - 1]@ == rl.rumors@[w]@);
                    }
                }
                assert forall|j: int| 0 <= j < r@.len() implies holds_rumor(
                    rl.rumors@,
                    (#[trigger] r@[j])@,
                ) by {
                    if j < r@.len() - 1 {
                        assert(r@[j] == r_old[j]);
                    }
                }
            }
        }
        i = i + 1;
    }
    r
}

/// A delta folded into held contents, rumor by rumor, by the merge rule.
pub open spec fn spec_apply_delta(
    m: Map<(RumorKind, Seq<u8>), RumorView>,
    s: Seq<RumorView>,
) -> Map<(RumorKind, Seq<u8>), RumorView>
    decreases s.len(),
{
    if s.len() == 0 {
        m
    } else {
        let k = subject_of(s[0]);
        let m2 = m.insert(
            k,
            if m.dom().contains(k) {
                spec_merge(m[k], s[0])
            } else {
                s[0]
            },
        );
        spec_apply_delta(m2, s.skip(1))
    }
}

/// The rumors of a delta, as mathematical values.
pub open spec fn delta_views(s: Seq<Rumor>) -> Seq<RumorView> {
    s.map_values(|r: Rumor| r@)
}

/// Merge a peer's delta into the rumor list, one rumor at a time.
///
/// The held contents afterwards are exactly the delta folded in by the
/// merge rule, in order; so every delta subject is held at no lower an
/// incarnation than the delta carried, and no held incarnation has
/// decreased.
pub fn apply_delta(rl: &mut RumorList, delta: Vec<Rumor>) -> (changed: usize)
    requires
        old(rl).wf(),
    ensures
        final(rl).wf(),
        changed <= delta@.len(),
        final(rl).contents() =~= spec_apply_delta(old(rl).contents(), delta_views(delta@)),
        forall|k: (RumorKind, Seq<u8>)|
            old(rl).contents().dom().contains(k) ==> final(rl).contents().dom().contains(k) && (
            #[trigger] final(rl).contents()[k]).incarnation >= old(rl).contents()[k].incarnation,
        forall|j: int|
            0 <= j < delta@.len() ==> final(rl).contents().dom().contains(
                crate::rumor::subject_of((#[trigger] delta@[j])@),
            ) && final(rl).contents()[crate::rumor::subject_of(delta@[j]@)].incarnation >= delta@[
                j
            ]@.incarnation,
{
    let ghost pre = *rl;
    let mut changed: usize = 0;
    let mut j: usize = 0;
    let n = delta.len();
    let mut delta = delta;
    proof {
        assert(delta@.skip(0) =~= delta@);
    }
    let ghost dv = delta@;
    proof {
        assert(delta_views(dv).skip(0) =~= delta_views(dv));
    }
    while j < n
        invariant
            rl.wf(),
            0 <= j <= n,
            n == dv.len(),
            changed <= j,
            delta@ =~= dv.skip(j as int),
            spec_apply_delta(pre.contents(), delta_views(dv)) == spec_apply_delta(
                rl.contents(),
                delta_views(dv).skip(j as int),
            ),
            forall|k: (RumorKind, Seq<u8>)|
                pre.contents().dom().contains(k) ==> rl.contents().dom().contains(k) && (
                #[trigger] rl.contents()[k]).incarnation >= pre.contents()[k].incarnation,
            forall|w: int|
                0 <= w < j ==> rl.contents().dom().contains(
                    crate::rumor::subject_of((#[trigger] dv[w])@),
                ) && rl.contents()[crate::rumor::subject_of(dv[w]@)].incarnation
                    >= dv[w]@.incarnation,
        decreases n - j,
    {
        let r = delta.remove(0);
        proof {
            assert(dv.skip(j as int)[0] == dv[j as int]);
            assert(dv.skip(j as int).skip(1) =~= dv.skip(j + 1));
            assert(r@ == dv[j as int]@);
        }
        let ghost k = crate::rumor::subject_of(r@);
        let ghost mid = *rl;
        let grew = rl.add_rumor(r);
        if grew && changed < usize::MAX {
            changed = changed + 1;
        }
        proof {
            crate::rumor::lemma_bytes_lt_irrefl(dv[j as int]@.body);
            assert(rl.contents()[k].incarnation >= dv[j as int]@.incarnation);
            // One fold step: add_rumor performed exactly the spec insert.
            let views = delta_views(dv);
            let tail = views.skip(j as int);
            assert(tail[0] == dv[j as int]@);
            assert(tail.skip(1) =~= views.skip(j + 1));
            let m2 = mid.contents().insert(
                k,
                if mid.contents().dom().contains(k) {
                    spec_merge(mid.contents()[k], dv[j as int]@)
                } else {
                    dv[j as int]@
                },
            );
            assert(rl.contents() =~= m2);
            assert(spec_apply_delta(mid.contents(), tail) == spec_apply_delta(
                m2,
                tail.skip(1),
            ));
            assert(spec_apply_delta(rl.contents(), views.skip(j + 1)) == spec_apply_delta(
                m2,
                views.skip(j + 1),
            ));
        }
        j = j + 1;
    }
    proof {
        assert(delta_views(dv).skip(n as int) =~= Seq::<RumorView>::empty());
        assert(spec_apply_delta(rl.contents(), Seq::<RumorView>::empty()) == rl.contents());
    }
    changed
}


/// The peers one gossip round addresses: two random alive members, then
/// one random suspect, each drawn exactly when such a peer exists. Which
/// peers are drawn is random; that they are drawn, and from which pools,
/// is not.
pub fn gossip_targets(ml: &MemberList) -> (r: Vec<u128>)
    requires
        ml.wf(),
    ensures
        r@.len() == (if ml.spec_has_peer(Health::Alive) {
            2int
        } else {
            0int
        }) + (if ml.spec_has_peer(Health::Suspect) {
            1int
        } else {
            0int
        }),
        ml.spec_has_peer(Health::Alive) ==> ml.has_id(r@[0]) && r@[0] != ml.my_id
            && ml.contents()[r@[0]].health == Health::Alive && ml.has_id(r@[1]) && r@[1]
            != ml.my_id && ml.contents()[r@[1]].health == Health::Alive,
        ml.spec_has_peer(Health::Suspect) ==> ml.has_id(r@[r@.len() - 1]) && r@[r@.len() - 1]
            != ml.my_id && ml.contents()[r@[r@.len() - 1]].health == Health::Suspect,
{
    let mut r: Vec<u128> = Vec::new();
    let alive = ml.alive_peer_ids();
    proof {
        if alive@.len() > 0 {
            let w = alive@[0];
            assert(ml.has_id(w) && ml.contents()[w].health == Health::Alive && w != ml.my_id);
            assert(ml.spec_has_peer(Health::Alive));
        }
        if ml.spec_has_peer(Health::Alive) {
            let w = choose|id: u128|
                ml.has_id(id) && (#[trigger] ml.contents()[id]).health == Health::Alive && id
                    != ml.my_id;
            assert(alive@.contains(w));
        }
    }
    if alive.len() > 0 {
        let i1 = random_below(alive.len());
        r.push(alive[i1]);
        let i2 = random_below(alive.len());
        r.push(alive[i2]);
    }
    let suspects = ml.peer_ids_with_health(Health::Suspect);
    proof {
        if suspects@.len() > 0 {
            let w = suspects@[0];
            assert(ml.has_id(w) && ml.contents()[w].health == Health::Suspect && w != ml.my_id);
            assert(ml.spec_has_peer(Health::Suspect));
        }
        if ml.spec_has_peer(Health::Suspect) {
            let w = choose|id: u128|
                ml.has_id(id) && (#[trigger] ml.contents()[id]).health == Health::Suspect && id
                    != ml.my_id;
            assert(suspects@.contains(w));
        }
    }
    if suspects.len() > 0 {
        let i3 = random_below(suspects.len());
        r.push(suspects[i3]);
    }
    r
}

/// The peer one probe round pings: a random alive member, when any.
pub fn probe_target(ml: &MemberList) -> (r: Option<u128>)
    requires
        ml.wf(),
    ensures
        match r {
            Some(id) => ml.has_id(id) && id != ml.my_id && ml.contents()[id].health
                == Health::Alive,
            None => forall|id: u128|
                ml.has_id(id) && id != ml.my_id ==> (#[trigger] ml.contents()[id]).health
                    != Health::Alive,
        },
{
    let alive = ml.alive_peer_ids();
    if alive.len() > 0 {
        let i = random_below(alive.len());
        Some(alive[i])
    } else {
        proof {
            assert forall|id: u128|
                ml.has_id(id) && id != ml.my_id implies (#[trigger] ml.contents()[id]).health
                != Health::Alive by {
                if ml.contents()[id].health == Health::Alive {
                    assert(alive@.contains(id));
                }
            }
        }
        None
    }
}

/// The bounded inbound datagram queue: beyond the limit a datagram is
/// dropped and counted, never retried at this layer.
pub struct InboundQueue {
    pub queue: Vec<Vec<u8>>,
    pub dropped: u64,
}

impl InboundQueue {
    /// An empty queue with nothing dropped.
    pub fn new() -> (q: InboundQueue)
        ensures
            q.queue@.len() == 0,
            q.dropped == 0,
    {
        InboundQueue { queue: Vec::new(), dropped: 0 }
    }

    /// Take one datagram in: enqueued while the queue is under its limit,
    /// dropped and counted otherwise.
    pub fn offer(&mut self, datagram: Vec<u8>) -> (accepted: bool)
        ensures
            accepted == (old(self).queue@.len() < INBOUND_QUEUE_LIMIT),
            accepted ==> final(self).queue@ == old(self).queue@.push(datagram)
                && final(self).dropped == old(self).dropped,
            !accepted ==> final(self).queue@ == old(self).queue@ && final(self).dropped == (
            if old(self).dropped < u64::MAX {
                (old(self).dropped + 1) as u64
            } else {
                old(self).dropped
            }),
    {
        if self.queue.len() < INBOUND_QUEUE_LIMIT {
            self.queue.push(datagram);
            true
        } else {
            if self.dropped < u64::MAX {
                self.dropped = self.dropped + 1;
            }
            false
        }
    }

    /// The oldest queued datagram, if any.
    pub fn take(&mut self) -> (r: Option<Vec<u8>>)
        ensures
            old(self).queue@.len() == 0 ==> r is None && final(self).queue@ == old(self).queue@,
            old(self).queue@.len() > 0 ==> (r matches Some(d) && d@ == old(self).queue@[0]@
                && final(self).queue@ == old(self).queue@.skip(1)),
            final(self).dropped == old(self).dropped,
    {
        if self.queue.len() > 0 {
            let d = self.queue.remove(0);
            proof {
                assert(self.queue@ =~= old(self).queue@.skip(1));
            }
            Some(d)
        } else {
            None
        }
    }
}

} // verus!
