//! Versioned gossip rumors and the rumor list.
//!
//! A rumor is identified by `(kind, key)`. For one identity the list keeps
//! exactly one rumor: the one with the greatest incarnation, ties broken by
//! the greater body hash and then by the greater body itself, so that merging
//! is a total choice. Merge is commutative, associative and idempotent, and
//! the incarnation stored for any identity never decreases.

use vstd::prelude::*;
use crate::crc::{crc32, crc32_of};

verus! {

/// The kinds of gossip payloads.
#[derive(Clone, Copy, Debug, PartialEq, Eq, Structural)]
pub enum RumorKind {
    /// Configuration of a service group.
    ServiceConfig,
    /// A leader-election ballot.
    Election,
    /// Membership news about one member.
    Membership,
    /// A signed configuration file.
    GossipFile,
}

/// A versioned gossip payload. `key` names the subject (for instance a
/// service-group name); `incarnation` is the rumor version; `body` is opaque
/// to the gossip plane.
#[derive(Clone, Debug)]
pub struct Rumor {
    pub kind: RumorKind,
    pub key: Vec<u8>,
    pub incarnation: u64,
    pub body: Vec<u8>,
}

/// The mathematical value of a rumor.
#[verifier::ext_equal]
pub ghost struct RumorView {
    pub kind: RumorKind,
    pub key: Seq<u8>,
    pub incarnation: u64,
    pub body: Seq<u8>,
}

impl View for Rumor {
    type V = RumorView;

    open spec fn view(&self) -> RumorView {
        RumorView {
            kind: self.kind,
            key: self.key@,
            incarnation: self.incarnation,
            body: self.body@,
        }
    }
}

impl RumorView {
    /// Two rumors speak of the same subject when kind and key agree.
    pub open spec fn same_subject(self, other: RumorView) -> bool {
        self.kind == other.kind && self.key == other.key
    }
}

/// Strict lexicographic order on byte sequences.
pub open spec fn bytes_lt(a: Seq<u8>, b: Seq<u8>) -> bool
    decreases a.len(),
{
    if b.len() == 0 {
        false
    } else if a.len() == 0 {
        true
    } else if a[0] < b[0] {
        true
    } else if a[0] > b[0] {
        false
    } else {
        bytes_lt(a.skip(1), b.skip(1))
    }
}

/// The order is total: two sequences neither of which precedes the other
/// are equal.
pub proof fn lemma_bytes_lt_total(a: Seq<u8>, b: Seq<u8>)
    requires
        !bytes_lt(a, b),
        !bytes_lt(b, a),
    ensures
        a =~= b,
    decreases a.len(),
{
    if a.len() != 0 && b.len() != 0 {
        lemma_bytes_lt_total(a.skip(1), b.skip(1));
        assert(a =~= seq![a[0]] + a.skip(1));
        assert(b =~= seq![b[0]] + b.skip(1));
    }
}

/// The order is irreflexive on equal sequences.
pub proof fn lemma_bytes_lt_irrefl(a: Seq<u8>)
    ensures
        !bytes_lt(a, a),
    decreases a.len(),
{
    if a.len() != 0 {
        lemma_bytes_lt_irrefl(a.skip(1));
    }
}

/// The order is transitive.
pub proof fn lemma_bytes_lt_trans(a: Seq<u8>, b: Seq<u8>, c: Seq<u8>)
    requires
        bytes_lt(a, b),
        bytes_lt(b, c),
    ensures
        bytes_lt(a, c),
    decreases a.len(),
{
    if a.len() != 0 && b.len() != 0 && c.len() != 0 {
        if a[0] == b[0] && b[0] == c[0] {
            lemma_bytes_lt_trans(a.skip(1), b.skip(1), c.skip(1));
        }
    }
}

/// Whether `a` strictly outranks `b` in the merge: greater incarnation,
/// ties by greater body hash, final ties by the greater body itself.
pub open spec fn outranks(a: RumorView, b: RumorView) -> bool {
    ||| a.incarnation > b.incarnation
    ||| (a.incarnation == b.incarnation && crc32_of(a.body) > crc32_of(b.body))
    ||| (a.incarnation == b.incarnation && crc32_of(a.body) == crc32_of(b.body) && bytes_lt(
        b.body,
        a.body,
    ))
}

/// The merge of two rumors about one subject: the one that outranks.
pub open spec fn spec_merge(a: RumorView, b: RumorView) -> RumorView {
    if outranks(b, a) {
        b
    } else {
        a
    }
}

/// Law: the merge is idempotent.
pub proof fn lemma_merge_idempotent(a: RumorView)
    ensures
        spec_merge(a, a) == a,
{
    lemma_bytes_lt_irrefl(a.body);
}

/// Law: the merge is commutative — two rumors about one subject merge to
/// the same rumor in either order.
pub proof fn lemma_merge_commutative(a: RumorView, b: RumorView)
    requires
        a.same_subject(b),
    ensures
        spec_merge(a, b) == spec_merge(b, a),
{
    if !outranks(a, b) && !outranks(b, a) {
        lemma_bytes_lt_total(a.body, b.body);
        assert(a =~= b);
    }
    if outranks(a, b) && outranks(b, a) {
        if bytes_lt(a.body, b.body) && bytes_lt(b.body, a.body) {
            lemma_bytes_lt_trans(a.body, b.body, a.body);
            lemma_bytes_lt_irrefl(a.body);
        }
    }
}

/// Outranking is transitive.
proof fn lemma_outranks_trans(a: RumorView, b: RumorView, c: RumorView)
    requires
        outranks(a, b),
        outranks(b, c),
    ensures
        outranks(a, c),
{
    if a.incarnation == b.incarnation && b.incarnation == c.incarnation && crc32_of(a.body)
        == crc32_of(b.body) && crc32_of(b.body) == crc32_of(c.body) {
        lemma_bytes_lt_trans(c.body, b.body, a.body);
    }
}

/// Law: the merge is associative.
pub proof fn lemma_merge_associative(a: RumorView, b: RumorView, c: RumorView)
    ensures
        spec_merge(spec_merge(a, b), c) == spec_merge(a, spec_merge(b, c)),
{
    if outranks(b, a) && outranks(c, b) {
        lemma_outranks_trans(c, b, a);
    }
    if outranks(c, a) && !outranks(c, b) && !outranks(b, a) {
        if outranks(c, a) {
            lemma_bytes_lt_irrefl(a.body);
            lemma_bytes_lt_irrefl(b.body);
            lemma_bytes_lt_irrefl(c.body);
            if a.incarnation == b.incarnation && b.incarnation == c.incarnation && crc32_of(a.body)
                == crc32_of(b.body) && crc32_of(b.body) == crc32_of(c.body) {
                if bytes_lt(a.body, c.body) {
                    if bytes_lt(b.body, a.body) {
                        lemma_bytes_lt_trans(b.body, a.body, c.body);
                    } else {
                        lemma_bytes_lt_total(a.body, b.body);
                    }
                }
            }
        }
    }
}

/// Compare two byte vectors in the lexicographic order.
fn bytes_less(a: &[u8], b: &[u8]) -> (r: bool)
    ensures
        r == bytes_lt(a@, b@),
{
    let mut i: usize = 0;
    proof {
        assert(a@.skip(0) =~= a@);
        assert(b@.skip(0) =~= b@);
    }
    loop
        invariant
            0 <= i <= a@.len(),
            i <= b@.len(),
            forall|j: int| 0 <= j < i ==> a@[j] == b@[j],
            bytes_lt(a@, b@) == bytes_lt(a@.skip(i as int), b@.skip(i as int)),
        decreases a@.len() - i,
    {
        proof {
            lemma_bytes_lt_skip(a@, b@, i as int);
        }
        if i >= b.len() {
            return false;
        }
        if i >= a.len() {
            return true;
        }
        if a[i] < b[i] {
            return true;
        }
        if a[i] > b[i] {
            return false;
        }
        i = i + 1;
        proof {
            lemma_skip_one_more(a@, i as int);
            lemma_skip_one_more(b@, i as int);
        }
    }
}

/// Skipping equal prefixes does not change the order.
proof fn lemma_bytes_lt_skip(a: Seq<u8>, b: Seq<u8>, i: int)
    requires
        0 <= i <= a.len(),
        i <= b.len(),
        forall|j: int| 0 <= j < i ==> a[j] == b[j],
    ensures
        bytes_lt(a, b) == bytes_lt(a.skip(i), b.skip(i)),
    decreases i,
{
    if i > 0 {
        assert(a.skip(1).skip(i - 1) =~= a.skip(i));
        assert(b.skip(1).skip(i - 1) =~= b.skip(i));
        assert forall|j: int| 0 <= j < i - 1 implies a.skip(1)[j] == b.skip(1)[j] by {
            assert(a.skip(1)[j] == a[j + 1]);
            assert(b.skip(1)[j] == b[j + 1]);
        }
        lemma_bytes_lt_skip(a.skip(1), b.skip(1), i - 1);
        assert(bytes_lt(a, b) == bytes_lt(a.skip(1), b.skip(1)));
    } else {
        assert(a.skip(0) =~= a);
        assert(b.skip(0) =~= b);
    }
}

/// `skip(i)` is `skip(i - 1)` less its first element.
proof fn lemma_skip_one_more(a: Seq<u8>, i: int)
    requires
        1 <= i <= a.len(),
    ensures
        a.skip(i - 1).skip(1) =~= a.skip(i),
{
}

/// Law: merges arrive in any order with the same outcome — a rumor held
/// for a subject ends the same after taking `a` then `b` as after `b`
/// then `a`. With idempotence, any sequence of merges of the same rumors
/// leaves the list identical whatever the delivery order or duplication.
pub proof fn lemma_merge_order_irrelevant(x: RumorView, a: RumorView, b: RumorView)
    requires
        x.same_subject(a),
        x.same_subject(b),
    ensures
        spec_merge(spec_merge(x, a), b) == spec_merge(spec_merge(x, b), a),
{
    lemma_merge_associative(x, a, b);
    lemma_merge_associative(x, b, a);
    lemma_merge_commutative(a, b);
}

/// Whether `a` strictly outranks `b`: the executable side of `outranks`.
pub fn rumor_outranks(a: &Rumor, b: &Rumor) -> (r: bool)
    ensures
        r == outranks(a@, b@),
{
    if a.incarnation > b.incarnation {
        return true;
    }
    if a.incarnation < b.incarnation {
        return false;
    }
    let ha = crc32(a.body.as_slice());
    let hb = crc32(b.body.as_slice());
    if ha > hb {
        return true;
    }
    if ha < hb {
        return false;
    }
    bytes_less(b.body.as_slice(), a.body.as_slice())
}

/// Merge two rumors about one subject, keeping the one that outranks.
/// When neither strictly outranks the other they are the same rumor and
/// the first is returned.
pub fn merge(a: Rumor, b: Rumor) -> (r: Rumor)
    ensures
        r@ == spec_merge(a@, b@),
{
    if rumor_outranks(&b, &a) {
        b
    } else {
        a
    }
}

/// Byte-vector equality.
pub fn bytes_eq(a: &[u8], b: &[u8]) -> (r: bool)
    ensures
        r == (a@ == b@),
{
    if a.len() != b.len() {
        return false;
    }
    let mut i: usize = 0;
    while i < a.len()
        invariant
            a@.len() == b@.len(),
            0 <= i <= a@.len(),
            forall|j: int| 0 <= j < i ==> a@[j] == b@[j],
        decreases a@.len() - i,
    {
        if a[i] != b[i] {
            return false;
        }
        i = i + 1;
    }
    proof {
        assert(a@ =~= b@);
    }
    true
}

/// The identity of a rumor: its kind and key.
pub open spec fn subject_of(r: RumorView) -> (RumorKind, Seq<u8>) {
    (r.kind, r.key)
}

/// The rumor list: for each `(kind, key)` exactly one rumor, the greatest
/// seen so far under the merge order. `revision` is the version basis for
/// outbound deltas and grows with every effective write.
pub struct RumorList {
    pub rumors: Vec<Rumor>,
    pub revision: u64,
}

impl RumorList {
    /// Well-formed: no two rumors share a subject.
    pub open spec fn wf(self) -> bool {
        forall|i: int, j: int|
            0 <= i < j < self.rumors@.len() ==> subject_of(#[trigger] self.rumors@[i]@)
                != subject_of(#[trigger] self.rumors@[j]@)
    }

    /// Whether a rumor about `k` is held.
    pub open spec fn has_key(self, k: (RumorKind, Seq<u8>)) -> bool {
        exists|i: int|
            0 <= i < self.rumors@.len() && subject_of(#[trigger] self.rumors@[i]@) == k
    }

    /// The position of the rumor about `k`; meaningful only when held,
    /// and then unique by well-formedness.
    pub open spec fn idx_of(self, k: (RumorKind, Seq<u8>)) -> int {
        choose|i: int|
            0 <= i < self.rumors@.len() && subject_of(#[trigger] self.rumors@[i]@) == k
    }

    /// The list as a mapping from subject to rumor.
    pub open spec fn contents(self) -> Map<(RumorKind, Seq<u8>), RumorView> {
        Map::new(
            |k: (RumorKind, Seq<u8>)| self.has_key(k),
            |k: (RumorKind, Seq<u8>)| self.rumors@[self.idx_of(k)]@,
        )
    }

    /// The incarnation stored for `k`, if any.
    pub open spec fn incarnation_of(self, k: (RumorKind, Seq<u8>)) -> Option<u64> {
        if self.contents().dom().contains(k) {
            Some(self.contents()[k].incarnation)
        } else {
            None
        }
    }

    /// In a well-formed list, any position holding subject `k` is the
    /// position `idx_of` names.
    pub proof fn lemma_idx_unique(self, i: int, k: (RumorKind, Seq<u8>))
        requires
            self.wf(),
            0 <= i < self.rumors@.len(),
            subject_of(self.rumors@[i]@) == k,
        ensures
            self.has_key(k),
            self.idx_of(k) == i,
    {
        assert(self.has_key(k));
        let j = self.idx_of(k);
        if j != i {
            if j < i {
                assert(subject_of(self.rumors@[j]@) != subject_of(self.rumors@[i]@));
            } else {
                assert(subject_of(self.rumors@[i]@) != subject_of(self.rumors@[j]@));
            }
        }
    }

    /// An empty list at revision zero.
    pub fn new() -> (l: RumorList)
        ensures
            l.wf(),
            l.contents() =~= Map::<(RumorKind, Seq<u8>), RumorView>::empty(),
            l.revision == 0,
    {
        let l = RumorList { rumors: Vec::new(), revision: 0 };
        proof {
            assert(!l.has_key(choose|k: (RumorKind, Seq<u8>)| l.has_key(k)));
        }
        l
    }

    /// The position of the rumor about `(kind, key)`, if one is held.
    pub fn find(&self, kind: RumorKind, key: &[u8]) -> (r: Option<usize>)
        requires
            self.wf(),
        ensures
            match r {
                Some(i) => 0 <= i < self.rumors@.len() && subject_of(self.rumors@[i as int]@) == (
                kind,
                key@,
                ),
                None => !self.has_key((kind, key@)),
            },
    {
        let mut i: usize = 0;
        while i < self.rumors.len()
            invariant
                0 <= i <= self.rumors@.len(),
                forall|j: int|
                    0 <= j < i ==> subject_of(#[trigger] self.rumors@[j]@) != (kind, key@),
            decreases self.rumors@.len() - i,
        {
            if self.rumors[i].kind == kind && bytes_eq(self.rumors[i].key.as_slice(), key) {
                return Some(i);
            }
            i = i + 1;
        }
        None
    }

    /// Merge one rumor into the list.
    ///
    /// The rumor stored for the subject afterwards is the merge of the
    /// incoming rumor with whatever was held; every other subject is
    /// untouched. The result says whether the list changed, and the
    /// revision is bumped exactly then. For any subject the stored
    /// incarnation never decreases.
    pub fn add_rumor(&mut self, r: Rumor) -> (changed: bool)
        requires
            old(self).wf(),
        ensures
            final(self).wf(),
            final(self).contents() =~= old(self).contents().insert(
                subject_of(r@),
                if old(self).has_key(subject_of(r@)) {
                    spec_merge(old(self).contents()[subject_of(r@)], r@)
                } else {
                    r@
                },
            ),
            changed == (!old(self).has_key(subject_of(r@)) || outranks(
                r@,
                old(self).contents()[subject_of(r@)],
            )),
            final(self).revision == if changed && old(self).revision < u64::MAX {
                (old(self).revision + 1) as u64
            } else {
                old(self).revision
            },
            forall|k: (RumorKind, Seq<u8>)|
                old(self).contents().dom().contains(k) ==> final(self).contents().dom().contains(k)
                    && (#[trigger] final(self).contents()[k]).incarnation >= old(
                self,
            ).contents()[k].incarnation,
    {
        let ghost k = subject_of(r@);
        let ghost pre = *self;
        let found = self.find(r.kind, r.key.as_slice());
        let changed: bool;
        match found {
            Some(i) => {
                proof {
                    pre.lemma_idx_unique(i as int, k);
                }
                if rumor_outranks(&r, &self.rumors[i]) {
                    self.rumors[i] = r;
                    changed = true;
                } else {
                    changed = false;
                }
            },
            None => {
                self.rumors.push(r);
                changed = true;
            },
        }
        if changed && self.revision < u64::MAX {
            self.revision = self.revision + 1;
        }
        proof {
            lemma_bytes_lt_irrefl(r@.body);
            let target = if pre.has_key(k) {
                pre.contents().insert(k, spec_merge(pre.contents()[k], r@))
            } else {
                pre.contents().insert(k, r@)
            };
            match found {
                Some(i) => {
                    assert forall|i2: int, j2: int|
                        0 <= i2 < j2 < self.rumors@.len() implies subject_of(
                        #[trigger] self.rumors@[i2]@,
                    ) != subject_of(#[trigger] self.rumors@[j2]@) by {
                        assert(subject_of(pre.rumors@[i2]@) != subject_of(pre.rumors@[j2]@));
                    }
                    assert forall|k2: (RumorKind, Seq<u8>)| #[trigger]
                        self.has_key(k2) == pre.has_key(k2) by {
                        if self.has_key(k2) {
                            let w = self.idx_of(k2);
                            assert(subject_of(pre.rumors@[w]@) == k2);
                        }
                        if pre.has_key(k2) {
                            let w = pre.idx_of(k2);
                            assert(subject_of(self.rumors@[w]@) == k2);
                        }
                    }
                    assert forall|k2: (RumorKind, Seq<u8>)| self.has_key(k2) implies (
                    #[trigger] self.contents()[k2]) == target[k2] by {
                        let w = self.idx_of(k2);
                        assert(0 <= w < self.rumors@.len() && subject_of(self.rumors@[w]@) == k2);
                        if w == i as int {
                            self.lemma_idx_unique(i as int, k2);
                        } else {
                            assert(subject_of(pre.rumors@[w]@) == k2);
                            pre.lemma_idx_unique(w, k2);
                            self.lemma_idx_unique(w, k2);
                            assert(k2 != k);
                        }
                    }
                    assert(self.contents() =~= target);
                },
                None => {
                    let n = pre.rumors@.len() as int;
                    assert(self.rumors@ =~= pre.rumors@.push(r));
                    assert forall|i2: int, j2: int|
                        0 <= i2 < j2 < self.rumors@.len() implies subject_of(
                        #[trigger] self.rumors@[i2]@,
                    ) != subject_of(#[trigger] self.rumors@[j2]@) by {
                        if j2 < n {
                            assert(subject_of(pre.rumors@[i2]@) != subject_of(pre.rumors@[j2]@));
                        } else {
                            assert(self.rumors@[j2]@ == r@);
                            if subject_of(pre.rumors@[i2]@) == k {
                                assert(pre.has_key(k));
                            }
                        }
                    }
                    self.lemma_idx_unique(n, k);
                    assert forall|k2: (RumorKind, Seq<u8>)| #[trigger]
                        self.has_key(k2) == (pre.has_key(k2) || k2 == k) by {
                        if self.has_key(k2) && k2 != k {
                            let w = self.idx_of(k2);
                            assert(subject_of(self.rumors@[w]@) == k2);
                            assert(w != n);
                            assert(subject_of(pre.rumors@[w]@) == k2);
                        }
                        if pre.has_key(k2) {
                            let w = pre.idx_of(k2);
                            assert(subject_of(self.rumors@[w]@) == k2);
                        }
                    }
                    assert forall|k2: (RumorKind, Seq<u8>)| self.has_key(k2) implies (
                    #[trigger] self.contents()[k2]) == target[k2] by {
                        let w = self.idx_of(k2);
                        if k2 == k {
                            self.lemma_idx_unique(n, k);
                        } else {
                            assert(w != n);
                            assert(subject_of(pre.rumors@[w]@) == k2);
                            pre.lemma_idx_unique(w, k2);
                            self.lemma_idx_unique(w, k2);
                        }
                    }
                    assert(self.contents() =~= target);
                },
            }
            assert forall|k2: (RumorKind, Seq<u8>)|
                pre.contents().dom().contains(k2) implies self.contents().dom().contains(k2) && (
            #[trigger] self.contents()[k2]).incarnation >= pre.contents()[k2].incarnation by {
                if k2 == k {
                    assert(self.contents()[k2] == spec_merge(pre.contents()[k], r@));
                }
            }
        }
        changed
    }
}

} // verus!
