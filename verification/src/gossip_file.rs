//! Signed, versioned configuration files distributed over gossip, and the
//! atomic on-disk apply discipline.
//!
//! For one `(service_group, filename)` only a strictly greater version is
//! accepted. A file whose signature does not verify is dropped — never
//! written, never retried — and counted. Application is atomic: the bytes
//! are staged beside the target and renamed over it, so the target is at
//! any instant either absent or one complete version.

use vstd::prelude::*;

verus! {

/// A configuration file carried by gossip.
#[derive(Clone, Debug)]
pub struct GossipFile {
    pub service_group: Vec<u8>,
    pub filename: Vec<u8>,
    pub body: Vec<u8>,
    pub version: u64,
    pub signature: Vec<u8>,
}

impl GossipFile {
    /// Build a file rumor from a body held in memory.
    pub fn from_body(
        service_group: Vec<u8>,
        filename: Vec<u8>,
        body: Vec<u8>,
        version: u64,
    ) -> (f: GossipFile)
        ensures
            f.service_group@ == service_group@,
            f.filename@ == filename@,
            f.body@ == body@,
            f.version == version,
            f.signature@.len() == 0,
    {
        GossipFile { service_group, filename, body, version, signature: Vec::new() }
    }
}

/// What became of an incoming file rumor.
#[derive(Clone, Copy, Debug, PartialEq, Eq, Structural)]
pub enum FileDecision {
    /// Signature good and version strictly newer: write it.
    Applied,
    /// Version not strictly newer than what is on disk: ignore it.
    Stale,
    /// Signature did not verify: drop it, count it, never retry.
    BadSignature,
}

/// The acceptance rule for one file: a verified signature and a strictly
/// greater version than any held.
pub open spec fn spec_file_decision(
    current_version: Option<u64>,
    incoming: u64,
    signature_valid: bool,
) -> FileDecision {
    if !signature_valid {
        FileDecision::BadSignature
    } else {
        match current_version {
            Some(v) => if incoming > v {
                FileDecision::Applied
            } else {
                FileDecision::Stale
            },
            None => FileDecision::Applied,
        }
    }
}

/// Decide one incoming file against the version held for its name.
pub fn file_decision(current_version: Option<u64>, incoming: u64, signature_valid: bool) -> (r:
    FileDecision)
    ensures
        r == spec_file_decision(current_version, incoming, signature_valid),
{
    if !signature_valid {
        FileDecision::BadSignature
    } else {
        match current_version {
            Some(v) => if incoming > v {
                FileDecision::Applied
            } else {
                FileDecision::Stale
            },
            None => FileDecision::Applied,
        }
    }
}

/// The retry backoff after `attempts` failed writes: 100 ms doubled each
/// time, capped at one minute.
pub open spec fn spec_backoff_ms(attempts: u32) -> u64 {
    if attempts <= 9 {
        (100u64 << attempts) as u64
    } else {
        60000
    }
}

/// The retry backoff after `attempts` failed writes.
pub fn backoff_ms(attempts: u32) -> (r: u64)
    ensures
        r == spec_backoff_ms(attempts),
        100 <= r <= 60000,
    {
    if attempts <= 9 {
        let r = 100u64 << attempts;
        assert(100 <= (100u64 << attempts) <= 51200) by (bit_vector)
            requires
                attempts <= 9,
        ;
        r
    } else {
        60000
    }
}

/// A failed write waiting to be retried.
#[derive(Clone, Debug)]
pub struct FileWriteRetry {
    pub filename: Vec<u8>,
    pub attempts: u32,
    /// When the next attempt is due, in milliseconds of supervisor time.
    pub next_attempt_ms: u64,
}

/// Record one failed write of `filename` at `now_ms`: a first failure
/// opens a record due after the base backoff; each further failure counts
/// up and doubles the wait, capped. Other files' records are untouched.
pub fn record_write_failure(retries: &mut Vec<FileWriteRetry>, filename: &[u8], now_ms: u64)
    requires
        now_ms + 60000 <= u64::MAX,
    ensures
        ({
            let found = exists|i: int|
                0 <= i < old(retries)@.len() && (#[trigger] old(retries)@[i]).filename@
                    == filename@;
            if found {
                exists|i: int|
                    0 <= i < old(retries)@.len() && (#[trigger] old(retries)@[i]).filename@
                        == filename@ && final(retries)@ =~= old(retries)@.update(
                        i,
                        FileWriteRetry {
                            filename: old(retries)@[i].filename,
                            attempts: if old(retries)@[i].attempts < u32::MAX {
                                (old(retries)@[i].attempts + 1) as u32
                            } else {
                                old(retries)@[i].attempts
                            },
                            next_attempt_ms: (now_ms + spec_backoff_ms(
                                old(retries)@[i].attempts,
                            )) as u64,
                        },
                    )
            } else {
                &&& final(retries)@.len() == old(retries)@.len() + 1
                &&& final(retries)@.subrange(0, old(retries)@.len() as int) =~= old(retries)@
                &&& final(retries)@.last().filename@ == filename@
                &&& final(retries)@.last().attempts == 1
                &&& final(retries)@.last().next_attempt_ms == now_ms + spec_backoff_ms(0)
            }
        }),
{
    let mut i: usize = 0;
    while i < retries.len()
        invariant
            0 <= i <= retries@.len(),
            retries@ == old(retries)@,
            now_ms + 60000 <= u64::MAX,
            forall|j: int| 0 <= j < i ==> (#[trigger] retries@[j]).filename@ != filename@,
        decreases retries@.len() - i,
    {
        if crate::rumor::bytes_eq(retries[i].filename.as_slice(), filename) {
            let ghost pre = retries@;
            let old_attempts = retries[i].attempts;
            let wait = backoff_ms(old_attempts);
            if retries[i].attempts < u32::MAX {
                retries[i].attempts = old_attempts + 1;
            }
            retries[i].next_attempt_ms = now_ms + wait;
            proof {
                assert(retries@ =~= pre.update(
                    i as int,
                    FileWriteRetry {
                        filename: pre[i as int].filename,
                        attempts: if pre[i as int].attempts < u32::MAX {
                            (pre[i as int].attempts + 1) as u32
                        } else {
                            pre[i as int].attempts
                        },
                        next_attempt_ms: (now_ms + spec_backoff_ms(
                            pre[i as int].attempts,
                        )) as u64,
                    },
                ));
            }
            return ;
        }
        i = i + 1;
    }
    let mut name: Vec<u8> = Vec::new();
    let mut k: usize = 0;
    while k < filename.len()
        invariant
            0 <= k <= filename@.len(),
            name@ =~= filename@.subrange(0, k as int),
        decreases filename@.len() - k,
    {
        name.push(filename[k]);
        proof {
            assert(filename@.subrange(0, k + 1) =~= filename@.subrange(0, k as int).push(
                filename@[k as int],
            ));
        }
        k = k + 1;
    }
    proof {
        assert(name@ =~= filename@);
    }
    let wait = backoff_ms(0);
    retries.push(FileWriteRetry { filename: name, attempts: 1, next_attempt_ms: now_ms + wait });
    proof {
        assert(retries@.subrange(0, retries@.len() - 1) =~= old(retries)@);
    }
}

/// Whether a retry record is due at `now_ms`.
pub fn retry_due(r: &FileWriteRetry, now_ms: u64) -> (due: bool)
    ensures
        due == (now_ms >= r.next_attempt_ms),
{
    now_ms >= r.next_attempt_ms
}

/// Drop the retry record of `filename` after a write finally succeeded;
/// nothing changes when none is held. Other files' records are untouched.
pub fn clear_write_retry(retries: &mut Vec<FileWriteRetry>, filename: &[u8]) -> (cleared: bool)
    ensures
        cleared ==> exists|i: int|
            0 <= i < old(retries)@.len() && (#[trigger] old(retries)@[i]).filename@ == filename@
                && final(retries)@ =~= old(retries)@.remove(i),
        !cleared ==> final(retries)@ =~= old(retries)@,
{
    let mut i: usize = 0;
    while i < retries.len()
        invariant
            0 <= i <= retries@.len(),
            retries@ == old(retries)@,
            forall|j: int| 0 <= j < i ==> (#[trigger] retries@[j]).filename@ != filename@,
        decreases retries@.len() - i,
    {
        if crate::rumor::bytes_eq(retries[i].filename.as_slice(), filename) {
            retries.remove(i);
            return true;
        }
        i = i + 1;
    }
    false
}

/// One target path on disk, with the staging slot beside it.
///
/// `stage` models writing and syncing `{target}.new`; `commit` models the
/// rename over `{target}` and the directory sync; `crash` models losing
/// the process at any point between steps. The target file is never
/// touched except by `commit`, which installs a complete staged value.
pub struct FileApply {
    /// The complete bytes staged at `{target}.new`, if any.
    pub staged: Option<(u64, Vec<u8>)>,
    /// The complete file visible at `{target}`, if any.
    pub current: Option<(u64, Vec<u8>)>,
}

impl FileApply {
    /// A target that does not exist yet.
    pub fn new() -> (d: FileApply)
        ensures
            d.staged matches Option::None,
            d.current matches Option::None,
    {
        FileApply { staged: None, current: None }
    }

    /// Write the whole body to the staging path and sync it. The target
    /// is untouched.
    pub fn stage(&mut self, version: u64, body: Vec<u8>)
        ensures
            final(self).current == old(self).current,
            final(self).staged matches Some(s) && s.0 == version && s.1@ == body@,
    {
        self.staged = Some((version, body));
    }

    /// Rename the staged file over the target and sync the directory:
    /// the target becomes exactly the staged value, in one step.
    pub fn commit(&mut self)
        requires
            old(self).staged is Some,
        ensures
            final(self).current == old(self).staged,
            final(self).staged matches Option::None,
    {
        let staged = self.staged.take();
        self.current = staged;
    }

    /// Lose the process: whatever was staged is garbage, but the target
    /// is exactly what it was — never a partial file.
    pub fn crash(&mut self)
        ensures
            final(self).current == old(self).current,
            final(self).staged matches Option::None,
    {
        self.staged = None;
    }
}

/// One step of the apply discipline, for reasoning about whole runs.
pub ghost enum FileOp {
    Stage(u64, Seq<u8>),
    Commit,
    Crash,
}

/// The spec-level disk: staged and visible content.
#[verifier::ext_equal]
pub ghost struct DiskView {
    pub staged: Option<(u64, Seq<u8>)>,
    pub current: Option<(u64, Seq<u8>)>,
}

/// Run one step against the disk. A `Commit` with nothing staged does
/// nothing.
pub open spec fn disk_step(d: DiskView, op: FileOp) -> DiskView {
    match op {
        FileOp::Stage(v, b) => DiskView { staged: Some((v, b)), ..d },
        FileOp::Commit => if d.staged is Some {
            DiskView { current: d.staged, staged: None }
        } else {
            d
        },
        FileOp::Crash => DiskView { staged: None, ..d },
    }
}

/// Run a sequence of steps.
pub open spec fn disk_run(d: DiskView, ops: Seq<FileOp>) -> DiskView
    decreases ops.len(),
{
    if ops.len() == 0 {
        d
    } else {
        disk_run(disk_step(d, ops[0]), ops.skip(1))
    }
}

/// Whether a value is a complete version: the initial content or the
/// full payload of some staging step in `ops`.
pub open spec fn is_complete_version(
    c: Option<(u64, Seq<u8>)>,
    initial: Option<(u64, Seq<u8>)>,
    ops: Seq<FileOp>,
) -> bool {
    ||| c == initial
    ||| exists|i: int|
        0 <= i < ops.len() && match #[trigger] ops[i] {
            FileOp::Stage(v, b) => c == Some((v, b)),
            _ => false,
        }
}

/// Law: after any run of stage, commit and crash steps — crashes at any
/// point included — the target holds a complete version: its initial
/// content or the whole payload of one staging step. No run exposes a
/// partial file.
pub proof fn lemma_atomic_apply(d: DiskView, ops: Seq<FileOp>)
    requires
        d.staged is Some ==> is_complete_version(d.staged, d.current, Seq::<FileOp>::empty()),
    ensures
        is_complete_version(disk_run(d, ops).current, d.current, ops),
    decreases ops.len(),
{
    if ops.len() > 0 {
        let d2 = disk_step(d, ops[0]);
        assert(d2.staged is Some ==> is_complete_version(
            d2.staged,
            d2.current,
            Seq::<FileOp>::empty(),
        ) || (match ops[0] {
            FileOp::Stage(v, b) => d2.staged == Some((v, b)),
            _ => false,
        }));
        lemma_atomic_apply_inner(d, d2, ops);
    }
}

/// The inductive core of `lemma_atomic_apply`: carry "every complete
/// value so far is initial or a staged payload" across one step.
proof fn lemma_atomic_apply_inner(d: DiskView, d2: DiskView, ops: Seq<FileOp>)
    requires
        ops.len() > 0,
        d2 == disk_step(d, ops[0]),
        d.staged is Some ==> is_complete_version(d.staged, d.current, Seq::<FileOp>::empty()),
    ensures
        is_complete_version(disk_run(d, ops).current, d.current, ops),
    decreases ops.len(),
{
    let rest = ops.skip(1);
    assert(disk_run(d, ops) == disk_run(d2, rest));
    // Every value reachable from d2 is d2.current, or a payload staged in rest.
    lemma_atomic_apply_rec(d2, rest, d.current, ops);
}

/// Generalized induction: if the current content and any staged content
/// are complete with respect to (`initial`, `all_ops`), and the remaining
/// steps are a suffix of `all_ops`, the final content is complete too.
proof fn lemma_atomic_apply_rec(
    d: DiskView,
    ops: Seq<FileOp>,
    initial: Option<(u64, Seq<u8>)>,
    all_ops: Seq<FileOp>,
)
    requires
        is_complete_version(d.current, initial, all_ops),
        d.staged is Some ==> is_complete_version(d.staged, initial, all_ops),
        forall|i: int|
            0 <= i < ops.len() ==> exists|j: int|
                0 <= j < all_ops.len() && #[trigger] ops[i] == #[trigger] all_ops[j],
    ensures
        is_complete_version(disk_run(d, ops).current, initial, all_ops),
    decreases ops.len(),
{
    if ops.len() > 0 {
        let d2 = disk_step(d, ops[0]);
        assert(exists|j: int| 0 <= j < all_ops.len() && ops[0] == all_ops[j]);
        match ops[0] {
            FileOp::Stage(v, b) => {
                let j = choose|j: int| 0 <= j < all_ops.len() && ops[0] == all_ops[j];
                assert(all_ops[j] == FileOp::Stage(v, b));
                assert(is_complete_version(Some((v, b)), initial, all_ops));
            },
            _ => {},
        }
        assert(forall|i: int|
            0 <= i < ops.skip(1).len() ==> #[trigger] ops.skip(1)[i] == ops[i + 1]);
        lemma_atomic_apply_rec(d2, ops.skip(1), initial, all_ops);
    }
}

} // verus!
