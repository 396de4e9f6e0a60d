//! Fragmenting datagrams at the transport's MTU.
//!
//! A frame larger than one datagram travels as fragments of at most
//! `MTU` bytes: each carries its sequence number, the fragment count,
//! and a chunk of the payload. Reassembly accepts exactly the fragment
//! runs this fragmenting produces, and gives the payload back.

use vstd::prelude::*;
use crate::gossip::MTU;
use crate::wire::{u16_le, u16_of_le};

verus! {

/// Bytes of fragment header: sequence number and fragment count.
pub const FRAGMENT_HEADER: usize = 4;

/// Payload bytes per fragment: what remains of the MTU after the header.
pub const FRAGMENT_CHUNK: usize = 1196;

/// How many fragments a payload of `len` bytes needs: at least one, and
/// one per started chunk.
pub open spec fn spec_fragment_count(len: int) -> int {
    if len == 0 {
        1
    } else {
        (len + FRAGMENT_CHUNK - 1) / (FRAGMENT_CHUNK as int)
    }
}

/// Fragment `i` of `total` for a payload: its sequence number, the
/// count, and its chunk of the bytes.
pub open spec fn spec_fragment(data: Seq<u8>, i: int, total: u16) -> Seq<u8> {
    u16_le(i as u16) + u16_le(total) + data.subrange(
        i * FRAGMENT_CHUNK,
        if (i + 1) * FRAGMENT_CHUNK <= data.len() {
            (i + 1) * (FRAGMENT_CHUNK as int)
        } else {
            data.len() as int
        },
    )
}

/// The fragments, each as its bytes.
pub open spec fn fragment_views(f: Seq<Vec<u8>>) -> Seq<Seq<u8>> {
    f.map_values(|v: Vec<u8>| v@)
}

/// A well-formed fragment run: one to `u16::MAX` fragments, each opening
/// with its own sequence number and the common count, every chunk but
/// the last full, and the last nonempty unless it is the only one.
pub open spec fn well_formed_fragments(f: Seq<Seq<u8>>) -> bool {
    &&& 1 <= f.len() <= u16::MAX
    &&& forall|i: int| 0 <= i < f.len() ==> (#[trigger] f[i]).len() >= FRAGMENT_HEADER
    &&& forall|i: int|
        0 <= i < f.len() ==> u16_of_le(#[trigger] f[i][0], f[i][1]) == i
    &&& forall|i: int|
        0 <= i < f.len() ==> u16_of_le(#[trigger] f[i][2], f[i][3]) == f.len()
    &&& forall|i: int|
        0 <= i < f.len() - 1 ==> (#[trigger] f[i]).len() == FRAGMENT_HEADER + FRAGMENT_CHUNK
    &&& f.last().len() <= FRAGMENT_HEADER + FRAGMENT_CHUNK
    &&& (f.len() == 1 || f.last().len() > FRAGMENT_HEADER)
}

/// Split a payload into fragments of at most `MTU` bytes each: exactly
/// the fragments the specification names, in order.
#[verifier::rlimit(100)]
#[verifier::spinoff_prover]
pub fn fragment(data: &[u8]) -> (r: Vec<Vec<u8>>)
    requires
        data@.len() <= FRAGMENT_CHUNK * (u16::MAX as int),
    ensures
        r@.len() == spec_fragment_count(data@.len() as int),
        forall|i: int|
            0 <= i < r@.len() ==> (#[trigger] r@[i])@ == spec_fragment(
                data@,
                i,
                r@.len() as u16,
            ),
        forall|i: int| 0 <= i < r@.len() ==> (#[trigger] r@[i])@.len() <= MTU,
{
    let n = data.len();
    let total: usize = if n == 0 {
        1
    } else {
        (n - 1) / FRAGMENT_CHUNK + 1
    };
    proof {
        assert(total == spec_fragment_count(data@.len() as int));
        assert(total <= u16::MAX);
    }
    let mut r: Vec<Vec<u8>> = Vec::new();
    let mut i: usize = 0;
    while i < total
        invariant
            n == data@.len(),
            n <= FRAGMENT_CHUNK * (u16::MAX as int),
            1 <= total <= u16::MAX,
            total == spec_fragment_count(n as int),
            0 <= i <= total,
            r@.len() == i,
            i < total ==> i * FRAGMENT_CHUNK <= n,
            forall|j: int|
                0 <= j < i ==> (#[trigger] r@[j])@ == spec_fragment(data@, j, total as u16),
            forall|j: int| 0 <= j < i ==> (#[trigger] r@[j])@.len() <= MTU,
        decreases total - i,
    {
        let lo = i * FRAGMENT_CHUNK;
        let hi = if lo + FRAGMENT_CHUNK <= n {
            lo + FRAGMENT_CHUNK
        } else {
            n
        };
        let mut frag: Vec<u8> = Vec::new();
        frag.push((i % 256) as u8);
        frag.push((i / 256) as u8);
        frag.push((total % 256) as u8);
        frag.push((total / 256) as u8);
        let ghost header = frag@;
        proof {
            assert(header =~= u16_le(i as u16) + u16_le(total as u16));
        }
        let mut p: usize = lo;
        while p < hi
            invariant
                lo <= p <= hi <= n,
                n == data@.len(),
                frag@ =~= header + data@.subrange(lo as int, p as int),
            decreases hi - p,
        {
            frag.push(data[p]);
            proof {
                assert(data@.subrange(lo as int, p + 1) =~= data@.subrange(
                    lo as int,
                    p as int,
                ).push(data@[p as int]));
            }
            p = p + 1;
        }
        proof {
            assert(frag@ =~= spec_fragment(data@, i as int, total as u16));
            assert(frag@.len() <= MTU);
        }
        r.push(frag);
        proof {
            if i + 1 < total {
                assert((i + 1) * FRAGMENT_CHUNK < total * FRAGMENT_CHUNK);
                assert((i + 1) * FRAGMENT_CHUNK <= n) by (nonlinear_arith)
                    requires
                        i + 2 <= total,
                        total == spec_fragment_count(n as int),
                        1 <= total,
                        n >= 1,
                        total == (n - 1) / (FRAGMENT_CHUNK as int) + 1,
                ;
            }
        }
        i = i + 1;
    }
    r
}

/// Put a fragment run back together: the payload whose fragmenting the
/// run is. Exactly the well-formed runs are accepted — wrong sequence
/// numbers, a wrong count, short chunks in the middle or a missing tail
/// reject the whole run.
#[verifier::rlimit(100)]
#[verifier::spinoff_prover]
pub fn reassemble(frags: &Vec<Vec<u8>>) -> (r: Option<Vec<u8>>)
    ensures
        (r is Some) == well_formed_fragments(fragment_views(frags@)),
        r matches Some(d) ==> frags@.len() == spec_fragment_count(d@.len() as int) && forall|
            i: int,
        |
            0 <= i < frags@.len() ==> (#[trigger] frags@[i])@ == spec_fragment(
                d@,
                i,
                frags@.len() as u16,
            ),
{
    let total = frags.len();
    if total < 1 || total > 65535 {
        return None;
    }
    let mut d: Vec<u8> = Vec::new();
    let mut i: usize = 0;
    while i < total
        invariant
            1 <= total <= u16::MAX,
            total == frags@.len(),
            0 <= i <= total,
            i < total ==> d@.len() == i * FRAGMENT_CHUNK,
            i == total ==> d@.len() == (total - 1) * FRAGMENT_CHUNK + frags@.last()@.len()
                - FRAGMENT_HEADER,
            forall|j: int|
                0 <= j < i ==> (#[trigger] frags@[j])@.len() >= FRAGMENT_HEADER,
            forall|j: int|
                0 <= j < i ==> u16_of_le(#[trigger] frags@[j]@[0], frags@[j]@[1]) == j,
            forall|j: int|
                0 <= j < i ==> u16_of_le(#[trigger] frags@[j]@[2], frags@[j]@[3]) == total,
            forall|j: int|
                0 <= j < i && j < total - 1 ==> (#[trigger] frags@[j])@.len() == FRAGMENT_HEADER
                    + FRAGMENT_CHUNK,
            i == total ==> frags@.last()@.len() <= FRAGMENT_HEADER + FRAGMENT_CHUNK,
            i == total ==> (total == 1 || frags@.last()@.len() > FRAGMENT_HEADER),
            forall|j: int|
                0 <= j < i ==> d@.subrange(
                    j * FRAGMENT_CHUNK,
                    j * FRAGMENT_CHUNK + (#[trigger] frags@[j])@.len() - FRAGMENT_HEADER,
                ) == frags@[j]@.skip(FRAGMENT_HEADER as int),
        decreases total - i,
    {
        let f = &frags[i];
        proof {
            assert(fragment_views(frags@)[i as int] == frags@[i as int]@);
            assert(fragment_views(frags@).last() == frags@[frags@.len() - 1]@);
        }
        if f.len() < 4 {
            return None;
        }
        let seq_no: usize = ((f[0] as u16) + 256 * (f[1] as u16)) as usize;
        let count: usize = ((f[2] as u16) + 256 * (f[3] as u16)) as usize;
        if seq_no != i || count != total {
            return None;
        }
        if i < total - 1 && f.len() != 4 + FRAGMENT_CHUNK {
            return None;
        }
        if i == total - 1 && (f.len() > 4 + FRAGMENT_CHUNK || (total > 1 && f.len() <= 4)) {
            return None;
        }
        let ghost d_before = d@;
        let mut p: usize = 4;
        while p < f.len()
            invariant
                4 <= p <= f@.len(),
                d@ =~= d_before + f@.subrange(4, p as int),
            decreases f@.len() - p,
        {
            d.push(f[p]);
            proof {
                assert(f@.subrange(4, p + 1) =~= f@.subrange(4, p as int).push(f@[p as int]));
            }
            p = p + 1;
        }
        proof {
            assert(d@ =~= d_before + f@.skip(4));
            assert forall|j: int|
                0 <= j < i + 1 implies d@.subrange(
                j * FRAGMENT_CHUNK,
                j * FRAGMENT_CHUNK + (#[trigger] frags@[j])@.len() - FRAGMENT_HEADER,
            ) == frags@[j]@.skip(FRAGMENT_HEADER as int) by {
                if j < i {
                    assert(d@.subrange(
                        j * FRAGMENT_CHUNK,
                        j * FRAGMENT_CHUNK + frags@[j]@.len() - FRAGMENT_HEADER,
                    ) =~= d_before.subrange(
                        j * FRAGMENT_CHUNK,
                        j * FRAGMENT_CHUNK + frags@[j]@.len() - FRAGMENT_HEADER,
                    ));
                } else {
                    assert(d@.subrange(
                        j * FRAGMENT_CHUNK,
                        j * FRAGMENT_CHUNK + frags@[j]@.len() - FRAGMENT_HEADER,
                    ) =~= f@.skip(4));
                }
            }
        }
        i = i + 1;
    }
    proof {
        assert(well_formed_fragments(fragment_views(frags@)));
        let dl = d@.len() as int;
        assert(frags@.len() == spec_fragment_count(dl)) by (nonlinear_arith)
            requires
                total == frags@.len(),
                1 <= total <= u16::MAX,
                dl == (total - 1) * FRAGMENT_CHUNK + frags@.last()@.len() - FRAGMENT_HEADER,
                frags@.last()@.len() <= FRAGMENT_HEADER + FRAGMENT_CHUNK,
                frags@.last()@.len() >= FRAGMENT_HEADER,
                total == 1 || frags@.last()@.len() > FRAGMENT_HEADER,
        ;
        assert forall|i2: int|
            0 <= i2 < frags@.len() implies (#[trigger] frags@[i2])@ == spec_fragment(
            d@,
            i2,
            frags@.len() as u16,
        ) by {
            assert(u16_le(i2 as u16) =~= seq![frags@[i2]@[0], frags@[i2]@[1]]);
            assert(u16_le(total as u16) =~= seq![frags@[i2]@[2], frags@[i2]@[3]]);
            assert(d@.subrange(
                i2 * FRAGMENT_CHUNK,
                i2 * FRAGMENT_CHUNK + frags@[i2]@.len() - FRAGMENT_HEADER,
            ) == frags@[i2]@.skip(FRAGMENT_HEADER as int));
            assert(frags@[i2]@ =~= seq![
                frags@[i2]@[0],
                frags@[i2]@[1],
                frags@[i2]@[2],
                frags@[i2]@[3],
            ] + frags@[i2]@.skip(4));
            assert(spec_fragment(d@, i2, frags@.len() as u16) =~= frags@[i2]@);
        }
    }
    Some(d)
}

} // verus!
