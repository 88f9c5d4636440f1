use vstd::prelude::*;
use crate::fingerprint::Fingerprint;

verus! {

/// Number of positions below `n` where both sequences hold `true`.
pub open spec fn count_and(a: Seq<bool>, b: Seq<bool>, n: int) -> int
    decreases n,
{
    if n <= 0 {
        0
    } else {
        count_and(a, b, n - 1) + if a[n - 1] && b[n - 1] {
            1int
        } else {
            0int
        }
    }
}

/// Number of positions below `n` where either sequence holds `true`.
pub open spec fn count_or(a: Seq<bool>, b: Seq<bool>, n: int) -> int
    decreases n,
{
    if n <= 0 {
        0
    } else {
        count_or(a, b, n - 1) + if a[n - 1] || b[n - 1] {
            1int
        } else {
            0int
        }
    }
}

/// The two population counts behind the Tanimoto-style similarity of two
/// fingerprints: bits set in both, and bits set in either.  The similarity
/// score is their ratio; it is left to the caller to divide, so that the
/// exact counts stay available.
pub fn tanimoto_counts(a: &Fingerprint, b: &Fingerprint) -> (r: (u32, u32))
    requires
        a.wf(),
        b.wf(),
    ensures
        r.0 == count_and(a@, b@, 512),
        r.1 == count_or(a@, b@, 512),
{
    let mut both: u32 = 0;
    let mut either: u32 = 0;
    let mut i: usize = 0;
    while i < 512
        invariant
            i <= 512,
            a.wf(),
            b.wf(),
            both == count_and(a@, b@, i as int),
            either == count_or(a@, b@, i as int),
            both <= i,
            either <= i,
        decreases 512 - i,
    {
        let ab = a.get_bit(i);
        let bb = b.get_bit(i);
        if ab && bb {
            both += 1;
        }
        if ab || bb {
            either += 1;
        }
        i += 1;
    }
    (both, either)
}

/// The similarity score is bounded: the intersection count never exceeds the
/// union count, and both lie in `[0, n]`.  Hence the ratio, whenever the
/// union count is nonzero, lies in `[0, 1]`.
pub proof fn lemma_similarity_bounds(a: Seq<bool>, b: Seq<bool>, n: int)
    requires
        0 <= n,
    ensures
        0 <= count_and(a, b, n) <= count_or(a, b, n) <= n,
    decreases n,
{
    if n > 0 {
        lemma_similarity_bounds(a, b, n - 1);
    }
}

/// A fingerprint compared with itself has equal intersection and union
/// counts, so its self-similarity is exactly one whenever it has any bit set.
pub proof fn lemma_self_similarity(a: Seq<bool>, n: int)
    ensures
        count_and(a, a, n) == count_or(a, a, n),
    decreases n,
{
    if n > 0 {
        lemma_self_similarity(a, n - 1);
    }
}

} // verus!
