//! The arithmetic of event metadata: merging last-ancestor maps, the test for
//! strong seeing, and the responsiveness threshold.

use vstd::prelude::*;
use vstd::arithmetic::power2::{lemma2_to64, lemma_pow2_unfold, pow2};
use crate::peer_manager::{is_super_majority_of, spec_is_super_majority};
use crate::tally::{count_below, lemma_count_monotone};

verus! {

/// The greater of two indices, where an absent one counts as less than any.
pub open spec fn spec_later(a: Option<u64>, b: Option<u64>) -> Option<u64> {
    match (a, b) {
        (Some(x), Some(y)) => Some(if x >= y {
            x
        } else {
            y
        }),
        (Some(x), None) => Some(x),
        (None, y) => y,
    }
}

/// Slot by slot, the greater of the two entries.
pub open spec fn spec_merged(own: Seq<Option<u64>>, other: Seq<Option<u64>>) -> Seq<Option<u64>> {
    Seq::new(own.len(), |p: int| spec_later(own[p], other[p]))
}

/// Slot by slot, the greater of the two entries.
pub fn merged(own: &Vec<Option<u64>>, other: &Vec<Option<u64>>) -> (out: Vec<Option<u64>>)
    requires
        own.len() == other.len(),
    ensures
        out@ == spec_merged(own@, other@),
{
    let mut out: Vec<Option<u64>> = Vec::new();
    let mut p: usize = 0;
    while p < own.len()
        invariant
            own.len() == other.len(),
            p <= own.len(),
            out.len() == p,
            forall|q: int| 0 <= q < p ==> out[q] == spec_later(own[q], other[q]),
        decreases own.len() - p,
    {
        let entry = match (own[p], other[p]) {
            (Some(x), Some(y)) => Some(if x >= y {
                x
            } else {
                y
            }),
            (Some(x), None) => Some(x),
            (None, y) => y,
        };
        out.push(entry);
        p += 1;
    }
    proof {
        assert(out@ =~= spec_merged(own@, other@));
    }
    out
}

/// A map by slot without any entry, for `n` peers.
pub open spec fn spec_absent(n: nat) -> Seq<Option<u64>> {
    Seq::new(n, |p: int| None::<u64>)
}

/// A map by slot without any entry, for `n` peers.
pub fn absent(n: usize) -> (out: Vec<Option<u64>>)
    ensures
        out@ == spec_absent(n as nat),
{
    let mut out: Vec<Option<u64>> = Vec::new();
    let mut p: usize = 0;
    while p < n
        invariant
            p <= n,
            out.len() == p,
            forall|q: int| 0 <= q < p ==> out[q].is_none(),
        decreases n - p,
    {
        out.push(None);
        p += 1;
    }
    proof {
        assert(out@ =~= spec_absent(n as nat));
    }
    out
}

/// The empty set of peers, by slot, for `n` peers.
pub open spec fn spec_nobody(n: nat) -> Seq<bool> {
    Seq::new(n, |p: int| false)
}

/// The empty set of peers, by slot, for `n` peers.
pub fn nobody(n: usize) -> (out: Vec<bool>)
    ensures
        out@ == spec_nobody(n as nat),
{
    let mut out: Vec<bool> = Vec::new();
    let mut p: usize = 0;
    while p < n
        invariant
            p <= n,
            out.len() == p,
            forall|q: int| 0 <= q < p ==> !out[q],
        decreases n - p,
    {
        out.push(false);
        p += 1;
    }
    proof {
        assert(out@ =~= spec_nobody(n as nat));
    }
    out
}

/// At slot `p` a descendant of the one event is an ancestor of the other:
/// the first descendant noted in `first_descendants` is no later than the
/// last ancestor noted in `last_ancestors`.
pub open spec fn spec_linked(
    last_ancestors: Seq<Option<u64>>,
    first_descendants: Seq<Option<u64>>,
    p: int,
) -> bool {
    match (first_descendants[p], last_ancestors[p]) {
        (Some(d), Some(a)) => d <= a,
        _ => false,
    }
}

/// The number of slots at which the two events are linked.
pub open spec fn spec_links(
    last_ancestors: Seq<Option<u64>>,
    first_descendants: Seq<Option<u64>>,
) -> nat {
    count_below(
        first_descendants.len(),
        |p: int| spec_linked(last_ancestors, first_descendants, p),
    )
}

/// An event with the map `last_ancestors` strongly sees one with the map
/// `first_descendants`: they are linked through a super-majority of `total` peers.
pub open spec fn spec_strongly_sees(
    last_ancestors: Seq<Option<u64>>,
    first_descendants: Seq<Option<u64>>,
    total: nat,
) -> bool {
    spec_is_super_majority(spec_links(last_ancestors, first_descendants), total)
}

/// Tells whether an event with the map `last_ancestors` strongly sees one
/// with the map `first_descendants`.
pub fn strongly_sees(
    last_ancestors: &Vec<Option<u64>>,
    first_descendants: &Vec<Option<u64>>,
    total: usize,
) -> (yes: bool)
    requires
        last_ancestors.len() == first_descendants.len(),
    ensures
        yes == spec_strongly_sees(last_ancestors@, first_descendants@, total as nat),
{
    let mut count: usize = 0;
    let mut p: usize = 0;
    while p < first_descendants.len()
        invariant
            last_ancestors.len() == first_descendants.len(),
            p <= first_descendants.len(),
            count <= p,
            count == count_below(
                p as nat,
                |q: int| spec_linked(last_ancestors@, first_descendants@, q),
            ),
        decreases first_descendants.len() - p,
    {
        let linked = match (first_descendants[p], last_ancestors[p]) {
            (Some(d), Some(a)) => d <= a,
            _ => false,
        };
        if linked {
            count += 1;
        }
        p += 1;
    }
    is_super_majority_of(count, total)
}

/// Strong seeing is kept by every event whose last ancestors are, slot by
/// slot, no earlier: what an event strongly sees, its descendants do too.
pub proof fn lemma_strongly_sees_monotone(
    earlier: Seq<Option<u64>>,
    later: Seq<Option<u64>>,
    first_descendants: Seq<Option<u64>>,
    total: nat,
)
    requires
        earlier.len() == first_descendants.len(),
        later.len() == first_descendants.len(),
        forall|p: int|
            0 <= p < earlier.len() ==> (#[trigger] earlier[p] matches Some(a) ==> (
            later[p] matches Some(b) && a <= b)),
        spec_strongly_sees(earlier, first_descendants, total),
    ensures
        spec_strongly_sees(later, first_descendants, total),
{
    lemma_count_monotone(
        first_descendants.len(),
        |p: int| spec_linked(earlier, first_descendants, p),
        |p: int| spec_linked(later, first_descendants, p),
    );
}

/// The least `k` with `2^k >= n`: the logarithm to base 2, rounded up.
pub open spec fn spec_ceil_log2(n: nat) -> nat
    decreases n,
{
    if n <= 1 {
        0
    } else {
        1 + spec_ceil_log2((n + 1) / 2)
    }
}

/// The rounded-up logarithm of `n` is the least `k` with `n <= 2^k`.
pub proof fn lemma_ceil_log2_is_least(n: nat)
    ensures
        n <= pow2(spec_ceil_log2(n)),
        spec_ceil_log2(n) > 0 ==> pow2((spec_ceil_log2(n) - 1) as nat) < n,
    decreases n,
{
    if n <= 1 {
        lemma2_to64();
    } else {
        let half = (n + 1) / 2;
        let k = spec_ceil_log2(half);
        lemma_ceil_log2_is_least(half);
        lemma_pow2_unfold(k + 1);
        if k > 0 {
            lemma_pow2_unfold(k);
        } else {
            lemma2_to64();
        }
    }
}

/// The logarithm of `n` to base 2, rounded up; 0 for `n` below 2.
pub fn ceil_log2(n: usize) -> (k: usize)
    ensures
        k == spec_ceil_log2(n as nat),
        n <= pow2(k as nat),
        k > 0 ==> pow2((k - 1) as nat) < n,
{
    proof {
        lemma_ceil_log2_is_least(n as nat);
    }
    let mut k: usize = 0;
    let mut m: usize = n;
    while m > 1
        invariant
            spec_ceil_log2(n as nat) == k + spec_ceil_log2(m as nat),
            k + m <= n || m <= 1,
        decreases m,
    {
        m = m / 2 + m % 2;
        k += 1;
    }
    k
}

} // verus!
