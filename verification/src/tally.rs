//! Counting the places of a range at which a predicate holds.

use vstd::prelude::*;

verus! {

/// The number of `i` in `0..n` at which `pred` holds.
pub open spec fn count_below(n: nat, pred: spec_fn(int) -> bool) -> nat
    decreases n,
{
    if n == 0 {
        0
    } else {
        count_below((n - 1) as nat, pred) + if pred(n - 1) {
            1nat
        } else {
            0nat
        }
    }
}

/// A predicate that holds wherever another does is counted at least as often.
pub proof fn lemma_count_monotone(n: nat, p: spec_fn(int) -> bool, q: spec_fn(int) -> bool)
    requires
        forall|i: int| 0 <= i < n && #[trigger] p(i) ==> q(i),
    ensures
        count_below(n, p) <= count_below(n, q),
    decreases n,
{
    if n > 0 {
        lemma_count_monotone((n - 1) as nat, p, q);
    }
}

/// Two predicates that agree on the range are counted equally often.
pub proof fn lemma_count_congruent(n: nat, p: spec_fn(int) -> bool, q: spec_fn(int) -> bool)
    requires
        forall|i: int| 0 <= i < n ==> #[trigger] p(i) == q(i),
    ensures
        count_below(n, p) == count_below(n, q),
    decreases n,
{
    if n > 0 {
        lemma_count_congruent((n - 1) as nat, p, q);
    }
}

} // verus!
