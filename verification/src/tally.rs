//! Counting the positions of a sequence at which something holds.

use vstd::prelude::*;

verus! {

/// The number of positions below `n` at which `p` holds.
pub open spec fn count(n: nat, p: spec_fn(int) -> bool) -> nat
    decreases n,
{
    if n == 0 {
        0
    } else {
        count((n - 1) as nat, p) + if p(n - 1) {
            1nat
        } else {
            0nat
        }
    }
}

/// A count never exceeds the number of positions.
pub proof fn lemma_bound(n: nat, p: spec_fn(int) -> bool)
    ensures
        count(n, p) <= n,
    decreases n,
{
    if n > 0 {
        lemma_bound((n - 1) as nat, p);
    }
}

/// A condition that holds everywhere is counted at every position.
pub proof fn lemma_all(n: nat, p: spec_fn(int) -> bool)
    requires
        forall|i: int| 0 <= i < n ==> #[trigger] p(i),
    ensures
        count(n, p) == n,
    decreases n,
{
    if n > 0 {
        lemma_all((n - 1) as nat, p);
    }
}

/// A weaker condition holds at no fewer positions.
pub proof fn lemma_monotone(n: nat, p: spec_fn(int) -> bool, q: spec_fn(int) -> bool)
    requires
        forall|i: int| 0 <= i < n && #[trigger] p(i) ==> q(i),
    ensures
        count(n, p) <= count(n, q),
    decreases n,
{
    if n > 0 {
        lemma_monotone((n - 1) as nat, p, q);
    }
}

/// Two conditions that agree on every position have one count.
pub proof fn lemma_same(n: nat, p: spec_fn(int) -> bool, q: spec_fn(int) -> bool)
    requires
        forall|i: int| 0 <= i < n ==> #[trigger] p(i) == q(i),
    ensures
        count(n, p) == count(n, q),
    decreases n,
{
    if n > 0 {
        lemma_same((n - 1) as nat, p, q);
    }
}

/// A condition that is implied by another, and holds at one more position, has a larger count.
pub proof fn lemma_strict(n: nat, p: spec_fn(int) -> bool, q: spec_fn(int) -> bool, k: int)
    requires
        forall|i: int| 0 <= i < n && #[trigger] p(i) ==> q(i),
        0 <= k < n,
        !p(k),
        q(k),
    ensures
        count(n, p) < count(n, q),
    decreases n,
{
    if k == n - 1 {
        lemma_monotone((n - 1) as nat, p, q);
    } else {
        lemma_strict((n - 1) as nat, p, q, k);
    }
}

/// Where `q` holds at more positions than `p`, it holds at one at which `p` does not.
pub proof fn lemma_witness(n: nat, p: spec_fn(int) -> bool, q: spec_fn(int) -> bool) -> (k: int)
    requires
        count(n, p) < count(n, q),
    ensures
        0 <= k < n,
        q(k),
        !p(k),
    decreases n,
{
    if q(n - 1) && !p(n - 1) {
        n - 1
    } else {
        lemma_witness((n - 1) as nat, p, q)
    }
}

/// Changing what holds at one position changes the count by that position alone.
pub proof fn lemma_update(n: nat, p: spec_fn(int) -> bool, q: spec_fn(int) -> bool, k: int)
    requires
        0 <= k < n,
        forall|i: int| 0 <= i < n && i != k ==> #[trigger] p(i) == q(i),
    ensures
        count(n, q) + (if p(k) {
            1nat
        } else {
            0nat
        }) == count(n, p) + (if q(k) {
            1nat
        } else {
            0nat
        }),
    decreases n,
{
    if k == n - 1 {
        lemma_same((n - 1) as nat, p, q);
    } else {
        lemma_update((n - 1) as nat, p, q, k);
    }
}

} // verus!
