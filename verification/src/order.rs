//! The lexicographic order on pairs of integers that dates and times of day
//! are compared by.

use vstd::prelude::*;

verus! {

/// Three-way comparison of the pair `(a1, a2)` with `(b1, b2)`: first by the
/// first component, then by the second.
pub open spec fn pair_order(a1: i32, a2: i32, b1: i32, b2: i32) -> core::cmp::Ordering {
    if a1 < b1 {
        core::cmp::Ordering::Less
    } else if a1 > b1 {
        core::cmp::Ordering::Greater
    } else if a2 < b2 {
        core::cmp::Ordering::Less
    } else if a2 > b2 {
        core::cmp::Ordering::Greater
    } else {
        core::cmp::Ordering::Equal
    }
}

/// The opposite outcome of a comparison: `Less` and `Greater` swap places.
pub open spec fn reversed(o: core::cmp::Ordering) -> core::cmp::Ordering {
    match o {
        core::cmp::Ordering::Less => core::cmp::Ordering::Greater,
        core::cmp::Ordering::Equal => core::cmp::Ordering::Equal,
        core::cmp::Ordering::Greater => core::cmp::Ordering::Less,
    }
}

/// The pair `(a1, a2)` comes strictly before `(b1, b2)`.
pub open spec fn pair_before(a1: i32, a2: i32, b1: i32, b2: i32) -> bool {
    a1 < b1 || (a1 == b1 && a2 < b2)
}

/// Swapping the arguments reverses the comparison.
pub proof fn lemma_pair_order_antisymmetric(a1: i32, a2: i32, b1: i32, b2: i32)
    ensures
        pair_order(a1, a2, b1, b2) == reversed(pair_order(b1, b2, a1, a2)),
{
}

/// `pair_order` says `Less` exactly when the first pair is before the second,
/// and `Equal` exactly when the pairs are the same.
pub proof fn lemma_pair_order_meaning(a1: i32, a2: i32, b1: i32, b2: i32)
    ensures
        (pair_order(a1, a2, b1, b2) == core::cmp::Ordering::Less) == pair_before(a1, a2, b1, b2),
        (pair_order(a1, a2, b1, b2) == core::cmp::Ordering::Equal) == (a1 == b1 && a2 == b2),
        (pair_order(a1, a2, b1, b2) == core::cmp::Ordering::Greater) == pair_before(b1, b2, a1, a2),
{
}

/// In plain terms: the comparison says `Less` exactly when the first
/// components are in order, or equal with the second ones in order; `Equal`
/// exactly when both components agree; `Greater` otherwise.
pub proof fn lemma_pair_order_by_components(a1: i32, a2: i32, b1: i32, b2: i32)
    ensures
        (pair_order(a1, a2, b1, b2) == core::cmp::Ordering::Less) == (a1 < b1 || (a1 == b1 && a2 < b2)),
        (pair_order(a1, a2, b1, b2) == core::cmp::Ordering::Equal) == (a1 == b1 && a2 == b2),
        (pair_order(a1, a2, b1, b2) == core::cmp::Ordering::Greater) == (a1 > b1 || (a1 == b1 && a2 > b2)),
{
}

/// The order is transitive.
pub proof fn lemma_pair_before_transitive(a1: i32, a2: i32, b1: i32, b2: i32, c1: i32, c2: i32)
    requires
        pair_before(a1, a2, b1, b2),
        pair_before(b1, b2, c1, c2),
    ensures
        pair_before(a1, a2, c1, c2),
{
}

} // verus!
