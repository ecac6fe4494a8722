//! The first index with a property.
use vstd::prelude::*;

verus! {

/// Whether `i` is the least number below `n` for which `holds`.
pub open spec fn is_least(n: int, holds: spec_fn(int) -> bool, i: int) -> bool {
    0 <= i < n && holds(i) && forall|j: int| 0 <= j < i ==> !(#[trigger] holds(j))
}

/// The least number below `n` for which `holds`, if there is any.
pub open spec fn least(n: int, holds: spec_fn(int) -> bool) -> Option<int> {
    if exists|i: int| is_least(n, holds, i) {
        Some(choose|i: int| is_least(n, holds, i))
    } else {
        None
    }
}

/// A number that is least is the one that `least` gives.
pub proof fn lemma_least_is(n: int, holds: spec_fn(int) -> bool, i: int)
    requires
        is_least(n, holds, i),
    ensures
        least(n, holds) == Some(i),
{
    let k = choose|k: int| is_least(n, holds, k);
    assert(is_least(n, holds, k));
    if k < i {
        assert(!holds(k));
    }
    if i < k {
        assert(!holds(i));
    }
}

/// Where nothing below `n` has the property, there is no least number.
pub proof fn lemma_least_none(n: int, holds: spec_fn(int) -> bool)
    requires
        forall|j: int| 0 <= j < n ==> !(#[trigger] holds(j)),
    ensures
        least(n, holds) is None,
{
}

/// Where a number below `n` has the property, there is a least one, no larger.
pub proof fn lemma_least_some(n: int, holds: spec_fn(int) -> bool, i: int)
    requires
        0 <= i < n,
        holds(i),
    ensures
        least(n, holds) is Some,
        is_least(n, holds, least(n, holds)->0),
        least(n, holds)->0 <= i,
    decreases i,
{
    if exists|j: int| 0 <= j < i && #[trigger] holds(j) {
        let j = choose|j: int| 0 <= j < i && #[trigger] holds(j);
        lemma_least_some(n, holds, j);
    } else {
        assert(is_least(n, holds, i));
        lemma_least_is(n, holds, i);
    }
}

/// What `least` gives, either way.
pub proof fn lemma_least(n: int, holds: spec_fn(int) -> bool)
    ensures
        match least(n, holds) {
            Some(i) => is_least(n, holds, i),
            None => forall|j: int| 0 <= j < n ==> !(#[trigger] holds(j)),
        },
{
    if exists|j: int| 0 <= j < n && #[trigger] holds(j) {
        let j = choose|j: int| 0 <= j < n && #[trigger] holds(j);
        lemma_least_some(n, holds, j);
    }
}

/// Properties that agree below `n` have the same least number.
pub proof fn lemma_least_same(n: int, f: spec_fn(int) -> bool, g: spec_fn(int) -> bool)
    requires
        forall|j: int| 0 <= j < n ==> #[trigger] f(j) == g(j),
    ensures
        least(n, f) == least(n, g),
{
    lemma_least(n, f);
    match least(n, f) {
        Some(i) => {
            assert(f(i) == g(i));
            assert forall|j: int| 0 <= j < i implies !(#[trigger] g(j)) by {
                assert(f(j) == g(j));
            }
            lemma_least_is(n, g, i);
        },
        None => {
            assert forall|j: int| 0 <= j < n implies !(#[trigger] g(j)) by {
                assert(f(j) == g(j));
            }
            lemma_least_none(n, g);
        },
    }
}

} // verus!
