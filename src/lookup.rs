//! Positional lookup in sequences: the first position that holds a value.
use vstd::prelude::*;

verus! {

/// Whether `i` is the first position of `s` that holds `x`.
pub open spec fn is_first_index<A>(s: Seq<A>, x: A, i: int) -> bool {
    0 <= i < s.len() && s[i] == x && forall|j: int| 0 <= j < i ==> #[trigger] s[j] != x
}

/// The first position of `s` that holds `x`, or -1 when there is none.
pub open spec fn first_index<A>(s: Seq<A>, x: A) -> int {
    if exists|i: int| is_first_index(s, x, i) {
        choose|i: int| is_first_index(s, x, i)
    } else {
        -1
    }
}

/// A first position is unique.
pub proof fn lemma_first_index_is<A>(s: Seq<A>, x: A, i: int)
    requires
        is_first_index(s, x, i),
    ensures
        first_index(s, x) == i,
{
    let w = choose|w: int| is_first_index(s, x, w);
    assert(is_first_index(s, x, w));
    if w < i {
        assert(s[w] != x);
    } else if w > i {
        assert(s[i] != x);
    }
}

/// Where no position holds `x`, there is no first one.
pub proof fn lemma_first_index_none<A>(s: Seq<A>, x: A)
    requires
        forall|j: int| 0 <= j < s.len() ==> #[trigger] s[j] != x,
    ensures
        first_index(s, x) == -1,
{
    if exists|i: int| is_first_index(s, x, i) {
        let w = choose|w: int| is_first_index(s, x, w);
        assert(s[w] == x);
    }
}

/// The first position, when there is one, holds `x`; there is none exactly when `s` lacks `x`.
pub proof fn lemma_first_index_facts<A>(s: Seq<A>, x: A)
    ensures
        first_index(s, x) == -1 || is_first_index(s, x, first_index(s, x)),
        first_index(s, x) == -1 <==> !s.contains(x),
{
    if exists|i: int| is_first_index(s, x, i) {
        let w = choose|w: int| is_first_index(s, x, w);
        assert(is_first_index(s, x, w));
    } else {
        if s.contains(x) {
            let j = choose|j: int| 0 <= j < s.len() && s[j] == x;
            lemma_least_index(s, x, j);
        }
    }
}

proof fn lemma_least_index<A>(s: Seq<A>, x: A, j: int)
    requires
        0 <= j < s.len(),
        s[j] == x,
    ensures
        exists|i: int| is_first_index(s, x, i),
    decreases j,
{
    if forall|k: int| 0 <= k < j ==> #[trigger] s[k] != x {
        assert(is_first_index(s, x, j));
    } else {
        let k = choose|k: int| 0 <= k < j && #[trigger] s[k] == x;
        lemma_least_index(s, x, k);
    }
}

} // verus!
