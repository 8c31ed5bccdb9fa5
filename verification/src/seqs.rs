//! Views of sequences at machine-integer positions, and facts about them.
use vstd::prelude::*;

verus! {

/// The elements of `s` from position `n` on.
pub open spec fn from_position<T>(s: Seq<T>, n: usize) -> Seq<T> {
    s.skip(n as int)
}

/// The element of `s` at position `n`.
pub open spec fn at_position<T>(s: Seq<T>, n: usize) -> T {
    s[n as int]
}

/// The element of `s` at position `n`.
pub open spec fn at_index<T>(s: Seq<T>, n: nat) -> T {
    s[n as int]
}

/// Filtering a sequence that grew by one element: the element is kept after
/// the earlier ones exactly when it passes the filter.
pub(crate) proof fn lemma_filter_push<A>(s: Seq<A>, x: A, p: spec_fn(A) -> bool)
    ensures
        s.push(x).filter(p) == (if p(x) {
            s.filter(p).push(x)
        } else {
            s.filter(p)
        }),
{
    reveal_with_fuel(Seq::filter, 1);
    assert(s.push(x).drop_last() == s);
}

/// Mapping a sequence that grew by one element.
pub(crate) proof fn lemma_map_values_push<A, B>(s: Seq<A>, x: A, f: spec_fn(A) -> B)
    ensures
        s.push(x).map_values(f) == s.map_values(f).push(f(x)),
{
    assert(s.push(x).map_values(f) =~= s.map_values(f).push(f(x)));
}

} // verus!
