//! Reorderings of a sequence: the shape of what a shuffle may do.

use vstd::prelude::*;

verus! {

/// `p` lists each index below `n` exactly once: it is a permutation of
/// `0 .. n`.
pub open spec fn is_index_perm(p: Seq<int>, n: int) -> bool {
    &&& p.len() == n
    &&& forall|i: int| 0 <= i < n ==> 0 <= #[trigger] p[i] < n
    &&& forall|i: int, j: int|
        0 <= i < n && 0 <= j < n && i != j ==> #[trigger] p[i] != #[trigger] p[j]
}

/// The sequence `s` rearranged by reading position `p[i]` of `s` at
/// position `i`.
pub open spec fn applied_perm<A>(p: Seq<int>, s: Seq<A>) -> Seq<A> {
    Seq::new(s.len(), |i: int| s[p[i]])
}

/// `s2` holds exactly the elements of `s1`, in some order.
pub open spec fn is_reordering_of<A>(s2: Seq<A>, s1: Seq<A>) -> bool {
    exists|p: Seq<int>|
        #[trigger] is_index_perm(p, s1.len() as int) && s2 == applied_perm(p, s1)
}

} // verus!
