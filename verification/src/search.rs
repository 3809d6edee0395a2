//! The first element of a sequence that meets a condition.
use vstd::prelude::*;

verus! {

/// Index of the first element of `s` that meets `p`, or `-1` when none does.
pub open spec fn first_where<A>(s: Seq<A>, p: spec_fn(A) -> bool) -> int
    decreases s.len(),
{
    if s.len() == 0 {
        -1
    } else {
        let j = first_where(s.drop_last(), p);
        if j >= 0 {
            j
        } else if p(s.last()) {
            s.len() - 1
        } else {
            -1
        }
    }
}

/// The first element that meets `p` is at `first_where(s, p)`; none does
/// when it is `-1`.
pub proof fn lemma_first_where<A>(s: Seq<A>, p: spec_fn(A) -> bool)
    ensures
        -1 <= first_where(s, p) < s.len(),
        first_where(s, p) == -1 ==> forall|i: int| 0 <= i < s.len() ==> !p(#[trigger] s[i]),
        first_where(s, p) >= 0 ==> p(s[first_where(s, p)]) && forall|i: int|
            0 <= i < first_where(s, p) ==> !p(#[trigger] s[i]),
    decreases s.len(),
{
    if s.len() > 0 {
        let q = s.drop_last();
        lemma_first_where(q, p);
        assert(s.last() == s[s.len() - 1]);
        assert forall|i: int| #![trigger q[i]] #![trigger s[i]] 0 <= i < q.len() implies q[i]
            == s[i] by {}
    }
}

} // verus!
