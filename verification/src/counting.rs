//! Counting the positions of a sequence that have a property.
use vstd::prelude::*;

verus! {

/// The positions of `s` at which `p` holds of the position and the entry.
pub open spec fn positions<A>(s: Seq<A>, p: spec_fn(int, A) -> bool) -> Set<int> {
    Set::new(|i: int| 0 <= i < s.len() && p(i, s[i]))
}

/// The positions with a property are those before the last, and the last one if it
/// has the property.
pub proof fn positions_step<A>(s: Seq<A>, p: spec_fn(int, A) -> bool)
    ensures
        positions(s, p).finite(),
        s.len() == 0 ==> positions(s, p).len() == 0,
        s.len() > 0 ==> positions(s, p).len() == positions(s.drop_last(), p).len() + if p(
            s.len() - 1,
            s.last(),
        ) {
            1nat
        } else {
            0nat
        },
    decreases s.len(),
{
    if s.len() == 0 {
        assert(positions(s, p) =~= Set::<int>::empty());
    } else {
        let init = s.drop_last();
        let last = s.len() - 1;
        positions_step(init, p);
        if p(last, s.last()) {
            assert(positions(s, p) =~= positions(init, p).insert(last));
        } else {
            assert(positions(s, p) =~= positions(init, p));
        }
    }
}

} // verus!
