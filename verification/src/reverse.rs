//! Reversal of a vector, by copying and by draining.

use vstd::prelude::*;

verus! {

/// Returns a new vector holding `v`'s elements in reverse order,
/// leaving `v` unchanged; the element type must be copyable.
pub fn rev_copy<T: Copy>(v: &Vec<T>) -> (r: Vec<T>)
    ensures
        r@ == v@.reverse(),
{
    let mut rev: Vec<T> = Vec::new();
    let mut i: usize = v.len();
    while i > 0
        invariant
            i <= v@.len(),
            rev@.len() == v@.len() - i,
            forall|k: int| 0 <= k < rev@.len() ==> rev@[k] == v@[v@.len() - 1 - k],
        decreases i,
    {
        rev.push(v[i - 1]);
        i -= 1;
    }
    proof {
        assert(rev@ =~= v@.reverse());
    }
    rev
}

/// Returns a new vector holding `v`'s elements in reverse order,
/// transferring ownership of every element out of `v`, which is left
/// empty; the element type need not be copyable.
pub fn rev1<T>(v: &mut Vec<T>) -> (r: Vec<T>)
    ensures
        final(v)@.len() == 0,
        r@ == old(v)@.reverse(),
{
    let mut rv: Vec<T> = Vec::new();
    while v.len() > 0
        invariant
            v@ == old(v)@.subrange(0, v@.len() as int),
            rv@.len() + v@.len() == old(v)@.len(),
            forall|k: int|
                0 <= k < rv@.len() ==> rv@[k] == old(v)@[old(v)@.len() - 1 - k],
        decreases v@.len(),
    {
        proof {
            assert(v@[v@.len() - 1] == old(v)@[v@.len() - 1]);
        }
        let x = v.pop().unwrap();
        rv.push(x);
    }
    proof {
        assert(rv@ =~= old(v)@.reverse());
    }
    rv
}

/// Reversing a sequence twice gives back the original sequence, so a
/// second `rev_copy` applied to the result of a first one returns the
/// input vector's contents unchanged.
pub proof fn lemma_reverse_involution<T>(s: Seq<T>)
    ensures
        s.reverse().reverse() == s,
{
    assert(s.reverse().reverse() =~= s);
}

} // verus!
