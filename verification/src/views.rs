//! Non-owning views into a vector: a reversed read-view, a
//! split-halves read-view, and an index-based exclusive write-view.

use vstd::prelude::*;

verus! {

/// Returns a read-view of `v`: a vector of references to `v`'s
/// elements in reverse positional order, with no ownership transfer.
pub fn flip<T>(v: &Vec<T>) -> (r: Vec<&T>)
    ensures
        r@.len() == v@.len(),
        forall|k: int| 0 <= k < v@.len() ==> r@[k] == v@[v@.len() - 1 - k],
{
    let mut rv: Vec<&T> = Vec::new();
    let mut i: usize = v.len();
    while i > 0
        invariant
            i <= v@.len(),
            rv@.len() == v@.len() - i,
            forall|k: int| 0 <= k < rv@.len() ==> rv@[k] == v@[v@.len() - 1 - k],
        decreases i,
    {
        rv.push(&v[i - 1]);
        i -= 1;
    }
    rv
}

/// The input position whose element appears at output position `i` of
/// the split-halves view of a sequence of length `n`: the first half
/// reversed, then (for odd `n`) the middle element in place, then the
/// second half reversed.
pub open spec fn flap_src(n: int, i: int) -> int
    recommends
        0 <= i < n,
{
    let h = n / 2;
    if i < h {
        h - 1 - i
    } else if n % 2 == 1 && i == h {
        h
    } else {
        n - 1 - i + h + n % 2
    }
}

/// Returns a read-view of `v` whose first half is `v`'s first half
/// reversed and whose last half is `v`'s second half reversed; for an
/// odd length the middle element stays in place.
pub fn flap<T>(v: &Vec<T>) -> (r: Vec<&T>)
    ensures
        r@.len() == v@.len(),
        forall|k: int| 0 <= k < v@.len() ==> r@[k] == v@[flap_src(v@.len() as int, k)],
{
    let n = v.len();
    let h = n / 2;
    let mut rv: Vec<&T> = Vec::new();
    let mut i: usize = h;
    while i > 0
        invariant
            n == v@.len(),
            h == n as int / 2,
            i <= h,
            rv@.len() == h - i,
            forall|k: int| 0 <= k < rv@.len() ==> rv@[k] == v@[flap_src(n as int, k)],
        decreases i,
    {
        rv.push(&v[i - 1]);
        i -= 1;
    }
    if n % 2 == 1 {
        rv.push(&v[h]);
    }
    let mut j: usize = n;
    while j > h + n % 2
        invariant
            n == v@.len(),
            h == n as int / 2,
            h + n % 2 <= j <= n,
            rv@.len() == h + n % 2 + (n - j),
            forall|k: int| 0 <= k < rv@.len() ==> rv@[k] == v@[flap_src(n as int, k)],
        decreases j,
    {
        rv.push(&v[j - 1]);
        j -= 1;
    }
    rv
}

/// A write-view in index form: position `i` of the view stands for
/// position `n - 1 - i` of the vector it was taken from, so the view
/// lists the vector's positions in reverse order.
pub open spec fn is_reverse_view(view: Seq<usize>, n: nat) -> bool {
    &&& view.len() == n
    &&& forall|k: int| 0 <= k < n ==> view[k] as int == n - 1 - k
}

/// Returns an exclusive write-view of `v` in index form, listing `v`'s
/// positions in reverse order; every later write goes back through the
/// single owning vector, so no two handles to an element can coexist.
pub fn mutflip<T>(v: &mut Vec<T>) -> (r: Vec<usize>)
    ensures
        final(v)@ == old(v)@,
        is_reverse_view(r@, old(v)@.len()),
{
    let mut rv: Vec<usize> = Vec::new();
    let mut i: usize = v.len();
    while i > 0
        invariant
            i <= v@.len(),
            rv@.len() == v@.len() - i,
            forall|k: int| 0 <= k < rv@.len() ==> rv@[k] as int == v@.len() - 1 - k,
        decreases i,
    {
        rv.push(i - 1);
        i -= 1;
    }
    rv
}

/// Writes `x` through position `i` of the write-view `view`: the
/// element of `v` that the view's `i`-th entry stands for is
/// overwritten in place, and no other element moves. For a reverse
/// view this mutates `v` at position `len - 1 - i`.
pub fn write_view<T>(v: &mut Vec<T>, view: &Vec<usize>, i: usize, x: T)
    requires
        i < view@.len(),
        view@[i as int] < old(v)@.len(),
    ensures
        final(v)@ == old(v)@.update(view@[i as int] as int, x),
        is_reverse_view(view@, old(v)@.len()) ==> final(v)@ == old(v)@.update(
            old(v)@.len() - 1 - i,
            x,
        ),
{
    let p = view[i];
    v.set(p, x);
}

} // verus!
