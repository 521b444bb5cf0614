//! Order-preserving intersection and union of two vectors, by
//! equality comparison alone: no copying, no hashing, no ordering of
//! the element type is assumed.

use vstd::prelude::*;
use vstd::std_specs::cmp::PartialEqSpec;

verus! {

/// Whether some position of `s` holds a value equal to `x`, under the
/// element type's own equality.
pub open spec fn contains_eq<T: PartialEq>(s: Seq<T>, x: T) -> bool {
    exists|j: int| 0 <= j < s.len() && s[j].eq_spec(&x)
}

/// How many positions of `s` hold a value equal to `x`, under the
/// element type's own equality.
pub open spec fn count_eq<T: PartialEq>(s: Seq<T>, x: T) -> nat
    decreases s.len(),
{
    if s.len() == 0 {
        0
    } else {
        count_eq(s.drop_last(), x) + (if s.last().eq_spec(&x) {
            1nat
        } else {
            0nat
        })
    }
}

/// The count of equal values is positive exactly when some position
/// holds an equal value.
pub proof fn lemma_count_eq_contains<T: PartialEq>(s: Seq<T>, x: T)
    ensures
        count_eq(s, x) > 0 <==> contains_eq(s, x),
    decreases s.len(),
{
    if s.len() > 0 {
        lemma_count_eq_contains(s.drop_last(), x);
        if s.last().eq_spec(&x) {
            assert(contains_eq(s, x));
        } else if contains_eq(s.drop_last(), x) {
            let j = choose|j: int| 0 <= j < s.len() - 1 && s.drop_last()[j].eq_spec(&x);
            assert(s[j].eq_spec(&x));
        } else if contains_eq(s, x) {
            let j = choose|j: int| 0 <= j < s.len() && s[j].eq_spec(&x);
            assert(s.drop_last()[j].eq_spec(&x));
        }
    }
}

/// Counts how many positions among the first `end` positions of `v`
/// hold a value equal to `*x`.
pub fn count_up_to<T: Eq>(v: &Vec<T>, end: usize, x: &T) -> (r: usize)
    requires
        T::obeys_eq_spec(),
        end <= v@.len(),
    ensures
        r == count_eq(v@.subrange(0, end as int), *x),
{
    let mut c: usize = 0;
    let mut j: usize = 0;
    while j < end
        invariant
            T::obeys_eq_spec(),
            j <= end <= v@.len(),
            c == count_eq(v@.subrange(0, j as int), *x),
            c <= j,
        decreases end - j,
    {
        proof {
            assert(v@.subrange(0, j + 1).drop_last() =~= v@.subrange(0, j as int));
            assert(v@.subrange(0, j + 1).last() == v@[j as int]);
        }
        if v[j] == *x {
            c += 1;
        }
        j += 1;
    }
    c
}

/// Counts how many positions of `v` hold a value equal to `*x`: the
/// de-duplication primitive for `union`.
pub fn count_occurrences<T: Eq>(v: &Vec<T>, x: &T) -> (r: usize)
    requires
        T::obeys_eq_spec(),
    ensures
        r == count_eq(v@, *x),
{
    proof {
        assert(v@.subrange(0, v@.len() as int) =~= v@);
    }
    count_up_to(v, v.len(), x)
}

/// The values of a sequence of references, in the same order.
pub open spec fn deref_vals<T>(s: Seq<&T>) -> Seq<T> {
    s.map_values(|x: &T| *x)
}

/// The subsequence of `s1` whose values appear somewhere in `s2`;
/// duplicates in `s1` are kept, and each kept element appears once,
/// whatever the number of equal values in `s2`.
pub open spec fn inter_spec<T: PartialEq>(s1: Seq<T>, s2: Seq<T>) -> Seq<T>
    decreases s1.len(),
{
    if s1.len() == 0 {
        Seq::empty()
    } else {
        inter_spec(s1.drop_last(), s2) + (if contains_eq(s2, s1.last()) {
            seq![s1.last()]
        } else {
            Seq::empty()
        })
    }
}

/// Returns references into `v1`, in `v1`'s order, to every element of
/// `v1` whose value also appears in `v2`; duplicates in `v1` are kept.
pub fn intersection<'t, 'u, T: Eq>(v1: &'t Vec<T>, v2: &'u Vec<T>) -> (r: Vec<&'t T>)
    requires
        T::obeys_eq_spec(),
    ensures
        deref_vals(r@) == inter_spec(v1@, v2@),
{
    let mut iv: Vec<&T> = Vec::new();
    let mut x: usize = 0;
    while x < v1.len()
        invariant
            T::obeys_eq_spec(),
            x <= v1@.len(),
            deref_vals(iv@) == inter_spec(v1@.subrange(0, x as int), v2@),
        decreases v1@.len() - x,
    {
        proof {
            assert(v1@.subrange(0, x + 1).drop_last() =~= v1@.subrange(0, x as int));
            assert(v1@.subrange(0, x + 1).last() == v1@[x as int]);
        }
        let c = count_occurrences(v2, &v1[x]);
        proof {
            lemma_count_eq_contains(v2@, v1@[x as int]);
        }
        if c > 0 {
            iv.push(&v1[x]);
        }
        proof {
            assert(deref_vals(iv@) =~= inter_spec(v1@.subrange(0, x + 1), v2@));
        }
        x += 1;
    }
    proof {
        assert(v1@.subrange(0, v1@.len() as int) =~= v1@);
    }
    iv
}

/// The subsequence of `s` that keeps, for each distinct value, only
/// its first occurrence.
pub open spec fn dedup_first<T: PartialEq>(s: Seq<T>) -> Seq<T>
    decreases s.len(),
{
    if s.len() == 0 {
        Seq::empty()
    } else {
        dedup_first(s.drop_last()) + (if contains_eq(s.drop_last(), s.last()) {
            Seq::empty()
        } else {
            seq![s.last()]
        })
    }
}

/// The subsequence of `s2` that keeps, for each distinct value absent
/// from `s1`, only its first occurrence in `s2`.
pub open spec fn union_rest<T: PartialEq>(s1: Seq<T>, s2: Seq<T>) -> Seq<T>
    decreases s2.len(),
{
    if s2.len() == 0 {
        Seq::empty()
    } else {
        union_rest(s1, s2.drop_last()) + (if contains_eq(s1, s2.last()) || contains_eq(
            s2.drop_last(),
            s2.last(),
        ) {
            Seq::empty()
        } else {
            seq![s2.last()]
        })
    }
}

/// The union of two sequences: every distinct value of either, kept
/// at its first occurrence, all of `s1`'s contributions before `s2`'s.
pub open spec fn union_spec<T: PartialEq>(s1: Seq<T>, s2: Seq<T>) -> Seq<T> {
    dedup_first(s1) + union_rest(s1, s2)
}

/// No two positions of disjoint sequences hold equal values, in
/// either orientation of the element type's equality.
pub open spec fn disjoint_eq<T: PartialEq>(s1: Seq<T>, s2: Seq<T>) -> bool {
    &&& forall|i: int, j: int|
        0 <= i < s1.len() && 0 <= j < s2.len() ==> !(#[trigger] s1[i].eq_spec(&s2[j]))
    &&& forall|i: int, j: int|
        0 <= i < s1.len() && 0 <= j < s2.len() ==> !(#[trigger] s2[j].eq_spec(&s1[i]))
}

proof fn lemma_inter_disjoint_empty<T: PartialEq>(s1: Seq<T>, s2: Seq<T>)
    requires
        disjoint_eq(s1, s2),
    ensures
        inter_spec(s1, s2) == Seq::<T>::empty(),
    decreases s1.len(),
{
    if s1.len() > 0 {
        let sub = s1.drop_last();
        assert forall|i: int, j: int|
            0 <= i < sub.len() && 0 <= j < s2.len() implies !(#[trigger] sub[i].eq_spec(
            &s2[j],
        )) by {
            assert(sub[i] == s1[i]);
        }
        assert forall|i: int, j: int|
            0 <= i < sub.len() && 0 <= j < s2.len() implies !(#[trigger] s2[j].eq_spec(
            &sub[i],
        )) by {
            assert(sub[i] == s1[i]);
        }
        lemma_inter_disjoint_empty(sub, s2);
        assert(!contains_eq(s2, s1.last())) by {
            if contains_eq(s2, s1.last()) {
                let j = choose|j: int| 0 <= j < s2.len() && s2[j].eq_spec(&s1.last());
                assert(s2[j].eq_spec(&s1[s1.len() - 1]));
            }
        }
        assert(inter_spec(s1, s2) =~= Seq::<T>::empty());
    }
}

proof fn lemma_union_rest_disjoint<T: PartialEq>(s1: Seq<T>, s2: Seq<T>)
    requires
        disjoint_eq(s1, s2),
    ensures
        union_rest(s1, s2) == dedup_first(s2),
    decreases s2.len(),
{
    if s2.len() > 0 {
        let sub = s2.drop_last();
        assert forall|i: int, j: int|
            0 <= i < s1.len() && 0 <= j < sub.len() implies !(#[trigger] s1[i].eq_spec(
            &sub[j],
        )) by {
            assert(sub[j] == s2[j]);
        }
        assert forall|i: int, j: int|
            0 <= i < s1.len() && 0 <= j < sub.len() implies !(#[trigger] sub[j].eq_spec(
            &s1[i],
        )) by {
            assert(sub[j] == s2[j]);
        }
        lemma_union_rest_disjoint(s1, sub);
        assert(!contains_eq(s1, s2.last())) by {
            if contains_eq(s1, s2.last()) {
                let i = choose|i: int| 0 <= i < s1.len() && s1[i].eq_spec(&s2.last());
                assert(s1[i].eq_spec(&s2[s2.len() - 1]));
            }
        }
    }
}

/// For disjoint inputs, the intersection holds nothing, and the union
/// is the concatenation of the two inputs, each reduced to the first
/// occurrence of each of its distinct values.
pub proof fn lemma_disjoint_inter_union<T: PartialEq>(s1: Seq<T>, s2: Seq<T>)
    requires
        disjoint_eq(s1, s2),
    ensures
        inter_spec(s1, s2) == Seq::<T>::empty(),
        union_spec(s1, s2) == dedup_first(s1) + dedup_first(s2),
{
    lemma_inter_disjoint_empty(s1, s2);
    lemma_union_rest_disjoint(s1, s2);
}

/// Returns one reference per distinct value appearing in `v1` or `v2`:
/// first the first occurrences from `v1` in `v1`'s order, then the
/// first occurrences from `v2` of values absent from `v1`, in `v2`'s
/// order. No value is duplicated, nothing is copied.
pub fn union<'a, T: Eq>(v1: &'a Vec<T>, v2: &'a Vec<T>) -> (r: Vec<&'a T>)
    requires
        T::obeys_eq_spec(),
    ensures
        deref_vals(r@) == union_spec(v1@, v2@),
{
    let mut uv: Vec<&T> = Vec::new();
    let mut x: usize = 0;
    while x < v1.len()
        invariant
            T::obeys_eq_spec(),
            x <= v1@.len(),
            deref_vals(uv@) == dedup_first(v1@.subrange(0, x as int)),
        decreases v1@.len() - x,
    {
        proof {
            assert(v1@.subrange(0, x + 1).drop_last() =~= v1@.subrange(0, x as int));
            assert(v1@.subrange(0, x + 1).last() == v1@[x as int]);
        }
        let seen = count_up_to(v1, x, &v1[x]);
        proof {
            lemma_count_eq_contains(v1@.subrange(0, x as int), v1@[x as int]);
        }
        if seen == 0 {
            uv.push(&v1[x]);
        }
        proof {
            assert(deref_vals(uv@) =~= dedup_first(v1@.subrange(0, x + 1)));
        }
        x += 1;
    }
    proof {
        assert(v1@.subrange(0, v1@.len() as int) =~= v1@);
    }
    let mut y: usize = 0;
    while y < v2.len()
        invariant
            T::obeys_eq_spec(),
            y <= v2@.len(),
            deref_vals(uv@) == dedup_first(v1@) + union_rest(v1@, v2@.subrange(0, y as int)),
        decreases v2@.len() - y,
    {
        proof {
            assert(v2@.subrange(0, y + 1).drop_last() =~= v2@.subrange(0, y as int));
            assert(v2@.subrange(0, y + 1).last() == v2@[y as int]);
        }
        let in_v1 = count_occurrences(v1, &v2[y]);
        let seen = count_up_to(v2, y, &v2[y]);
        proof {
            lemma_count_eq_contains(v1@, v2@[y as int]);
            lemma_count_eq_contains(v2@.subrange(0, y as int), v2@[y as int]);
        }
        if in_v1 == 0 && seen == 0 {
            let ghost prev = uv@;
            uv.push(&v2[y]);
            proof {
                assert(!contains_eq(v1@, v2@[y as int]));
                assert(!contains_eq(v2@.subrange(0, y as int), v2@[y as int]));
                assert(union_rest(v1@, v2@.subrange(0, y + 1)) == union_rest(
                    v1@,
                    v2@.subrange(0, y as int),
                ) + seq![v2@[y as int]]);
                assert(deref_vals(uv@) =~= deref_vals(prev).push(v2@[y as int]));
                assert(deref_vals(prev).push(v2@[y as int]) =~= dedup_first(v1@)
                    + union_rest(v1@, v2@.subrange(0, y + 1)));
            }
        } else {
            proof {
                assert(deref_vals(uv@) =~= dedup_first(v1@) + union_rest(
                    v1@,
                    v2@.subrange(0, y + 1),
                ));
            }
        }
        y += 1;
    }
    proof {
        assert(v2@.subrange(0, v2@.len() as int) =~= v2@);
    }
    uv
}

} // verus!
