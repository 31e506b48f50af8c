//! Facts about counting the elements of a sequence.
use vstd::prelude::*;

use crate::model::count;

verus! {

/// Replacing one element moves the count by what that element contributes.
pub proof fn lemma_count_update<A>(s: Seq<A>, i: int, x: A, p: spec_fn(A) -> bool)
    requires
        0 <= i < s.len(),
    ensures
        count(s.update(i, x), p) + (if p(s[i]) {
            1nat
        } else {
            0nat
        }) == count(s, p) + (if p(x) {
            1nat
        } else {
            0nat
        }),
    decreases s.len(),
{
    let t = s.update(i, x);
    if i == s.len() - 1 {
        assert(t.drop_last() =~= s.drop_last());
    } else {
        assert(t.drop_last() =~= s.drop_last().update(i, x));
        lemma_count_update(s.drop_last(), i, x, p);
    }
}

/// Sequences that agree, place by place, on whether they are counted have the
/// same count.
pub proof fn lemma_count_agrees<A, B>(
    s: Seq<A>,
    p: spec_fn(A) -> bool,
    t: Seq<B>,
    q: spec_fn(B) -> bool,
)
    requires
        s.len() == t.len(),
        forall|i: int| #![trigger s[i]] #![trigger t[i]] 0 <= i < s.len() ==> p(s[i]) == q(t[i]),
    ensures
        count(s, p) == count(t, q),
    decreases s.len(),
{
    if s.len() > 0 {
        assert forall|i: int|
            #![trigger s.drop_last()[i]]
            #![trigger t.drop_last()[i]]
            0 <= i < s.len() - 1 implies p(s.drop_last()[i]) == q(t.drop_last()[i]) by {
            assert(s.drop_last()[i] == s[i]);
            assert(t.drop_last()[i] == t[i]);
        }
        lemma_count_agrees(s.drop_last(), p, t.drop_last(), q);
        assert(p(s[s.len() - 1]) == q(t[s.len() - 1]));
    }
}

/// A count never exceeds the length.
pub proof fn lemma_count_bound<A>(s: Seq<A>, p: spec_fn(A) -> bool)
    ensures
        count(s, p) <= s.len(),
    decreases s.len(),
{
    if s.len() > 0 {
        lemma_count_bound(s.drop_last(), p);
    }
}

/// An element that satisfies `p` is counted.
pub proof fn lemma_count_witness<A>(s: Seq<A>, p: spec_fn(A) -> bool, i: int)
    requires
        0 <= i < s.len(),
        p(s[i]),
    ensures
        count(s, p) > 0,
    decreases s.len(),
{
    if i < s.len() - 1 {
        assert(s.drop_last()[i] == s[i]);
        lemma_count_witness(s.drop_last(), p, i);
    }
}

/// Where something is counted there is an element that satisfies `p`.
pub proof fn lemma_count_has_witness<A>(s: Seq<A>, p: spec_fn(A) -> bool) -> (i: int)
    requires
        count(s, p) > 0,
    ensures
        0 <= i < s.len(),
        p(s[i]),
    decreases s.len(),
{
    if p(s.last()) {
        s.len() - 1
    } else {
        let i = lemma_count_has_witness(s.drop_last(), p);
        assert(s.drop_last()[i] == s[i]);
        i
    }
}

/// A count is the number of places whose element satisfies `p`.
pub proof fn lemma_count_is_cardinality<A>(s: Seq<A>, p: spec_fn(A) -> bool, places: Set<int>)
    requires
        forall|i: int| #[trigger] places.contains(i) <==> 0 <= i < s.len() && p(s[i]),
    ensures
        places.finite(),
        count(s, p) == places.len(),
    decreases s.len(),
{
    if s.len() == 0 {
        assert(places =~= Set::empty());
    } else {
        let last = s.len() - 1;
        let rest = places.remove(last);
        assert forall|i: int| #[trigger] rest.contains(i) <==> 0 <= i < s.drop_last().len() && p(
            s.drop_last()[i],
        ) by {
            if 0 <= i < last {
                assert(s.drop_last()[i] == s[i]);
            }
            assert(places.contains(i) <==> 0 <= i < s.len() && p(s[i]));
        }
        lemma_count_is_cardinality(s.drop_last(), p, rest);
        assert(places.contains(last) <==> p(s[last]));
        if p(s[last]) {
            assert(places =~= rest.insert(last));
        } else {
            assert(places =~= rest);
        }
    }
}

/// Whether some element of `s` has value `v`.
pub open spec fn takes<A>(s: Seq<A>, value: spec_fn(A) -> Option<int>, v: int) -> bool {
    exists|i: int| 0 <= i < s.len() && #[trigger] value(s[i]) == Some(v)
}

/// A sequence that takes each of `n` values somewhere has at least `n` elements.
pub proof fn lemma_pigeonhole<A>(s: Seq<A>, value: spec_fn(A) -> Option<int>, n: nat)
    requires
        forall|v: int| 0 <= v < n ==> #[trigger] takes(s, value, v),
    ensures
        n <= s.len(),
    decreases n,
{
    if n > 0 {
        let last = n - 1;
        assert(takes(s, value, last));
        let k = choose|i: int| 0 <= i < s.len() && #[trigger] value(s[i]) == Some(last);
        let rest = s.remove(k);
        assert forall|v: int| 0 <= v < last implies #[trigger] takes(rest, value, v) by {
            assert(takes(s, value, v));
            let i = choose|i: int| 0 <= i < s.len() && #[trigger] value(s[i]) == Some(v);
            let j = if i < k { i } else { i - 1 };
            assert(rest[j] == s[i]);
        }
        lemma_pigeonhole(rest, value, last as nat);
    }
}

} // verus!
