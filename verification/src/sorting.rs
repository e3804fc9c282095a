//! Values in ascending order, and the middle one.

use vstd::prelude::*;

verus! {

/// `s`, which is ascending, with `x` put behind the values that are no
/// greater.
pub open spec fn inserted(s: Seq<u64>, x: u64) -> Seq<u64>
    decreases s.len(),
{
    if s.len() == 0 || s.last() <= x {
        s.push(x)
    } else {
        inserted(s.drop_last(), x).push(s.last())
    }
}

/// The values of `s` in ascending order.
pub open spec fn ascending(s: Seq<u64>) -> Seq<u64>
    decreases s.len(),
{
    if s.len() == 0 {
        s
    } else {
        inserted(ascending(s.drop_last()), s.last())
    }
}

/// The upper middle value of `s`.
pub open spec fn median(s: Seq<u64>) -> u64 {
    ascending(s)[(s.len() / 2) as int]
}

/// No value is greater than one behind it.
pub open spec fn is_ascending(s: Seq<u64>) -> bool {
    forall|i: int, j: int| 0 <= i <= j < s.len() ==> s[i] <= s[j]
}

proof fn lemma_inserted(s: Seq<u64>, x: u64)
    requires
        is_ascending(s),
    ensures
        is_ascending(inserted(s, x)),
        inserted(s, x).len() == s.len() + 1,
        inserted(s, x).last() == x || s.len() > 0 && inserted(s, x).last() == s.last(),
        inserted(s, x).to_multiset() == s.to_multiset().insert(x),
    decreases s.len(),
{
    broadcast use vstd::seq_lib::group_to_multiset_ensures;

    if s.len() > 0 && s.last() > x {
        let front = s.drop_last();
        lemma_inserted(front, x);
        assert(s =~= front.push(s.last()));
        assert(s.to_multiset() == front.to_multiset().insert(s.last()));
        assert(front.to_multiset().insert(x).insert(s.last()) =~= front.to_multiset().insert(
            s.last(),
        ).insert(x));
    }
}

/// `ascending` rearranges: its result is ascending and holds the same values,
/// each as often.
pub proof fn law_ascending_rearranges(s: Seq<u64>)
    ensures
        is_ascending(ascending(s)),
        ascending(s).len() == s.len(),
        ascending(s).to_multiset() == s.to_multiset(),
    decreases s.len(),
{
    broadcast use vstd::seq_lib::group_to_multiset_ensures;

    if s.len() > 0 {
        law_ascending_rearranges(s.drop_last());
        lemma_inserted(ascending(s.drop_last()), s.last());
        assert(s =~= s.drop_last().push(s.last()));
    }
}

/// The median of a sequence that is not empty is one of its values.
pub proof fn law_median_is_a_value(s: Seq<u64>)
    requires
        s.len() > 0,
    ensures
        s.contains(median(s)),
{
    broadcast use vstd::seq_lib::group_to_multiset_ensures;

    law_ascending_rearranges(s);
    assert(ascending(s).contains(median(s)));
    assert(ascending(s).to_multiset().contains(median(s)));
}

proof fn lemma_inserted_at(s: Seq<u64>, x: u64, at: int)
    requires
        0 <= at <= s.len(),
        at > 0 ==> s[at - 1] <= x,
        forall|j: int| at <= j < s.len() ==> s[j] > x,
    ensures
        inserted(s, x) == s.insert(at, x),
    decreases s.len(),
{
    if at == s.len() {
        assert(s.insert(at, x) =~= s.push(x));
    } else {
        lemma_inserted_at(s.drop_last(), x, at);
        assert(s.drop_last().insert(at, x).push(s.last()) =~= s.insert(at, x));
    }
}

/// The values of `v` in ascending order.
pub fn sorted(v: &Vec<u64>) -> (r: Vec<u64>)
    ensures
        r@ == ascending(v@),
        r@.len() == v@.len(),
{
    let mut r: Vec<u64> = Vec::new();
    let mut i: usize = 0;
    assert(v@.take(0) =~= Seq::<u64>::empty());
    while i < v.len()
        invariant
            i <= v@.len(),
            r@ == ascending(v@.take(i as int)),
            r@.len() == i,
        decreases v.len() - i,
    {
        let x = v[i];
        let mut at: usize = r.len();
        while at > 0 && r[at - 1] > x
            invariant
                at <= r@.len(),
                forall|j: int| at <= j < r@.len() ==> r@[j] > x,
            decreases at,
        {
            at -= 1;
        }
        proof {
            lemma_inserted_at(r@, x, at as int);
            assert(v@.take(i as int + 1).drop_last() =~= v@.take(i as int));
        }
        r.insert(at, x);
        i += 1;
    }
    assert(v@.take(v@.len() as int) =~= v@);
    r
}

/// The median is the value in the middle of any ascending order of the values,
/// the upper one of the two where their number is even.
pub proof fn law_median_is_in_the_middle(s: Seq<u64>, order: Seq<u64>)
    requires
        s.len() > 0,
        forall|i: int, j: int| 0 <= i <= j < order.len() ==> order[i] <= order[j],
        order.to_multiset() == s.to_multiset(),
    ensures
        order.len() == s.len(),
        ascending(s) == order,
        median(s) == order[s.len() as int / 2],
{
    broadcast use vstd::seq_lib::group_to_multiset_ensures;

    law_ascending_rearranges(s);
    let leq = |a: u64, b: u64| a <= b;
    assert(vstd::relations::sorted_by(ascending(s), leq));
    assert(vstd::relations::sorted_by(order, leq));
    vstd::seq_lib::lemma_sorted_unique(ascending(s), order, leq);
    assert(order.to_multiset().len() == order.len());
}

} // verus!
