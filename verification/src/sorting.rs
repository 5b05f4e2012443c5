//! Stable ordering of sequences by a strict order: the definition used by the
//! process ranking, and the facts that make it a sort (it permutes its input and
//! leaves no neighbouring pair out of order).

use vstd::prelude::*;

verus! {

/// `x` placed into `s` just before the first element that `x` ranks strictly before,
/// that is after every element it does not rank before.
pub open spec fn insert_ordered<T>(s: Seq<T>, x: T, before: spec_fn(T, T) -> bool) -> Seq<T>
    decreases s.len(),
{
    if s.len() == 0 {
        seq![x]
    } else if before(x, s[0]) {
        seq![x] + s
    } else {
        seq![s[0]] + insert_ordered(s.drop_first(), x, before)
    }
}

/// `s` stably sorted by the strict order `before`: each element, in input order, is
/// placed after every element already placed that it does not rank before.
pub open spec fn sort_ordered<T>(s: Seq<T>, before: spec_fn(T, T) -> bool) -> Seq<T>
    decreases s.len(),
{
    if s.len() == 0 {
        s
    } else {
        insert_ordered(sort_ordered(s.drop_last(), before), s.last(), before)
    }
}

/// Where `insert_ordered` puts `x`: the first position whose element `x` ranks before.
pub open spec fn insert_position<T>(s: Seq<T>, x: T, before: spec_fn(T, T) -> bool) -> int
    decreases s.len(),
{
    if s.len() == 0 {
        0
    } else if before(x, s[0]) {
        0
    } else {
        1 + insert_position(s.drop_first(), x, before)
    }
}

/// No element ranks strictly before the one just ahead of it.
pub open spec fn is_ordered<T>(s: Seq<T>, before: spec_fn(T, T) -> bool) -> bool {
    forall|i: int| 0 <= i < s.len() - 1 ==> !before(#[trigger] s[i + 1], s[i])
}

/// `before` never holds both ways.
pub open spec fn asymmetric<T>(before: spec_fn(T, T) -> bool) -> bool {
    forall|a: T, b: T| #[trigger] before(a, b) ==> !before(b, a)
}

pub proof fn lemma_insert_position<T>(s: Seq<T>, x: T, before: spec_fn(T, T) -> bool)
    ensures
        0 <= insert_position(s, x, before) <= s.len(),
        insert_ordered(s, x, before) == s.insert(insert_position(s, x, before), x),
        forall|j: int| 0 <= j < insert_position(s, x, before) ==> !before(x, #[trigger] s[j]),
        insert_position(s, x, before) < s.len() ==> before(x, s[insert_position(s, x, before)]),
    decreases s.len(),
{
    if s.len() == 0 {
        assert(s.insert(0, x) =~= seq![x]);
    } else if before(x, s[0]) {
        assert(s.insert(0, x) =~= seq![x] + s);
    } else {
        let t = s.drop_first();
        lemma_insert_position(t, x, before);
        let k = insert_position(t, x, before);
        assert(s.insert(k + 1, x) =~= seq![s[0]] + t.insert(k, x));
        assert forall|j: int| 0 <= j < k + 1 implies !before(x, #[trigger] s[j]) by {
            if j > 0 {
                assert(s[j] == t[j - 1]);
            }
        }
        if k < t.len() {
            assert(s[k + 1] == t[k]);
        }
    }
}

/// Sorting rearranges: the result holds exactly the input's elements.
pub proof fn lemma_sort_ordered_permutes<T>(s: Seq<T>, before: spec_fn(T, T) -> bool)
    ensures
        sort_ordered(s, before).len() == s.len(),
        sort_ordered(s, before).to_multiset() =~= s.to_multiset(),
    decreases s.len(),
{
    broadcast use vstd::seq_lib::to_multiset_insert, vstd::seq_lib::to_multiset_build;

    if s.len() > 0 {
        let p = sort_ordered(s.drop_last(), before);
        lemma_sort_ordered_permutes(s.drop_last(), before);
        lemma_insert_position(p, s.last(), before);
        assert(s =~= s.drop_last().push(s.last()));
    }
}

/// Inserting into an ordered sequence keeps it ordered.
pub proof fn lemma_insert_ordered_keeps_order<T>(s: Seq<T>, x: T, before: spec_fn(T, T) -> bool)
    requires
        asymmetric(before),
        is_ordered(s, before),
    ensures
        is_ordered(insert_ordered(s, x, before), before),
{
    lemma_insert_position(s, x, before);
    let k = insert_position(s, x, before);
    let r = insert_ordered(s, x, before);
    assert forall|i: int| 0 <= i < r.len() - 1 implies !before(#[trigger] r[i + 1], r[i]) by {
        if i + 1 < k {
            assert(r[i] == s[i] && r[i + 1] == s[i + 1]);
        } else if i + 1 == k {
            assert(r[i] == s[i] && r[i + 1] == x);
        } else if i == k {
            assert(r[i] == x && r[i + 1] == s[k]);
            assert(before(x, s[k]));
        } else {
            let j = i - 1;
            assert(r[i] == s[j] && r[i + 1] == s[j + 1]);
        }
    }
}

/// Sorting by an asymmetric order leaves no neighbouring pair out of order.
pub proof fn lemma_sort_ordered_is_ordered<T>(s: Seq<T>, before: spec_fn(T, T) -> bool)
    requires
        asymmetric(before),
    ensures
        is_ordered(sort_ordered(s, before), before),
    decreases s.len(),
{
    if s.len() > 0 {
        lemma_sort_ordered_is_ordered(s.drop_last(), before);
        lemma_insert_ordered_keeps_order(sort_ordered(s.drop_last(), before), s.last(), before);
    }
}

} // verus!
