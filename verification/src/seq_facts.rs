//! Facts about `Seq::filter` and `Seq::map_values` that the store's
//! operations lean on.

use vstd::prelude::*;

verus! {

/// Filtering after a push keeps the filtered prefix and appends the new
/// element exactly when it satisfies the predicate.
pub proof fn lemma_filter_push<A>(s: Seq<A>, pred: spec_fn(A) -> bool, x: A)
    ensures
        pred(x) ==> s.push(x).filter(pred) == s.filter(pred).push(x),
        !pred(x) ==> s.push(x).filter(pred) == s.filter(pred),
{
    reveal(Seq::filter);
    assert(s.push(x).drop_last() =~= s);
    assert(s.push(x).last() == x);
}

/// A sequence none of whose elements satisfies the predicate filters to the
/// empty sequence.
pub proof fn lemma_filter_none<A>(s: Seq<A>, pred: spec_fn(A) -> bool)
    requires
        forall|i: int| 0 <= i < s.len() ==> !pred(#[trigger] s[i]),
    ensures
        s.filter(pred) == Seq::<A>::empty(),
    decreases s.len(),
{
    reveal(Seq::filter);
    if s.len() > 0 {
        assert(!pred(s.last()));
        lemma_filter_none(s.drop_last(), pred);
    }
    assert(s.filter(pred) =~= Seq::<A>::empty());
}

/// A sequence all of whose elements satisfy the predicate is left unchanged
/// by filtering.
pub proof fn lemma_filter_all<A>(s: Seq<A>, pred: spec_fn(A) -> bool)
    requires
        forall|i: int| 0 <= i < s.len() ==> pred(#[trigger] s[i]),
    ensures
        s.filter(pred) == s,
    decreases s.len(),
{
    reveal(Seq::filter);
    if s.len() > 0 {
        lemma_filter_all(s.drop_last(), pred);
        assert(s.drop_last().push(s.last()) =~= s);
    }
}

/// A property shared by every element of a sequence is shared by every
/// element of a filtered copy.
pub proof fn lemma_filter_preserves_prop<A>(
    s: Seq<A>,
    pred: spec_fn(A) -> bool,
    prop: spec_fn(A) -> bool,
)
    requires
        forall|i: int| 0 <= i < s.len() ==> prop(#[trigger] s[i]),
    ensures
        forall|k: int| 0 <= k < s.filter(pred).len() ==> prop(#[trigger] s.filter(pred)[k]),
    decreases s.len(),
{
    reveal(Seq::filter);
    if s.len() > 0 {
        let d = s.drop_last();
        assert(forall|i: int| 0 <= i < d.len() ==> prop(#[trigger] d[i]));
        lemma_filter_preserves_prop(d, pred, prop);
        if pred(s.last()) {
            assert(s.filter(pred) == d.filter(pred).push(s.last()));
            assert(prop(s[s.len() - 1]));
            assert forall|k: int|
                0 <= k < s.filter(pred).len() implies prop(#[trigger] s.filter(pred)[k]) by {
                if k < d.filter(pred).len() {
                    assert(s.filter(pred)[k] == d.filter(pred)[k]);
                } else {
                    assert(s.filter(pred)[k] == s.last());
                }
            }
        } else {
            assert(s.filter(pred) == d.filter(pred));
        }
    }
}

/// Every element of a filtered sequence occurs in the original.
pub proof fn lemma_filter_elems_contained<A>(s: Seq<A>, pred: spec_fn(A) -> bool)
    ensures
        forall|k: int|
            0 <= k < s.filter(pred).len() ==> s.contains(#[trigger] s.filter(pred)[k]),
    decreases s.len(),
{
    reveal(Seq::filter);
    if s.len() > 0 {
        let d = s.drop_last();
        lemma_filter_elems_contained(d, pred);
        assert forall|k: int|
            0 <= k < s.filter(pred).len() implies s.contains(#[trigger] s.filter(pred)[k]) by {
            if k < d.filter(pred).len() {
                assert(d.contains(d.filter(pred)[k]));
                let j = choose|j: int| 0 <= j < d.len() && d[j] == d.filter(pred)[k];
                assert(s[j] == s.filter(pred)[k]);
            } else {
                assert(s.filter(pred)[k] == s.last());
                assert(s[s.len() - 1] == s.last());
            }
        }
    }
}

/// Filtering keeps a sequence strictly increasing under a key.
pub proof fn lemma_filter_keeps_increasing<A>(
    s: Seq<A>,
    pred: spec_fn(A) -> bool,
    key: spec_fn(A) -> int,
)
    requires
        forall|i: int, j: int|
            #![trigger s[i], s[j]]
            0 <= i < j < s.len() ==> key(s[i]) < key(s[j]),
    ensures
        forall|i: int, j: int|
            #![trigger s.filter(pred)[i], s.filter(pred)[j]]
            0 <= i < j < s.filter(pred).len() ==> key(s.filter(pred)[i]) < key(s.filter(pred)[j]),
    decreases s.len(),
{
    reveal(Seq::filter);
    if s.len() > 0 {
        let d = s.drop_last();
        let l = s.last();
        assert forall|i: int, j: int|
            #![trigger d[i], d[j]]
            0 <= i < j < d.len() implies key(d[i]) < key(d[j]) by {
            assert(d[i] == s[i]);
            assert(d[j] == s[j]);
        }
        lemma_filter_keeps_increasing(d, pred, key);
        if pred(l) {
            assert forall|i: int| 0 <= i < d.len() implies key(#[trigger] d[i]) < key(l) by {
                assert(d[i] == s[i]);
                assert(l == s[s.len() - 1]);
            }
            lemma_filter_preserves_prop(d, pred, |x: A| key(x) < key(l));
            assert(s.filter(pred) == d.filter(pred).push(l));
            assert forall|i: int, j: int|
                #![trigger s.filter(pred)[i], s.filter(pred)[j]]
                0 <= i < j < s.filter(pred).len() implies key(s.filter(pred)[i]) < key(
                s.filter(pred)[j],
            ) by {
                if j < d.filter(pred).len() {
                    assert(s.filter(pred)[i] == d.filter(pred)[i]);
                    assert(s.filter(pred)[j] == d.filter(pred)[j]);
                } else {
                    assert(s.filter(pred)[j] == l);
                    assert(s.filter(pred)[i] == d.filter(pred)[i]);
                }
            }
        } else {
            assert(s.filter(pred) == d.filter(pred));
        }
    }
}

/// A value-to-value map that does not change which elements a predicate
/// accepts commutes with filtering by that predicate.
pub proof fn lemma_filter_map_values<A>(s: Seq<A>, f: spec_fn(A) -> A, pred: spec_fn(A) -> bool)
    requires
        forall|x: A| pred(#[trigger] f(x)) == pred(x),
    ensures
        s.map_values(f).filter(pred) == s.filter(pred).map_values(f),
    decreases s.len(),
{
    reveal(Seq::filter);
    if s.len() == 0 {
        assert(s.map_values(f).filter(pred) =~= s.filter(pred).map_values(f));
    } else {
        let d = s.drop_last();
        let l = s.last();
        lemma_filter_map_values(d, f, pred);
        assert(s.map_values(f).drop_last() =~= d.map_values(f));
        assert(s.map_values(f).last() == f(l));
        if pred(l) {
            assert(s.filter(pred) == d.filter(pred).push(l));
            assert(s.filter(pred).map_values(f) =~= d.filter(pred).map_values(f).push(f(l)));
        } else {
            assert(s.filter(pred) == d.filter(pred));
        }
    }
}

} // verus!
