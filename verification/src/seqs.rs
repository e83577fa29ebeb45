//! Small general lemmas about sequence filtering and multisets, shared by the
//! store's deletion and listing proofs.
use vstd::prelude::*;
use vstd::seq_lib::lemma_multiset_commutative;

verus! {

/// Filtering a pushed sequence keeps the filtered prefix and appends the new
/// element exactly when it passes the predicate.
pub proof fn lemma_filter_push<A>(s: Seq<A>, x: A, pred: spec_fn(A) -> bool)
    ensures
        (s.push(x)).filter(pred) == if pred(x) {
            s.filter(pred).push(x)
        } else {
            s.filter(pred)
        },
{
    reveal(Seq::filter);
    assert((s.push(x)).drop_last() =~= s);
    assert((s.push(x)).last() == x);
}

/// Every element of a filtered sequence occurs in the original.
pub proof fn lemma_filter_in_source<A>(s: Seq<A>, pred: spec_fn(A) -> bool)
    ensures
        forall|k: int|
            0 <= k < s.filter(pred).len() ==> s.contains(#[trigger] s.filter(pred)[k]),
    decreases s.len(),
{
    reveal(Seq::filter);
    if s.len() > 0 {
        let dl = s.drop_last();
        lemma_filter_in_source(dl, pred);
        assert forall|k: int| 0 <= k < s.filter(pred).len() implies s.contains(
            #[trigger] s.filter(pred)[k],
        ) by {
            if k < dl.filter(pred).len() {
                assert(dl.filter(pred)[k] == s.filter(pred)[k]);
                let w = choose|w: int| 0 <= w < dl.len() && dl[w] == dl.filter(pred)[k];
                assert(s[w] == s.filter(pred)[k]);
            } else {
                assert(s.filter(pred)[k] == s.last());
                assert(s[s.len() - 1] == s.last());
            }
        }
    }
}

/// Filtering keeps a key-distinct sequence key-distinct.
pub proof fn lemma_filter_distinct_key<A>(s: Seq<A>, pred: spec_fn(A) -> bool, key: spec_fn(A) -> i64)
    requires
        forall|i: int, j: int| 0 <= i < j < s.len() ==> key(#[trigger] s[i]) != key(#[trigger] s[j]),
    ensures
        forall|i: int, j: int|
            0 <= i < j < s.filter(pred).len() ==> key(#[trigger] s.filter(pred)[i]) != key(
                #[trigger] s.filter(pred)[j],
            ),
    decreases s.len(),
{
    reveal(Seq::filter);
    if s.len() > 0 {
        let dl = s.drop_last();
        assert(forall|i: int| 0 <= i < dl.len() ==> dl[i] == s[i]);
        lemma_filter_distinct_key(dl, pred, key);
        lemma_filter_in_source(dl, pred);
        let f = s.filter(pred);
        let fd = dl.filter(pred);
        assert forall|i: int, j: int| 0 <= i < j < f.len() implies key(#[trigger] f[i]) != key(
            #[trigger] f[j],
        ) by {
            if j < fd.len() {
                assert(f[i] == fd[i]);
                assert(f[j] == fd[j]);
            } else {
                assert(pred(s.last()) && f =~= fd.push(s.last()));
                assert(f[j] == s.last());
                assert(f[i] == fd[i]);
                let w = choose|w: int| 0 <= w < dl.len() && dl[w] == fd[i];
                assert(s[w] == fd[i]);
                assert(key(s[w]) != key(s[s.len() - 1]));
            }
        }
    }
}

/// Inserting into a sequence inserts into its multiset.
pub proof fn lemma_to_multiset_insert<A>(s: Seq<A>, j: int, x: A)
    requires
        0 <= j <= s.len(),
    ensures
        s.insert(j, x).to_multiset() == s.to_multiset().insert(x),
    decreases s.len() - j,
{
    broadcast use vstd::seq_lib::group_to_multiset_ensures;

    if j == s.len() {
        assert(s.insert(j, x) =~= s.push(x));
    } else {
        let dl = s.drop_last();
        assert(s.insert(j, x) =~= dl.insert(j, x).push(s.last()));
        lemma_to_multiset_insert(dl, j, x);
        assert(s =~= dl.push(s.last()));
        assert(s.insert(j, x).to_multiset() =~= dl.insert(j, x).to_multiset().insert(s.last()));
        assert(dl.to_multiset().insert(x).insert(s.last()) =~= dl.to_multiset().insert(
            s.last(),
        ).insert(x));
    }
}

} // verus!

verus! {

/// Filtering with an everywhere-true predicate changes nothing.
pub proof fn lemma_filter_all<A>(s: Seq<A>, pred: spec_fn(A) -> bool)
    requires
        forall|i: int| 0 <= i < s.len() ==> pred(#[trigger] s[i]),
    ensures
        s.filter(pred) == s,
    decreases s.len(),
{
    reveal(Seq::filter);
    if s.len() > 0 {
        let dl = s.drop_last();
        assert(forall|i: int| 0 <= i < dl.len() ==> dl[i] == s[i]);
        lemma_filter_all(dl, pred);
        assert(pred(s.last()));
        assert(s.filter(pred) =~= s);
    } else {
        assert(s.filter(pred) =~= s);
    }
}

} // verus!
