//! Ascending selections of row indices.

use vstd::prelude::*;

verus! {

/// The indices below `n` that meet `pred`, in ascending order.
pub open spec fn indices_where(n: nat, pred: spec_fn(int) -> bool) -> Seq<int>
    decreases n,
{
    if n == 0 {
        Seq::empty()
    } else {
        let rest = indices_where((n - 1) as nat, pred);
        if pred(n - 1) {
            rest.push(n - 1)
        } else {
            rest
        }
    }
}

/// A selection holds exactly the indices below `n` that meet the predicate,
/// each once and in ascending order.
pub proof fn lemma_indices_where(n: nat, pred: spec_fn(int) -> bool)
    ensures
        indices_where(n, pred).len() <= n,
        forall|k: int|
            0 <= k < indices_where(n, pred).len() ==> 0 <= (#[trigger] indices_where(n, pred)[k])
                < n && pred(indices_where(n, pred)[k]),
        forall|k: int, l: int|
            0 <= k < l < indices_where(n, pred).len() ==> (#[trigger] indices_where(n, pred)[k])
                < (#[trigger] indices_where(n, pred)[l]),
        forall|i: int| 0 <= i < n && pred(i) ==> #[trigger] indices_where(n, pred).contains(i),
    decreases n,
{
    if n > 0 {
        let rest = indices_where((n - 1) as nat, pred);
        lemma_indices_where((n - 1) as nat, pred);
        let all = indices_where(n, pred);
        assert forall|i: int| 0 <= i < n && pred(i) implies #[trigger] all.contains(i) by {
            if i == n - 1 {
                assert(all[all.len() - 1] == i);
            } else {
                assert(rest.contains(i));
                let k = choose|k: int| 0 <= k < rest.len() && rest[k] == i;
                assert(all[k] == i);
            }
        }
    }
}

/// Where every index meets the predicate, the selection is all of them.
pub proof fn lemma_indices_where_all(n: nat, pred: spec_fn(int) -> bool)
    requires
        forall|i: int| 0 <= i < n ==> #[trigger] pred(i),
    ensures
        indices_where(n, pred) == Seq::new(n, |i: int| i),
    decreases n,
{
    if n > 0 {
        lemma_indices_where_all((n - 1) as nat, pred);
        assert(pred(n - 1));
    }
    assert(indices_where(n, pred) =~= Seq::new(n, |i: int| i));
}

/// Where no index meets the predicate, the selection is empty.
pub proof fn lemma_indices_where_none(n: nat, pred: spec_fn(int) -> bool)
    requires
        forall|i: int| 0 <= i < n ==> !#[trigger] pred(i),
    ensures
        indices_where(n, pred) == Seq::<int>::empty(),
    decreases n,
{
    if n > 0 {
        lemma_indices_where_none((n - 1) as nat, pred);
        assert(!pred(n - 1));
    }
}

/// Where exactly one index below `n` meets the predicate, the selection is
/// that index alone.
pub proof fn lemma_indices_where_single(n: nat, pred: spec_fn(int) -> bool, only: int)
    requires
        0 <= only < n,
        forall|i: int| 0 <= i < n ==> #[trigger] pred(i) == (i == only),
    ensures
        indices_where(n, pred) == seq![only],
    decreases n,
{
    if n - 1 == only {
        lemma_indices_where_none((n - 1) as nat, pred);
        assert(pred(only));
    } else {
        lemma_indices_where_single((n - 1) as nat, pred, only);
        assert(!pred(n - 1));
    }
    assert(indices_where(n, pred) =~= seq![only]);
}

/// The plain integers behind a list of indices.
pub open spec fn as_ints(indices: Seq<usize>) -> Seq<int> {
    Seq::new(indices.len(), |k: int| indices[k] as int)
}

} // verus!
