//! Index selections: strictly increasing lists of positions in a sequence.
//!
//! Every operation that removes points from a cloud is described by the list
//! of positions it keeps. Both the voxel filter and the outlier filter keep
//! their survivors in input order, so that list is always strictly increasing.

use vstd::prelude::*;

verus! {

/// The positions below `n` at which `keep` holds, in increasing order.
pub open spec fn indices_where(n: nat, keep: spec_fn(int) -> bool) -> Seq<int>
    decreases n,
{
    if n == 0 {
        Seq::empty()
    } else {
        let rest = indices_where((n - 1) as nat, keep);
        if keep(n - 1) {
            rest.push(n - 1)
        } else {
            rest
        }
    }
}

/// `indices` is strictly increasing and every entry is a position below `n`.
pub open spec fn is_selection(indices: Seq<int>, n: int) -> bool {
    &&& forall|k: int| 0 <= k < indices.len() ==> 0 <= #[trigger] indices[k] < n
    &&& forall|a: int, b: int| 0 <= a < b < indices.len() ==> indices[a] < indices[b]
}

/// The items found at `indices`, in the order of `indices`.
pub open spec fn select<T>(items: Seq<T>, indices: Seq<int>) -> Seq<T> {
    Seq::new(indices.len(), |k: int| items[indices[k]])
}

/// The positions `0, 1, .., n - 1`.
pub open spec fn all_indices(n: nat) -> Seq<int> {
    Seq::new(n, |k: int| k)
}

/// The mathematical positions named by a vector of machine indices.
pub open spec fn positions(indices: Seq<usize>) -> Seq<int> {
    Seq::new(indices.len(), |k: int| indices[k] as int)
}

/// `indices_where` lists exactly the positions below `n` that satisfy `keep`,
/// each once and in increasing order.
pub proof fn lemma_indices_where(n: nat, keep: spec_fn(int) -> bool)
    ensures
        is_selection(indices_where(n, keep), n as int),
        indices_where(n, keep).len() <= n,
        forall|k: int|
            0 <= k < indices_where(n, keep).len() ==> keep(#[trigger] indices_where(n, keep)[k]),
        forall|i: int|
            0 <= i < n && keep(i) ==> #[trigger] indices_where(n, keep).contains(i),
    decreases n,
{
    if n > 0 {
        let m = (n - 1) as nat;
        lemma_indices_where(m, keep);
        let rest = indices_where(m, keep);
        let all = indices_where(n, keep);
        assert forall|i: int| 0 <= i < n && keep(i) implies #[trigger] all.contains(i) by {
            if i < m {
                assert(rest.contains(i));
                let k = choose|k: int| 0 <= k < rest.len() && rest[k] == i;
                assert(all[k] == i);
            } else {
                assert(all[all.len() - 1] == i);
            }
        }
    }
}

/// A strictly increasing list of positions below `n` has at most `n` entries,
/// and its `k`-th entry is at least `k`.
pub proof fn lemma_selection_len(indices: Seq<int>, n: int)
    requires
        is_selection(indices, n),
    ensures
        indices.len() <= n || indices.len() == 0,
        forall|k: int| 0 <= k < indices.len() ==> k <= #[trigger] indices[k],
    decreases indices.len(),
{
    if indices.len() > 0 {
        let front = indices.drop_last();
        let last = indices.last();
        assert forall|k: int| 0 <= k < front.len() implies 0 <= #[trigger] front[k] < last by {
            assert(front[k] == indices[k]);
        }
        assert(is_selection(front, last)) by {
            assert forall|a: int, b: int| 0 <= a < b < front.len() implies front[a] < front[b] by {
                assert(front[a] == indices[a] && front[b] == indices[b]);
            }
        }
        lemma_selection_len(front, last);
        assert forall|k: int| 0 <= k < indices.len() implies k <= #[trigger] indices[k] by {
            if k < front.len() {
                assert(front[k] == indices[k]);
            } else if front.len() > 0 {
                assert(front.len() - 1 <= front[front.len() - 1]);
                assert(front[front.len() - 1] == indices[front.len() - 1]);
            }
        }
    }
}

/// Where `keep` holds at every position below `n`, nothing is left out.
pub proof fn lemma_indices_where_all(n: nat, keep: spec_fn(int) -> bool)
    requires
        forall|i: int| 0 <= i < n ==> #[trigger] keep(i),
    ensures
        indices_where(n, keep) == all_indices(n),
    decreases n,
{
    if n > 0 {
        lemma_indices_where((n - 1) as nat, keep);
        lemma_indices_where_all((n - 1) as nat, keep);
    }
    assert(indices_where(n, keep) =~= all_indices(n));
}

/// Selecting every position gives the sequence back.
pub proof fn lemma_select_all<T>(items: Seq<T>)
    ensures
        select(items, all_indices(items.len())) == items,
{
    assert(select(items, all_indices(items.len())) =~= items);
}

/// Copies out of `items` the entries at `indices`, in the order of `indices`.
pub fn gather<T: Copy>(items: &Vec<T>, indices: &Vec<usize>) -> (out: Vec<T>)
    requires
        forall|k: int| 0 <= k < indices@.len() ==> (#[trigger] indices@[k] as int) < items@.len(),
    ensures
        out@ == select(items@, positions(indices@)),
{
    let mut out: Vec<T> = Vec::new();
    let mut k: usize = 0;
    while k < indices.len()
        invariant
            k <= indices@.len(),
            forall|j: int| 0 <= j < indices@.len() ==> (#[trigger] indices@[j] as int) < items@.len(),
            out@.len() == k,
            forall|j: int| 0 <= j < k ==> out@[j] == items@[indices@[j] as int],
        decreases indices@.len() - k,
    {
        out.push(items[indices[k]]);
        k += 1;
    }
    assert(out@ =~= select(items@, positions(indices@)));
    out
}

} // verus!
