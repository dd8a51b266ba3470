//! Outlier removal by mask: each point is either within the distance
//! threshold or not, and the points that are stay, in input order.
//!
//! The threshold is a statistic of the distances to the centroid. Distances
//! are coordinate arithmetic and are left to the caller, who hands over one
//! flag per point; this module applies the flags to a sequence.

use crate::selection::{
    all_indices, indices_where, is_selection, lemma_indices_where, lemma_indices_where_all,
    lemma_select_all, lemma_selection_len, select,
};
use vstd::prelude::*;

verus! {

/// The positions below `n` whose flag is `true`, in increasing order.
pub open spec fn inlier_indices_upto(within: Seq<bool>, n: nat) -> Seq<int> {
    indices_where(n, |i: int| within[i])
}

/// The positions whose flag is `true`, in increasing order.
pub open spec fn inlier_indices(within: Seq<bool>) -> Seq<int> {
    inlier_indices_upto(within, within.len())
}

/// How many entries of `items` have a flag in `within`.
pub open spec fn flagged<T>(items: Seq<T>, within: Seq<bool>) -> int {
    if items.len() <= within.len() {
        items.len() as int
    } else {
        within.len() as int
    }
}

/// The entries of `items` whose flag is `true`, in the order they have in
/// `items`. Entry and flag are paired by position; an entry without a flag,
/// or a flag without an entry, counts for nothing.
pub open spec fn masked<T>(items: Seq<T>, within: Seq<bool>) -> Seq<T> {
    select(items, inlier_indices(within.take(flagged(items, within))))
}

/// Copies out of `items` the entries whose flag in `within` is `true`.
pub fn keep_inliers<T: Copy>(items: &Vec<T>, within: &Vec<bool>) -> (out: Vec<T>)
    ensures
        out@ == masked(items@, within@),
        out@.len() <= items@.len(),
{
    let n = if items.len() <= within.len() {
        items.len()
    } else {
        within.len()
    };
    let ghost flags = within@.take(n as int);
    let mut out: Vec<T> = Vec::new();
    let mut i: usize = 0;
    while i < n
        invariant
            i <= n,
            n == flagged(items@, within@),
            flags == within@.take(n as int),
            out@ == select(items@, inlier_indices_upto(flags, i as nat)),
        decreases n - i,
    {
        if within[i] {
            out.push(items[i]);
            assert(out@ =~= select(
                items@,
                inlier_indices_upto(flags, i as nat).push(i as int),
            ));
        }
        i += 1;
    }
    proof {
        lemma_inlier_indices(flags);
    }
    out
}

/// The positions kept are in input order, never outnumber the flags, and
/// are exactly the positions whose flag is `true`.
pub proof fn lemma_inlier_indices(within: Seq<bool>)
    ensures
        is_selection(inlier_indices(within), within.len() as int),
        inlier_indices(within).len() <= within.len(),
        forall|k: int|
            0 <= k < inlier_indices(within).len() ==> within[#[trigger] inlier_indices(within)[k]],
        forall|i: int|
            0 <= i < within.len() && within[i] ==> #[trigger] inlier_indices(within).contains(i),
{
    lemma_indices_where(within.len(), |i: int| within[i]);
    lemma_selection_len(inlier_indices(within), within.len() as int);
}

/// Where every flag is `true`, every position is kept.
pub proof fn lemma_inlier_indices_all(within: Seq<bool>)
    requires
        forall|i: int| 0 <= i < within.len() ==> #[trigger] within[i],
    ensures
        inlier_indices(within) == all_indices(within.len()),
{
    lemma_indices_where_all(within.len(), |i: int| within[i]);
}

/// Masking never adds an entry. Where there is one flag per entry, the
/// entries kept are those at the positions flagged `true`; where there is no
/// entry, none comes out.
pub proof fn lemma_masked<T>(items: Seq<T>, within: Seq<bool>)
    ensures
        masked(items, within).len() <= items.len(),
        items.len() == within.len() ==> masked(items, within) == select(
            items,
            inlier_indices(within),
        ),
        items.len() == 0 ==> masked(items, within) == items,
{
    let flags = within.take(flagged(items, within));
    lemma_inlier_indices(flags);
    if items.len() == within.len() {
        assert(flags =~= within);
    }
    if items.len() == 0 {
        assert(masked(items, within) =~= items);
    }
}

/// Where every entry has a flag and every flag is `true`, masking changes nothing.
pub proof fn lemma_masked_all<T>(items: Seq<T>, within: Seq<bool>)
    requires
        items.len() <= within.len(),
        forall|i: int| 0 <= i < within.len() ==> #[trigger] within[i],
    ensures
        masked(items, within) == items,
{
    let flags = within.take(items.len() as int);
    lemma_inlier_indices_all(flags);
    lemma_select_all(items);
}

} // verus!
