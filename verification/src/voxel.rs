//! Voxel grid deduplication: of the points that share a cell, the first stays.
//!
//! A cell is named by three signed integers, one per axis. Computing the cell
//! of a point is coordinate arithmetic and is left to the caller; this module
//! decides, from the cells alone, which positions survive.

use crate::selection::{all_indices, indices_where, is_selection, lemma_indices_where, lemma_indices_where_all, positions, select};
use std::collections::HashSet;
use vstd::prelude::*;

verus! {

broadcast use vstd::std_specs::hash::group_hash_axioms;

/// The integer coordinates of a voxel, one per axis.
pub type Cell = (i32, i32, i32);

/// No earlier position holds the cell found at position `i`.
pub open spec fn first_in_cell(cells: Seq<Cell>, i: int) -> bool {
    forall|j: int| 0 <= j < i ==> #[trigger] cells[j] != cells[i]
}

/// The positions below `n` that are the first of their cell, in increasing order.
pub open spec fn first_indices_upto(cells: Seq<Cell>, n: nat) -> Seq<int> {
    indices_where(n, |i: int| first_in_cell(cells, i))
}

/// The positions that survive deduplication: for each occupied cell the
/// position of its first point, in increasing order.
pub open spec fn first_indices(cells: Seq<Cell>) -> Seq<int> {
    first_indices_upto(cells, cells.len())
}

/// Some survivor at or before position `i` lies in the cell found at `i`.
pub open spec fn has_survivor(cells: Seq<Cell>, i: int) -> bool {
    exists|k: int|
        0 <= k < first_indices(cells).len() && #[trigger] first_indices(cells)[k] <= i
            && cells[first_indices(cells)[k]] == cells[i]
}

/// One number per cell, different for different cells.
pub open spec fn cell_key(c: Cell) -> int {
    (c.0 + 0x8000_0000) * 0x1_0000_0000_0000_0000 + (c.1 + 0x8000_0000) * 0x1_0000_0000 + (c.2
        + 0x8000_0000)
}

/// `cell_key` is injective and fits in 128 bits.
pub proof fn lemma_cell_key(a: Cell, b: Cell)
    ensures
        0 <= cell_key(a) <= u128::MAX,
        cell_key(a) == cell_key(b) ==> a == b,
{
}

fn pack(c: Cell) -> (k: u128)
    ensures
        k == cell_key(c),
{
    let x: u128 = (c.0 as i64 + 0x8000_0000) as u128;
    let y: u128 = (c.1 as i64 + 0x8000_0000) as u128;
    let z: u128 = (c.2 as i64 + 0x8000_0000) as u128;
    x * 0x1_0000_0000_0000_0000 + y * 0x1_0000_0000 + z
}

/// Scans `cells` in order and returns the positions whose cell was not seen
/// before: first come, first kept, later points of the same cell dropped.
pub fn first_in_each_cell(cells: &Vec<Cell>) -> (kept: Vec<usize>)
    ensures
        positions(kept@) == first_indices(cells@),
{
    let mut seen: HashSet<u128> = HashSet::new();
    let mut kept: Vec<usize> = Vec::new();
    let mut i: usize = 0;
    while i < cells.len()
        invariant
            i <= cells@.len(),
            positions(kept@) == first_indices_upto(cells@, i as nat),
            forall|k: u128|
                seen@.contains(k) <==> exists|j: int|
                    0 <= j < i && cell_key(#[trigger] cells@[j]) == k,
        decreases cells@.len() - i,
    {
        let key = pack(cells[i]);
        let ghost before = seen@;
        let fresh = seen.insert(key);
        proof {
            let c = cells@[i as int];
            if fresh {
                assert forall|j: int| 0 <= j < i implies #[trigger] cells@[j] != c by {
                    if cells@[j] == c {
                        assert(before.contains(key));
                    }
                }
            } else {
                let j = choose|j: int| 0 <= j < i && cell_key(#[trigger] cells@[j]) == key;
                lemma_cell_key(cells@[j], c);
                assert(cells@[j] == cells@[i as int]);
            }
            assert(fresh == first_in_cell(cells@, i as int));
            assert forall|k: u128| seen@.contains(k) <==> exists|j: int|
                0 <= j < i + 1 && cell_key(#[trigger] cells@[j]) == k by {
                if seen@.contains(k) {
                    if k == key {
                        assert(cell_key(cells@[i as int]) == k);
                    } else {
                        assert(before.contains(k));
                    }
                }
                if exists|j: int| 0 <= j < i + 1 && cell_key(#[trigger] cells@[j]) == k {
                    let j = choose|j: int| 0 <= j < i + 1 && cell_key(#[trigger] cells@[j]) == k;
                    if j < i {
                        assert(before.contains(k));
                    }
                }
            }
        }
        if fresh {
            kept.push(i);
            assert(positions(kept@) =~= first_indices_upto(cells@, i as nat).push(i as int));
        }
        i += 1;
    }
    kept
}

/// What deduplication guarantees: the survivors are listed in input order,
/// never outnumber the input, occupy pairwise different cells, and every
/// point of the input has a survivor in its cell at or before its position.
pub proof fn lemma_first_indices(cells: Seq<Cell>)
    ensures
        is_selection(first_indices(cells), cells.len() as int),
        first_indices(cells).len() <= cells.len(),
        forall|a: int, b: int|
            0 <= a < b < first_indices(cells).len() ==> cells[#[trigger] first_indices(cells)[a]]
                != cells[#[trigger] first_indices(cells)[b]],
        forall|i: int| 0 <= i < cells.len() ==> #[trigger] has_survivor(cells, i),
{
    let keep = |i: int| first_in_cell(cells, i);
    let kept = first_indices(cells);
    lemma_indices_where(cells.len(), keep);
    assert forall|a: int, b: int| 0 <= a < b < kept.len() implies cells[#[trigger] kept[a]]
        != cells[#[trigger] kept[b]] by {
        assert(keep(kept[b]));
        assert(kept[a] < kept[b]);
    }
    assert forall|i: int| 0 <= i < cells.len() implies #[trigger] has_survivor(cells, i) by {
        lemma_earliest_in_cell(cells, i);
        let f = choose|f: int| 0 <= f <= i && cells[f] == cells[i] && first_in_cell(cells, f);
        assert(keep(f));
        assert(kept.contains(f));
        let k = choose|k: int| 0 <= k < kept.len() && kept[k] == f;
        assert(0 <= k < first_indices(cells).len() && first_indices(cells)[k] <= i
            && cells[first_indices(cells)[k]] == cells[i]);
    }
}

/// Every occupied cell has an earliest position.
proof fn lemma_earliest_in_cell(cells: Seq<Cell>, i: int)
    requires
        0 <= i < cells.len(),
    ensures
        exists|f: int| 0 <= f <= i && cells[f] == cells[i] && first_in_cell(cells, f),
    decreases i,
{
    if first_in_cell(cells, i) {
        assert(cells[i] == cells[i]);
    } else {
        let j = choose|j: int| 0 <= j < i && cells[j] == cells[i];
        lemma_earliest_in_cell(cells, j);
        let f = choose|f: int| 0 <= f <= j && cells[f] == cells[j] && first_in_cell(cells, f);
        assert(0 <= f <= i && cells[f] == cells[i] && first_in_cell(cells, f));
    }
}

/// Where no two positions share a cell, deduplication keeps every position.
pub proof fn lemma_first_indices_distinct(cells: Seq<Cell>)
    requires
        forall|a: int, b: int| 0 <= a < b < cells.len() ==> cells[a] != cells[b],
    ensures
        first_indices(cells) == all_indices(cells.len()),
{
    lemma_indices_where_all(cells.len(), |i: int| first_in_cell(cells, i));
}

/// Deduplicating twice is deduplicating once: the cells of the survivors are
/// pairwise different, so a second pass keeps all of them.
pub proof fn lemma_first_indices_idempotent(cells: Seq<Cell>)
    ensures
        first_indices(select(cells, first_indices(cells))) == all_indices(
            first_indices(cells).len(),
        ),
{
    lemma_first_indices(cells);
    lemma_first_indices_distinct(select(cells, first_indices(cells)));
}

} // verus!
