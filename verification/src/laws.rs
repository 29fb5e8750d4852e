//! Laws relating the grouped aggregation kernels to one another, stated
//! over the same specification functions their contracts use.

use vstd::prelude::*;
use crate::flat::{concat_blocks, block_offset, lemma_concat_blocks_index};
use crate::sum::{gsum, gcount, cell_val, all_fit_storage, groups_in_bounds, group_sum_result,
    cum_at, cum_seq, cum_result, row_at, row_seq, row_result, row_lo, row_hi, lemma_gsum_bound};
use crate::window::{ranks_seq, rank_result, gvals};

verus! {

/// Every cell of one group is non-null.
pub open spec fn group_no_nulls(cells: Seq<Option<i128>>, idxs: Seq<usize>) -> bool {
    forall|k: int| 0 <= k < idxs.len() ==> cells[(#[trigger] idxs[k]) as int] is Some
}

/// Every cell of one group is non-null and non-negative.
pub open spec fn group_non_negative(cells: Seq<Option<i128>>, idxs: Seq<usize>) -> bool {
    forall|k: int|
        0 <= k < idxs.len() ==> (cells[(#[trigger] idxs[k]) as int] matches Some(v) && v >= 0)
}

/// Over a group with no nulls, the count of contributing cells is the
/// group's whole extent.
proof fn lemma_gcount_all_some(cells: Seq<Option<i128>>, idxs: Seq<usize>, n: int)
    requires
        group_no_nulls(cells, idxs),
        0 <= n <= idxs.len(),
    ensures
        gcount(cells, idxs, 0, n) == n,
    decreases n,
{
    if n > 0 {
        lemma_gcount_all_some(cells, idxs, n - 1);
    }
}

/// A null-skipping sum over non-negative cells is itself non-negative.
proof fn lemma_gsum_nonneg(cells: Seq<Option<i128>>, idxs: Seq<usize>, from: int, to: int)
    requires
        group_non_negative(cells, idxs),
        0 <= from,
        to <= idxs.len(),
    ensures
        gsum(cells, idxs, from, to) >= 0,
    decreases to - from,
{
    if from < to {
        lemma_gsum_nonneg(cells, idxs, from, to - 1);
    }
}

/// For every non-empty group with no nulls, the grouped sum is the
/// arithmetic sum of the group's cells (the null-skipping total, which
/// skips nothing here), and it equals the cumulative sum's value at the
/// group's last row.
pub proof fn lemma_grouped_sum_matches_cumulative(
    cells: Seq<Option<i128>>,
    gs: Seq<Vec<usize>>,
    g: int,
)
    requires
        groups_in_bounds(gs, cells.len() as int),
        0 <= g < gs.len(),
        gs[g]@.len() > 0,
        group_no_nulls(cells, gs[g]@),
    ensures
        group_sum_result(cells, gs[g]@) == Some(
            gsum(cells, gs[g]@, 0, gs[g]@.len() as int) as i128,
        ),
        cum_result(cells, gs)[block_offset(g, |g2: int| cum_seq(cells, gs[g2]@)) + gs[g]@.len()
            - 1] == Some(gsum(cells, gs[g]@, 0, gs[g]@.len() as int) as i128),
{
    let idxs = gs[g]@;
    let n = idxs.len() as int;
    lemma_gcount_all_some(cells, idxs, n);
    let blocks = |g2: int| cum_seq(cells, gs[g2]@);
    lemma_concat_blocks_index(gs.len() as int, blocks, g, n - 1);
    assert(cum_result(cells, gs)[block_offset(g, blocks) + n - 1] == cum_seq(cells, idxs)[n - 1]);
    assert(cells[idxs[n - 1] as int] is Some);
    assert(cum_seq(cells, idxs)[n - 1] == cum_at(cells, idxs, n - 1));
}

/// For all-non-negative inputs the cumulative sum is monotonically
/// non-decreasing within each group.
pub proof fn lemma_cumulative_sum_monotone(
    cells: Seq<Option<i128>>,
    gs: Seq<Vec<usize>>,
    g: int,
    k1: int,
    k2: int,
)
    requires
        groups_in_bounds(gs, cells.len() as int),
        all_fit_storage(cells),
        0 <= g < gs.len(),
        gs[g]@.len() <= usize::MAX,
        0 <= k1 <= k2 < gs[g]@.len(),
        group_non_negative(cells, gs[g]@),
    ensures
        ({
            let blocks = |g2: int| cum_seq(cells, gs[g2]@);
            let v1 = cum_result(cells, gs)[block_offset(g, blocks) + k1];
            let v2 = cum_result(cells, gs)[block_offset(g, blocks) + k2];
            v1 matches Some(x1) && v2 matches Some(x2) && x1 <= x2
        }),
{
    let idxs = gs[g]@;
    let blocks = |g2: int| cum_seq(cells, gs[g2]@);
    lemma_concat_blocks_index(gs.len() as int, blocks, g, k1);
    lemma_concat_blocks_index(gs.len() as int, blocks, g, k2);
    assert(cells[idxs[k1] as int] is Some);
    assert(cells[idxs[k2] as int] is Some);
    lemma_gsum_bound(cells, idxs, 0, k1 + 1);
    lemma_gsum_bound(cells, idxs, 0, k2 + 1);
    lemma_gsum_split_range_nonneg(cells, idxs, k1 + 1, k2 + 1);
    assert((k1 + 1) * 0x8000_0000_0000_0000 <= (k2 + 1) * 0x8000_0000_0000_0000);
    assert(cum_result(cells, gs)[block_offset(g, blocks) + k1] == cum_at(cells, idxs, k1));
    assert(cum_result(cells, gs)[block_offset(g, blocks) + k2] == cum_at(cells, idxs, k2));
}

/// The tail of a non-negative range only adds to the running total.
proof fn lemma_gsum_split_range_nonneg(
    cells: Seq<Option<i128>>,
    idxs: Seq<usize>,
    mid: int,
    to: int,
)
    requires
        group_non_negative(cells, idxs),
        0 <= mid <= to <= idxs.len(),
    ensures
        gsum(cells, idxs, 0, mid) <= gsum(cells, idxs, 0, to),
    decreases to - mid,
{
    if mid < to {
        lemma_gsum_split_range_nonneg(cells, idxs, mid, to - 1);
        assert(cells[idxs[to - 1] as int] matches Some(v) && v >= 0);
    }
}

/// The cumulative sum's value at the first row of a group is that row's
/// own cell: the value itself, or null if that row is null.
pub proof fn lemma_cumulative_sum_first_row(cells: Seq<Option<i128>>, gs: Seq<Vec<usize>>, g: int)
    requires
        groups_in_bounds(gs, cells.len() as int),
        0 <= g < gs.len(),
        gs[g]@.len() > 0,
    ensures
        cum_result(cells, gs)[block_offset(g, |g2: int| cum_seq(cells, gs[g2]@))]
            == cells[gs[g]@[0] as int],
{
    let idxs = gs[g]@;
    let blocks = |g2: int| cum_seq(cells, gs[g2]@);
    lemma_concat_blocks_index(gs.len() as int, blocks, g, 0);
    match cells[idxs[0] as int] {
        None => {},
        Some(v) => {
            assert(gsum(cells, idxs, 0, 0) == 0);
            assert(gsum(cells, idxs, 0, 1) == gsum(cells, idxs, 0, 0) + cell_val(
                cells[idxs[0] as int],
            ));
            assert(cum_at(cells, idxs, 0) == Some((v as int) as i128));
        },
    }
}

/// A row-bounded frame that is unbounded on the left with a zero right
/// offset is the cumulative sum, on groups with no nulls. (With nulls the
/// two differ: a null row emits null from the cumulative kernel but the
/// running frame total from the sliding kernel.)
pub proof fn lemma_unbounded_left_frame_is_cumulative(
    cells: Seq<Option<i128>>,
    gs: Seq<Vec<usize>>,
)
    requires
        groups_in_bounds(gs, cells.len() as int),
        forall|g: int| 0 <= g < gs.len() ==> group_no_nulls(cells, (#[trigger] gs[g])@),
    ensures
        row_result(cells, gs, None, Some(0)) == cum_result(cells, gs),
{
    assert forall|g: int|
        0 <= g < gs.len() implies #[trigger] row_seq(cells, gs[g]@, None, Some(0)) == cum_seq(
        cells,
        gs[g]@,
    ) by {
        let idxs = gs[g]@;
        assert forall|i: int|
            0 <= i < idxs.len() implies row_seq(cells, idxs, None, Some(0))[i] == cum_seq(
            cells,
            idxs,
        )[i] by {
            assert(row_hi(i, Some(0u64), idxs.len() as int) == i);
            assert(row_lo(i, None) == 0);
            assert(cells[idxs[i] as int] is Some);
            lemma_gcount_all_some(cells, idxs, i + 1);
            assert(gcount(cells, idxs, 0, i + 1) == i + 1);
            assert(row_at(cells, idxs, i, None, Some(0u64)) == Some(
                gsum(cells, idxs, 0, i + 1) as i128,
            ));
            assert(cum_at(cells, idxs, i) == Some(gsum(cells, idxs, 0, i + 1) as i128));
        }
        assert(row_seq(cells, idxs, None, Some(0)) =~= cum_seq(cells, idxs));
    }
    crate::flat::lemma_concat_blocks_congruence(
        gs.len() as int,
        |g: int| row_seq(cells, gs[g]@, None, Some(0)),
        |g: int| cum_seq(cells, gs[g]@),
    );
}

/// Any grouped kernel given zero groups, or only empty groups, produces
/// an empty result (and, being a total function, cannot fail).
pub proof fn lemma_empty_grouping_outputs(
    cells: Seq<Option<i128>>,
    gs: Seq<Vec<usize>>,
    left: Option<u64>,
    right: Option<u64>,
)
    requires
        forall|g: int| 0 <= g < gs.len() ==> (#[trigger] gs[g])@.len() == 0,
    ensures
        cum_result(cells, gs).len() == 0,
        row_result(cells, gs, left, right).len() == 0,
        rank_result(cells, gs).len() == 0,
{
    lemma_concat_empty(gs.len() as int, |g: int| cum_seq(cells, gs[g]@), gs);
    lemma_concat_empty(gs.len() as int, |g: int| row_seq(cells, gs[g]@, left, right), gs);
    lemma_concat_empty(gs.len() as int, |g: int| ranks_seq(gvals(cells, gs[g]@)), gs);
}

/// Concatenating blocks that are all empty yields the empty sequence.
proof fn lemma_concat_empty(n: int, f: spec_fn(int) -> Seq<Option<i128>>, gs: Seq<Vec<usize>>)
    requires
        n <= gs.len(),
        forall|g: int| 0 <= g < gs.len() ==> (#[trigger] gs[g])@.len() == 0,
        forall|g: int| 0 <= g < n ==> (#[trigger] f(g)).len() == gs[g]@.len(),
    ensures
        concat_blocks(n, f).len() == 0,
    decreases n,
{
    if n > 0 {
        lemma_concat_empty(n - 1, f, gs);
    }
}

} // verus!
