//! Numeric aggregation kernels: null-skipping sum, grouped sum, grouped
//! cumulative sum, grouped row-framed (sliding) sum, and grouped
//! range-framed sum.
//!
//! Cells are wide integers (`i128`) so that every supported storage width
//! fits; the kernels require each input cell to lie within the 64-bit
//! storage range, which makes every partial sum provably free of overflow
//! in the 128-bit accumulation type.

use vstd::prelude::*;

verus! {

/// Contribution of one cell to a null-skipping sum.
pub open spec fn cell_val(c: Option<i128>) -> int {
    match c {
        Some(v) => v as int,
        None => 0,
    }
}

/// Contribution of one cell to a non-null count.
pub open spec fn cell_count(c: Option<i128>) -> int {
    match c {
        Some(_) => 1,
        None => 0,
    }
}

/// Every stored value fits the 64-bit storage range the accumulation type
/// widens from.
pub open spec fn fits_storage(c: Option<i128>) -> bool {
    match c {
        Some(v) => i64::MIN <= v <= i64::MAX,
        None => true,
    }
}

pub open spec fn all_fit_storage(cells: Seq<Option<i128>>) -> bool {
    forall|i: int| 0 <= i < cells.len() ==> fits_storage(#[trigger] cells[i])
}

/// All row positions of one group are in bounds for a column of `n` rows.
pub open spec fn group_in_bounds(idxs: Seq<usize>, n: int) -> bool {
    forall|k: int| 0 <= k < idxs.len() ==> (#[trigger] idxs[k]) < n
}

pub open spec fn groups_in_bounds(gs: Seq<Vec<usize>>, n: int) -> bool {
    forall|g: int| 0 <= g < gs.len() ==> group_in_bounds((#[trigger] gs[g])@, n)
}

/// Total number of rows covered by a grouping.
pub open spec fn total_rows(gs: Seq<Vec<usize>>) -> int
    decreases gs.len(),
{
    if gs.len() == 0 {
        0
    } else {
        total_rows(gs.drop_last()) + gs.last()@.len()
    }
}

/// Null-skipping sum of the cells at positions `idxs[from..to]`.
pub open spec fn gsum(cells: Seq<Option<i128>>, idxs: Seq<usize>, from: int, to: int) -> int
    decreases to - from,
{
    if from >= to {
        0
    } else {
        gsum(cells, idxs, from, to - 1) + cell_val(cells[idxs[to - 1] as int])
    }
}

/// Number of non-null cells at positions `idxs[from..to]`.
pub open spec fn gcount(cells: Seq<Option<i128>>, idxs: Seq<usize>, from: int, to: int) -> int
    decreases to - from,
{
    if from >= to {
        0
    } else {
        gcount(cells, idxs, from, to - 1) + cell_count(cells[idxs[to - 1] as int])
    }
}

/// Null-skipping sum of `cells[from..to]` taken directly, without a group.
pub open spec fn vsum(cells: Seq<Option<i128>>, from: int, to: int) -> int
    decreases to - from,
{
    if from >= to {
        0
    } else {
        vsum(cells, from, to - 1) + cell_val(cells[to - 1])
    }
}

/// Number of non-null cells in `cells[from..to]` taken directly.
pub open spec fn vcount(cells: Seq<Option<i128>>, from: int, to: int) -> int
    decreases to - from,
{
    if from >= to {
        0
    } else {
        vcount(cells, from, to - 1) + cell_count(cells[to - 1])
    }
}

pub proof fn lemma_gsum_bound(cells: Seq<Option<i128>>, idxs: Seq<usize>, from: int, to: int)
    requires
        all_fit_storage(cells),
        group_in_bounds(idxs, cells.len() as int),
        0 <= from <= to,
        to <= idxs.len(),
    ensures
        -(to - from) * 0x8000_0000_0000_0000 <= gsum(cells, idxs, from, to) <= (to - from)
            * 0x8000_0000_0000_0000,
    decreases to - from,
{
    if from < to {
        lemma_gsum_bound(cells, idxs, from, to - 1);
        assert(idxs[to - 1] < cells.len());
        assert(fits_storage(cells[idxs[to - 1] as int]));
        assert(gsum(cells, idxs, from, to) == gsum(cells, idxs, from, to - 1) + cell_val(
            cells[idxs[to - 1] as int],
        ));
        assert((to - from) * 0x8000_0000_0000_0000 == (to - 1 - from) * 0x8000_0000_0000_0000
            + 0x8000_0000_0000_0000) by (nonlinear_arith);
        assert(-(to - from) * 0x8000_0000_0000_0000 == -(to - 1 - from) * 0x8000_0000_0000_0000
            - 0x8000_0000_0000_0000) by (nonlinear_arith);
    }
}

pub proof fn lemma_vsum_bound(cells: Seq<Option<i128>>, from: int, to: int)
    requires
        all_fit_storage(cells),
        0 <= from <= to,
        to <= cells.len(),
    ensures
        -(to - from) * 0x8000_0000_0000_0000 <= vsum(cells, from, to) <= (to - from) * 0x8000_0000_0000_0000,
    decreases to - from,
{
    if from < to {
        lemma_vsum_bound(cells, from, to - 1);
        assert(fits_storage(cells[to - 1]));
        assert(vsum(cells, from, to) == vsum(cells, from, to - 1) + cell_val(cells[to - 1]));
        assert((to - from) * 0x8000_0000_0000_0000 == (to - 1 - from) * 0x8000_0000_0000_0000
            + 0x8000_0000_0000_0000) by (nonlinear_arith);
        assert(-(to - from) * 0x8000_0000_0000_0000 == -(to - 1 - from) * 0x8000_0000_0000_0000
            - 0x8000_0000_0000_0000) by (nonlinear_arith);
    }
}

/// A null-skipping range sum can also be split off at its front.
pub proof fn lemma_gsum_split_front(cells: Seq<Option<i128>>, idxs: Seq<usize>, from: int, to: int)
    requires
        from < to,
    ensures
        gsum(cells, idxs, from, to) == cell_val(cells[idxs[from] as int]) + gsum(
            cells,
            idxs,
            from + 1,
            to,
        ),
    decreases to - from,
{
    if from + 1 < to {
        lemma_gsum_split_front(cells, idxs, from, to - 1);
        assert(gsum(cells, idxs, from, to) == gsum(cells, idxs, from, to - 1) + cell_val(
            cells[idxs[to - 1] as int],
        ));
        assert(gsum(cells, idxs, from + 1, to) == gsum(cells, idxs, from + 1, to - 1) + cell_val(
            cells[idxs[to - 1] as int],
        ));
    } else {
        assert(gsum(cells, idxs, from, to) == gsum(cells, idxs, from, from) + cell_val(
            cells[idxs[from] as int],
        ));
        assert(gsum(cells, idxs, from + 1, to) == 0);
    }
}
pub proof fn lemma_gcount_nonneg(cells: Seq<Option<i128>>, idxs: Seq<usize>, from: int, to: int)
    ensures
        gcount(cells, idxs, from, to) >= 0,
    decreases to - from,
{
    if from < to {
        lemma_gcount_nonneg(cells, idxs, from, to - 1);
    }
}

/// Result of a whole-column or whole-group sum: null when no non-null cell
/// contributes, the exact null-skipping total otherwise.
pub open spec fn group_sum_result(cells: Seq<Option<i128>>, idxs: Seq<usize>) -> Option<i128> {
    if gcount(cells, idxs, 0, idxs.len() as int) == 0 {
        None
    } else {
        Some(gsum(cells, idxs, 0, idxs.len() as int) as i128)
    }
}

/// Null-skipping sum of a whole column, reduced to a single optional value:
/// empty or all-null input yields null, never an error.
pub fn sum(values: &Vec<Option<i128>>) -> (r: Option<i128>)
    requires
        all_fit_storage(values@),
    ensures
        vcount(values@, 0, values@.len() as int) == 0 ==> r is None,
        vcount(values@, 0, values@.len() as int) != 0 ==> r == Some(
            vsum(values@, 0, values@.len() as int) as i128,
        ),
{
    let n = values.len();
    let mut total: i128 = 0;
    let mut seen: bool = false;
    let mut i: usize = 0;
    while i < n
        invariant
            all_fit_storage(values@),
            n == values@.len(),
            0 <= i <= n,
            total == vsum(values@, 0, i as int),
            seen ==> vcount(values@, 0, i as int) > 0,
            !seen ==> vcount(values@, 0, i as int) == 0,
        decreases n - i,
    {
        proof {
            lemma_vsum_bound(values@, 0, i as int);
        }
        match values[i] {
            Some(v) => {
                total = total + v;
                seen = true;
            },
            None => {},
        }
        i = i + 1;
    }
    if seen {
        Some(total)
    } else {
        None
    }
}

/// One null-skipping sum per group, independent across groups.
pub fn grouped_sum(values: &Vec<Option<i128>>, groups: &Vec<Vec<usize>>) -> (r: Vec<Option<i128>>)
    requires
        all_fit_storage(values@),
        groups_in_bounds(groups@, values@.len() as int),
    ensures
        r@.len() == groups@.len(),
        forall|g: int|
            0 <= g < groups@.len() ==> r@[g] == group_sum_result(values@, (#[trigger] groups@[g])@),
{
    let mut out: Vec<Option<i128>> = Vec::new();
    let ng = groups.len();
    let mut g: usize = 0;
    while g < ng
        invariant
            all_fit_storage(values@),
            groups_in_bounds(groups@, values@.len() as int),
            ng == groups@.len(),
            0 <= g <= ng,
            out@.len() == g,
            forall|j: int|
                0 <= j < g ==> out@[j] == group_sum_result(values@, (#[trigger] groups@[j])@),
        decreases ng - g,
    {
        let idxs = &groups[g];
        let glen = idxs.len();
        let mut total: i128 = 0;
        let mut seen: bool = false;
        let mut k: usize = 0;
        while k < glen
            invariant
                all_fit_storage(values@),
                group_in_bounds(idxs@, values@.len() as int),
                glen == idxs@.len(),
                0 <= k <= glen,
                total == gsum(values@, idxs@, 0, k as int),
                seen ==> gcount(values@, idxs@, 0, k as int) > 0,
                !seen ==> gcount(values@, idxs@, 0, k as int) == 0,
            decreases glen - k,
        {
            proof {
                lemma_gsum_bound(values@, idxs@, 0, k as int);
                lemma_gcount_nonneg(values@, idxs@, 0, k as int);
            }
            match values[idxs[k]] {
                Some(v) => {
                    total = total + v;
                    seen = true;
                },
                None => {},
            }
            k = k + 1;
        }
        if seen {
            out.push(Some(total));
        } else {
            out.push(None);
        }
        g = g + 1;
    }
    out
}

/// Cumulative-sum output for row `k` of a group: a null input row emits
/// null as its own output and does not alter the running total; a non-null
/// row emits the running null-skipping total through itself.
pub open spec fn cum_at(cells: Seq<Option<i128>>, idxs: Seq<usize>, k: int) -> Option<i128> {
    if cells[idxs[k] as int] is None {
        None
    } else {
        Some(gsum(cells, idxs, 0, k + 1) as i128)
    }
}

pub open spec fn cum_seq(cells: Seq<Option<i128>>, idxs: Seq<usize>) -> Seq<Option<i128>> {
    Seq::new(idxs.len(), |k: int| cum_at(cells, idxs, k))
}

/// The whole cumulative-sum result: one block per group, concatenated in
/// group-emission order.
pub open spec fn cum_result(cells: Seq<Option<i128>>, gs: Seq<Vec<usize>>) -> Seq<Option<i128>> {
    crate::flat::concat_blocks(gs.len() as int, |g: int| cum_seq(cells, gs[g]@))
}

/// Running total per row per group, from the group's first row through the
/// current row, in group order.
pub fn grouped_cum_sum(values: &Vec<Option<i128>>, groups: &Vec<Vec<usize>>) -> (r: Vec<
    Option<i128>,
>)
    requires
        all_fit_storage(values@),
        groups_in_bounds(groups@, values@.len() as int),
    ensures
        r@ == cum_result(values@, groups@),
{
    let ghost blocks: spec_fn(int) -> Seq<Option<i128>> = |g: int| cum_seq(values@, groups@[g]@);
    let mut out: Vec<Option<i128>> = Vec::new();
    let ng = groups.len();
    let mut g: usize = 0;
    while g < ng
        invariant
            all_fit_storage(values@),
            groups_in_bounds(groups@, values@.len() as int),
            ng == groups@.len(),
            0 <= g <= ng,
            blocks == (|gg: int| cum_seq(values@, groups@[gg]@)),
            out@ == crate::flat::concat_blocks(g as int, blocks),
        decreases ng - g,
    {
        let idxs = &groups[g];
        let glen = idxs.len();
        let ghost entry = out@;
        let mut run: i128 = 0;
        let mut k: usize = 0;
        while k < glen
            invariant
                all_fit_storage(values@),
                group_in_bounds(idxs@, values@.len() as int),
                glen == idxs@.len(),
                0 <= k <= glen,
                run == gsum(values@, idxs@, 0, k as int),
                out@ == entry + cum_seq(values@, idxs@).take(k as int),
            decreases glen - k,
        {
            proof {
                lemma_gsum_bound(values@, idxs@, 0, k as int);
                assert(cum_seq(values@, idxs@).take(k + 1 as int) =~= cum_seq(
                    values@,
                    idxs@,
                ).take(k as int).push(cum_at(values@, idxs@, k as int)));
            }
            match values[idxs[k]] {
                Some(v) => {
                    run = run + v;
                    out.push(Some(run));
                },
                None => {
                    out.push(None);
                },
            }
            proof {
                assert(out@ =~= entry + cum_seq(values@, idxs@).take(k + 1 as int));
            }
            k = k + 1;
        }
        proof {
            assert(cum_seq(values@, idxs@).take(glen as int) =~= cum_seq(values@, idxs@));
            assert(out@ == crate::flat::concat_blocks(g + 1 as int, blocks));
        }
        g = g + 1;
    }
    out
}

/// Inclusive lower frame edge for row `i` of a group under a row-count
/// offset: `i - left` clipped to the group's start; unbounded when absent.
pub open spec fn row_lo(i: int, left: Option<u64>) -> int {
    match left {
        Some(l) => if i - l >= 0 { i - l } else { 0 },
        None => 0,
    }
}

/// Inclusive upper frame edge for row `i` of a group of `glen` rows under a
/// row-count offset: `i + right` clipped to the group's end; unbounded when
/// absent.
pub open spec fn row_hi(i: int, right: Option<u64>, glen: int) -> int {
    match right {
        Some(r) => if i + r <= glen - 1 { i + r } else { glen - 1 },
        None => glen - 1,
    }
}

/// Row-framed sum output for row `i`: null until the leading frame edge has
/// passed a non-null cell, the null-skipping sum over the clipped frame
/// afterwards.
pub open spec fn row_at(
    cells: Seq<Option<i128>>,
    idxs: Seq<usize>,
    i: int,
    left: Option<u64>,
    right: Option<u64>,
) -> Option<i128> {
    let hi = row_hi(i, right, idxs.len() as int);
    if gcount(cells, idxs, 0, hi + 1) == 0 {
        None
    } else {
        Some(gsum(cells, idxs, row_lo(i, left), hi + 1) as i128)
    }
}

pub open spec fn row_seq(
    cells: Seq<Option<i128>>,
    idxs: Seq<usize>,
    left: Option<u64>,
    right: Option<u64>,
) -> Seq<Option<i128>> {
    Seq::new(idxs.len(), |i: int| row_at(cells, idxs, i, left, right))
}

/// The whole row-framed result: one block per group, concatenated in
/// group-emission order.
pub open spec fn row_result(
    cells: Seq<Option<i128>>,
    gs: Seq<Vec<usize>>,
    left: Option<u64>,
    right: Option<u64>,
) -> Seq<Option<i128>> {
    crate::flat::concat_blocks(gs.len() as int, |g: int| row_seq(cells, gs[g]@, left, right))
}

/// Sliding (row-count-bounded) window sum: for each row, the null-skipping
/// sum over `[i - left, i + right]` clipped to the group's extent, kept by a
/// trailing and a leading pointer that only ever advance.
pub fn grouped_row_sum(
    values: &Vec<Option<i128>>,
    groups: &Vec<Vec<usize>>,
    left: Option<u64>,
    right: Option<u64>,
) -> (r: Vec<Option<i128>>)
    requires
        all_fit_storage(values@),
        groups_in_bounds(groups@, values@.len() as int),
    ensures
        r@ == row_result(values@, groups@, left, right),
{
    let ghost blocks: spec_fn(int) -> Seq<Option<i128>> = |g: int| row_seq(
        values@,
        groups@[g]@,
        left,
        right,
    );
    let mut out: Vec<Option<i128>> = Vec::new();
    let ng = groups.len();
    let mut g: usize = 0;
    while g < ng
        invariant
            all_fit_storage(values@),
            groups_in_bounds(groups@, values@.len() as int),
            ng == groups@.len(),
            0 <= g <= ng,
            blocks == (|gg: int| row_seq(values@, groups@[gg]@, left, right)),
            out@ == crate::flat::concat_blocks(g as int, blocks),
        decreases ng - g,
    {
        let idxs = &groups[g];
        let glen = idxs.len();
        let ghost entry = out@;
        let mut run: i128 = 0;
        let mut seen: bool = false;
        let mut lo: usize = 0;
        let mut hi: usize = 0;
        let mut c: usize = 0;
        while c < glen
            invariant
                all_fit_storage(values@),
                group_in_bounds(idxs@, values@.len() as int),
                glen == idxs@.len(),
                0 <= c <= glen,
                lo <= hi <= glen,
                c == 0 ==> lo == 0 && hi == 0,
                c > 0 ==> lo == row_lo(c - 1, left) && hi == row_hi(c - 1, right, glen as int) + 1,
                run == gsum(values@, idxs@, lo as int, hi as int),
                seen ==> gcount(values@, idxs@, 0, hi as int) > 0,
                !seen ==> gcount(values@, idxs@, 0, hi as int) == 0,
                out@ == entry + row_seq(values@, idxs@, left, right).take(c as int),
            decreases glen - c,
        {
            let lo_c: usize = match left {
                None => 0,
                Some(l) => {
                    if l < (c as u64) {
                        c - (l as usize)
                    } else {
                        0
                    }
                },
            };
            let hi_c: usize = match right {
                None => glen,
                Some(r) => {
                    let room = glen - 1 - c;
                    if r <= (room as u64) {
                        c + (r as usize) + 1
                    } else {
                        glen
                    }
                },
            };
            proof {
                assert(lo_c == row_lo(c as int, left));
                assert(hi_c == row_hi(c as int, right, glen as int) + 1);
                assert(lo <= lo_c);
                assert(hi <= hi_c);
                assert(lo_c < hi_c);
            }
            while hi < hi_c
                invariant
                    all_fit_storage(values@),
                    group_in_bounds(idxs@, values@.len() as int),
                    glen == idxs@.len(),
                    lo <= hi <= hi_c,
                    hi_c <= glen,
                    run == gsum(values@, idxs@, lo as int, hi as int),
                    seen ==> gcount(values@, idxs@, 0, hi as int) > 0,
                    !seen ==> gcount(values@, idxs@, 0, hi as int) == 0,
                decreases hi_c - hi,
            {
                proof {
                    lemma_gsum_bound(values@, idxs@, lo as int, hi as int);
                }
                match values[idxs[hi]] {
                    Some(v) => {
                        run = run + v;
                        seen = true;
                    },
                    None => {},
                }
                hi = hi + 1;
            }
            while lo < lo_c
                invariant
                    all_fit_storage(values@),
                    group_in_bounds(idxs@, values@.len() as int),
                    glen == idxs@.len(),
                    lo <= lo_c,
                    lo_c <= hi <= glen,
                    run == gsum(values@, idxs@, lo as int, hi as int),
                decreases lo_c - lo,
            {
                proof {
                    lemma_gsum_split_front(values@, idxs@, lo as int, hi as int);
                    lemma_gsum_bound(values@, idxs@, lo as int + 1, hi as int);
                }
                match values[idxs[lo]] {
                    Some(v) => {
                        run = run - v;
                    },
                    None => {},
                }
                lo = lo + 1;
            }
            proof {
                assert(row_seq(values@, idxs@, left, right).take(c + 1 as int) =~= row_seq(
                    values@,
                    idxs@,
                    left,
                    right,
                ).take(c as int).push(row_at(values@, idxs@, c as int, left, right)));
            }
            if seen {
                out.push(Some(run));
            } else {
                out.push(None);
            }
            proof {
                assert(out@ =~= entry + row_seq(values@, idxs@, left, right).take(c + 1 as int));
            }
            c = c + 1;
        }
        proof {
            assert(row_seq(values@, idxs@, left, right).take(glen as int) =~= row_seq(
                values@,
                idxs@,
                left,
                right,
            ));
            assert(out@ == crate::flat::concat_blocks(g + 1 as int, blocks));
        }
        g = g + 1;
    }
    out
}

/// Well-formed per-row frame boundaries for one group: one inclusive-lower /
/// exclusive-upper pair per row, each within the group, lower never above
/// upper, and both edges non-decreasing from row to row (they come from
/// binary searches over a sorted ordering column).
pub open spec fn bounds_wf(idxs: Seq<usize>, lefts: Seq<usize>, rights: Seq<usize>) -> bool {
    &&& lefts.len() == idxs.len()
    &&& rights.len() == idxs.len()
    &&& forall|j: int|
        0 <= j < idxs.len() ==> (#[trigger] lefts[j]) <= rights[j] && rights[j] <= idxs.len()
    &&& forall|j1: int, j2: int|
        0 <= j1 <= j2 < idxs.len() ==> #[trigger] lefts[j1] <= #[trigger] lefts[j2]
    &&& forall|j1: int, j2: int|
        0 <= j1 <= j2 < idxs.len() ==> #[trigger] rights[j1] <= #[trigger] rights[j2]
}

pub open spec fn groups_bounds_wf(
    gs: Seq<Vec<usize>>,
    lefts: Seq<Vec<usize>>,
    rights: Seq<Vec<usize>>,
) -> bool {
    &&& lefts.len() == gs.len()
    &&& rights.len() == gs.len()
    &&& forall|g: int|
        0 <= g < gs.len() ==> bounds_wf((#[trigger] gs[g])@, lefts[g]@, rights[g]@)
}

/// Range-framed sum output for row `j`: the null-skipping sum over the
/// supplied half-open window of group positions.
pub open spec fn range_at(
    cells: Seq<Option<i128>>,
    idxs: Seq<usize>,
    lefts: Seq<usize>,
    rights: Seq<usize>,
    j: int,
) -> Option<i128> {
    Some(gsum(cells, idxs, lefts[j] as int, rights[j] as int) as i128)
}

pub open spec fn range_seq(
    cells: Seq<Option<i128>>,
    idxs: Seq<usize>,
    lefts: Seq<usize>,
    rights: Seq<usize>,
) -> Seq<Option<i128>> {
    Seq::new(idxs.len(), |j: int| range_at(cells, idxs, lefts, rights, j))
}

/// The whole range-framed result: one block per group, concatenated in
/// group-emission order.
pub open spec fn range_result(
    cells: Seq<Option<i128>>,
    gs: Seq<Vec<usize>>,
    lefts: Seq<Vec<usize>>,
    rights: Seq<Vec<usize>>,
) -> Seq<Option<i128>> {
    crate::flat::concat_blocks(
        gs.len() as int,
        |g: int| range_seq(cells, gs[g]@, lefts[g]@, rights[g]@),
    )
}

/// Range-bounded window sum: the same two-pointer accumulation as the
/// sliding sum, but the boundary positions are supplied per row by the
/// frame resolver, supporting ragged, value-dependent window widths.
pub fn grouped_range_sum(
    values: &Vec<Option<i128>>,
    groups: &Vec<Vec<usize>>,
    left_ranges: &Vec<Vec<usize>>,
    right_ranges: &Vec<Vec<usize>>,
) -> (r: Vec<Option<i128>>)
    requires
        all_fit_storage(values@),
        groups_in_bounds(groups@, values@.len() as int),
        groups_bounds_wf(groups@, left_ranges@, right_ranges@),
    ensures
        r@ == range_result(values@, groups@, left_ranges@, right_ranges@),
{
    let ghost blocks: spec_fn(int) -> Seq<Option<i128>> = |g: int| range_seq(
        values@,
        groups@[g]@,
        left_ranges@[g]@,
        right_ranges@[g]@,
    );
    let mut out: Vec<Option<i128>> = Vec::new();
    let ng = groups.len();
    let mut g: usize = 0;
    while g < ng
        invariant
            all_fit_storage(values@),
            groups_in_bounds(groups@, values@.len() as int),
            groups_bounds_wf(groups@, left_ranges@, right_ranges@),
            ng == groups@.len(),
            0 <= g <= ng,
            blocks == (|gg: int| range_seq(
                values@,
                groups@[gg]@,
                left_ranges@[gg]@,
                right_ranges@[gg]@,
            )),
            out@ == crate::flat::concat_blocks(g as int, blocks),
        decreases ng - g,
    {
        let idxs = &groups[g];
        let lefts = &left_ranges[g];
        let rights = &right_ranges[g];
        let glen = idxs.len();
        let ghost entry = out@;
        let mut run: i128 = 0;
        let mut lo: usize = 0;
        let mut hi: usize = 0;
        let mut j: usize = 0;
        while j < glen
            invariant
                all_fit_storage(values@),
                group_in_bounds(idxs@, values@.len() as int),
                bounds_wf(idxs@, lefts@, rights@),
                glen == idxs@.len(),
                0 <= j <= glen,
                lo <= hi <= glen,
                j == 0 ==> lo == 0 && hi == 0,
                j > 0 ==> lo == lefts@[j - 1] && hi == rights@[j - 1],
                run == gsum(values@, idxs@, lo as int, hi as int),
                out@ == entry + range_seq(values@, idxs@, lefts@, rights@).take(j as int),
            decreases glen - j,
        {
            let lo_j = lefts[j];
            let hi_j = rights[j];
            proof {
                assert(lo <= lo_j && hi <= hi_j && lo_j <= hi_j && hi_j <= glen);
            }
            while hi < hi_j
                invariant
                    all_fit_storage(values@),
                    group_in_bounds(idxs@, values@.len() as int),
                    glen == idxs@.len(),
                    lo <= hi <= hi_j,
                    hi_j <= glen,
                    run == gsum(values@, idxs@, lo as int, hi as int),
                decreases hi_j - hi,
            {
                proof {
                    lemma_gsum_bound(values@, idxs@, lo as int, hi as int);
                }
                match values[idxs[hi]] {
                    Some(v) => {
                        run = run + v;
                    },
                    None => {},
                }
                hi = hi + 1;
            }
            while lo < lo_j
                invariant
                    all_fit_storage(values@),
                    group_in_bounds(idxs@, values@.len() as int),
                    glen == idxs@.len(),
                    lo <= lo_j,
                    lo_j <= hi <= glen,
                    run == gsum(values@, idxs@, lo as int, hi as int),
                decreases lo_j - lo,
            {
                proof {
                    lemma_gsum_split_front(values@, idxs@, lo as int, hi as int);
                    lemma_gsum_bound(values@, idxs@, lo as int + 1, hi as int);
                }
                match values[idxs[lo]] {
                    Some(v) => {
                        run = run - v;
                    },
                    None => {},
                }
                lo = lo + 1;
            }
            proof {
                assert(range_seq(values@, idxs@, lefts@, rights@).take(j + 1 as int) =~= range_seq(
                    values@,
                    idxs@,
                    lefts@,
                    rights@,
                ).take(j as int).push(range_at(values@, idxs@, lefts@, rights@, j as int)));
            }
            out.push(Some(run));
            proof {
                assert(out@ =~= entry + range_seq(values@, idxs@, lefts@, rights@).take(
                    j + 1 as int,
                ));
            }
            j = j + 1;
        }
        proof {
            assert(range_seq(values@, idxs@, lefts@, rights@).take(glen as int) =~= range_seq(
                values@,
                idxs@,
                lefts@,
                rights@,
            ));
            assert(out@ == crate::flat::concat_blocks(g + 1 as int, blocks));
        }
        g = g + 1;
    }
    out
}

} // verus!
