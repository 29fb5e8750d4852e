//! Series-level window operations: type dispatch for the grouped sum
//! kernels, tie-aware ranking, and forward-shifted lookup (lead).

use vstd::prelude::*;
use vstd::string::*;
use crate::dtype::DataType;
use crate::error::{DaftError, DaftResult};
use crate::series::{Series, GroupIndices};
use crate::sum::{
    all_fit_storage, group_in_bounds, groups_in_bounds, groups_bounds_wf, grouped_cum_sum,
    grouped_row_sum, grouped_range_sum, cum_result, row_result, range_result,
};
use crate::flat::concat_blocks;

verus! {

/// The cells of one group, in group order.
pub open spec fn gvals(cells: Seq<Option<i128>>, idxs: Seq<usize>) -> Seq<Option<i128>> {
    Seq::new(idxs.len(), |k: int| cells[idxs[k] as int])
}

/// Start of the contiguous run of mutually-equal cells that row `i`
/// belongs to (null cells compare equal to null cells).
pub open spec fn run_start(vals: Seq<Option<i128>>, i: int) -> int
    decreases i,
{
    if i <= 0 {
        0
    } else if vals[i] == vals[run_start(vals, i - 1)] {
        run_start(vals, i - 1)
    } else {
        i
    }
}

/// One-based ranks with gaps after ties: every row of a run receives the
/// run's starting position plus one, so the next distinct value's rank
/// skips by the run's length.
pub open spec fn ranks_seq(vals: Seq<Option<i128>>) -> Seq<Option<i128>> {
    Seq::new(vals.len(), |i: int| Some((run_start(vals, i) + 1) as i128))
}

/// The whole grouped rank result: ranking restarts at one per group and
/// operates over group-relative positions.
pub open spec fn rank_result(cells: Seq<Option<i128>>, gs: Seq<Vec<usize>>) -> Seq<Option<i128>> {
    concat_blocks(gs.len() as int, |g: int| ranks_seq(gvals(cells, gs[g]@)))
}

/// Lead output for one group: the cell `offset` positions ahead within the
/// group, or the default cell when that would fall outside the group.
pub open spec fn lead_seq(
    cells: Seq<Option<i128>>,
    idxs: Seq<usize>,
    offset: u64,
    dcell: Option<i128>,
) -> Seq<Option<i128>> {
    Seq::new(
        idxs.len(),
        |k: int| if k + offset < idxs.len() {
            cells[idxs[k + offset] as int]
        } else {
            dcell
        },
    )
}

/// Ungrouped lead output over the whole column.
pub open spec fn lead_flat(cells: Seq<Option<i128>>, offset: u64, dcell: Option<i128>) -> Seq<
    Option<i128>,
> {
    Seq::new(
        cells.len(),
        |i: int| if i + offset < cells.len() {
            cells[i + offset]
        } else {
            dcell
        },
    )
}

pub open spec fn lead_result(
    cells: Seq<Option<i128>>,
    gs: Seq<Vec<usize>>,
    offset: u64,
    dcell: Option<i128>,
) -> Seq<Option<i128>> {
    concat_blocks(gs.len() as int, |g: int| lead_seq(cells, gs[g]@, offset, dcell))
}

/// SQL-null-aware cell equality: null equals null.
fn cell_eq(values: &Vec<Option<i128>>, a: usize, b: usize) -> (r: bool)
    requires
        a < values@.len(),
        b < values@.len(),
    ensures
        r == (values@[a as int] == values@[b as int]),
{
    match (values[a], values[b]) {
        (None, None) => true,
        (Some(x), Some(y)) => x == y,
        _ => false,
    }
}

/// Ranks of the rows of one group, in group order.
fn rank_group(values: &Vec<Option<i128>>, idxs: &Vec<usize>) -> (r: Vec<Option<i128>>)
    requires
        group_in_bounds(idxs@, values@.len() as int),
    ensures
        r@ == ranks_seq(gvals(values@, idxs@)),
{
    let ghost gv = gvals(values@, idxs@);
    let glen = idxs.len();
    let mut out: Vec<Option<i128>> = Vec::new();
    let mut starting: usize = 0;
    while starting < glen
        invariant
            group_in_bounds(idxs@, values@.len() as int),
            glen == idxs@.len(),
            gv == gvals(values@, idxs@),
            0 <= starting <= glen,
            out@.len() == starting,
            forall|p: int| 0 <= p < starting ==> out@[p] == ranks_seq(gv)[p],
            starting < glen ==> run_start(gv, starting as int) == starting,
        decreases glen - starting,
    {
        let mut cursor: usize = starting;
        while cursor < glen && cell_eq(values, idxs[cursor], idxs[starting])
            invariant
                group_in_bounds(idxs@, values@.len() as int),
                glen == idxs@.len(),
                gv == gvals(values@, idxs@),
                0 <= starting <= cursor <= glen,
                run_start(gv, starting as int) == starting,
                out@.len() == cursor,
                forall|p: int| 0 <= p < cursor ==> out@[p] == ranks_seq(gv)[p],
                forall|p: int| starting <= p < cursor ==> run_start(gv, p) == starting,
                forall|p: int| starting <= p < cursor ==> gv[p] == gv[starting as int],
            decreases glen - cursor,
        {
            proof {
                assert(gv[cursor as int] == values@[idxs@[cursor as int] as int]);
                if cursor > starting {
                    assert(run_start(gv, cursor as int - 1) == starting);
                }
                assert(run_start(gv, cursor as int) == starting);
            }
            let rank_val: i128 = (starting as i128) + 1;
            out.push(Some(rank_val));
            cursor = cursor + 1;
        }
        proof {
            if cursor < glen {
                assert(gv[cursor as int] == values@[idxs@[cursor as int] as int]);
                assert(gv[cursor as int] != gv[starting as int]);
                assert(run_start(gv, cursor as int - 1) == starting);
                assert(run_start(gv, cursor as int) == cursor);
            }
        }
        starting = cursor;
    }
    proof {
        assert(out@ =~= ranks_seq(gv));
    }
    out
}

/// Lead cells for one group, in group order.
fn lead_group(
    values: &Vec<Option<i128>>,
    idxs: &Vec<usize>,
    offset: u64,
    dcell: Option<i128>,
) -> (r: Vec<Option<i128>>)
    requires
        group_in_bounds(idxs@, values@.len() as int),
    ensures
        r@ == lead_seq(values@, idxs@, offset, dcell),
{
    let glen = idxs.len();
    let mut out: Vec<Option<i128>> = Vec::new();
    let mut k: usize = 0;
    while k < glen
        invariant
            group_in_bounds(idxs@, values@.len() as int),
            glen == idxs@.len(),
            0 <= k <= glen,
            out@.len() == k,
            forall|p: int| 0 <= p < k ==> out@[p] == lead_seq(values@, idxs@, offset, dcell)[p],
        decreases glen - k,
    {
        let room = glen - 1 - k;
        if offset <= (room as u64) {
            let target = k + (offset as usize);
            out.push(values[idxs[target]]);
        } else {
            out.push(dcell);
        }
        k = k + 1;
    }
    proof {
        assert(out@ =~= lead_seq(values@, idxs@, offset, dcell));
    }
    out
}

impl Series {
    /// Cumulative windowed sum: dispatches on the column's logical type,
    /// widens to the accumulation type, and runs the grouped cumulative-sum
    /// kernel. A missing grouping is rejected (every windowed computation
    /// requires a partition-by clause), as is a type without a sum.
    pub fn windowed_sum(&self, groups: Option<&GroupIndices>) -> (r: DaftResult<Series>)
        requires
            self.fits_storage(),
            groups matches Some(gs) ==> groups_in_bounds(gs@, self.spec_len()),
        ensures
            !self.dtype.sum_supported() ==> (r matches Err(e) && e is TypeError),
            self.dtype.sum_supported() && groups is None ==> (r matches Err(e) && e is ValueError),
            self.dtype.sum_supported() ==> (groups matches Some(gs) ==> (r matches Ok(s)
                && s.name@ == self.name@ && s.dtype == self.dtype.sum_accum_type() && s.values@
                == cum_result(self.values@, gs@))),
    {
        match self.dtype.try_sum_supertype() {
            None => {
                let mut msg = String::from_str("Numeric sum is not implemented for type ");
                let dt = self.dtype.display_string();
                msg.append(dt.as_str());
                Err(DaftError::TypeError(msg))
            },
            Some(accum) => match groups {
                None => Err(
                    DaftError::ValueError(
                        String::from_str("Window nodes must have partition by clause"),
                    ),
                ),
                Some(gs) => {
                    let vals = grouped_cum_sum(&self.values, gs);
                    Ok(Series { name: self.name.clone(), dtype: accum, values: vals })
                },
            },
        }
    }

    /// Row-framed (sliding) windowed sum with fixed row-count offsets.
    pub fn windowed_row_sum(
        &self,
        groups: Option<&GroupIndices>,
        left_row: Option<u64>,
        right_row: Option<u64>,
    ) -> (r: DaftResult<Series>)
        requires
            self.fits_storage(),
            groups matches Some(gs) ==> groups_in_bounds(gs@, self.spec_len()),
        ensures
            !self.dtype.sum_supported() ==> (r matches Err(e) && e is TypeError),
            self.dtype.sum_supported() && groups is None ==> (r matches Err(e) && e is ValueError),
            self.dtype.sum_supported() ==> (groups matches Some(gs) ==> (r matches Ok(s)
                && s.name@ == self.name@ && s.dtype == self.dtype.sum_accum_type() && s.values@
                == row_result(self.values@, gs@, left_row, right_row))),
    {
        match self.dtype.try_sum_supertype() {
            None => {
                let mut msg = String::from_str("Numeric sum is not implemented for type ");
                let dt = self.dtype.display_string();
                msg.append(dt.as_str());
                Err(DaftError::TypeError(msg))
            },
            Some(accum) => match groups {
                None => Err(
                    DaftError::ValueError(
                        String::from_str("Window nodes must have partition by clause"),
                    ),
                ),
                Some(gs) => {
                    let vals = grouped_row_sum(&self.values, gs, left_row, right_row);
                    Ok(Series { name: self.name.clone(), dtype: accum, values: vals })
                },
            },
        }
    }

    /// Range-framed windowed sum with per-row boundary positions supplied
    /// by the frame resolver.
    pub fn windowed_range_sum(
        &self,
        groups: Option<&GroupIndices>,
        left_ranges: &Vec<Vec<usize>>,
        right_ranges: &Vec<Vec<usize>>,
    ) -> (r: DaftResult<Series>)
        requires
            self.fits_storage(),
            groups matches Some(gs) ==> groups_in_bounds(gs@, self.spec_len())
                && groups_bounds_wf(gs@, left_ranges@, right_ranges@),
        ensures
            !self.dtype.sum_supported() ==> (r matches Err(e) && e is TypeError),
            self.dtype.sum_supported() && groups is None ==> (r matches Err(e) && e is ValueError),
            self.dtype.sum_supported() ==> (groups matches Some(gs) ==> (r matches Ok(s)
                && s.name@ == self.name@ && s.dtype == self.dtype.sum_accum_type() && s.values@
                == range_result(self.values@, gs@, left_ranges@, right_ranges@))),
    {
        match self.dtype.try_sum_supertype() {
            None => {
                let mut msg = String::from_str("Numeric sum is not implemented for type ");
                let dt = self.dtype.display_string();
                msg.append(dt.as_str());
                Err(DaftError::TypeError(msg))
            },
            Some(accum) => match groups {
                None => Err(
                    DaftError::ValueError(
                        String::from_str("Window nodes must have partition by clause"),
                    ),
                ),
                Some(gs) => {
                    let vals = grouped_range_sum(&self.values, gs, left_ranges, right_ranges);
                    Ok(Series { name: self.name.clone(), dtype: accum, values: vals })
                },
            },
        }
    }

    /// One-based rank with gaps after ties, under null-aware equality.
    /// With a grouping, ranking restarts at one independently per group.
    pub fn rank(&self, groups: Option<&GroupIndices>) -> (r: DaftResult<Series>)
        requires
            groups matches Some(gs) ==> groups_in_bounds(gs@, self.spec_len()),
        ensures
            r matches Ok(s) && s.name@ == self.name@ && s.dtype == DataType::UInt64,
            groups is None ==> (r matches Ok(s) && s.values@ == ranks_seq(self.values@)),
            groups matches Some(gs) ==> (r matches Ok(s) && s.values@ == rank_result(
                self.values@,
                gs@,
            )),
    {
        match groups {
            None => {
                let n = self.values.len();
                let mut ident: Vec<usize> = Vec::new();
                let mut i: usize = 0;
                while i < n
                    invariant
                        0 <= i <= n,
                        ident@.len() == i,
                        forall|p: int| 0 <= p < i ==> ident@[p] == p,
                    decreases n - i,
                {
                    ident.push(i);
                    i = i + 1;
                }
                let vals = rank_group(&self.values, &ident);
                proof {
                    assert(gvals(self.values@, ident@) =~= self.values@);
                }
                Ok(Series { name: self.name.clone(), dtype: DataType::UInt64, values: vals })
            },
            Some(gs) => {
                let ghost blocks: spec_fn(int) -> Seq<Option<i128>> = |g: int| ranks_seq(
                    gvals(self.values@, gs@[g]@),
                );
                let mut out: Vec<Option<i128>> = Vec::new();
                let ng = gs.len();
                let mut g: usize = 0;
                while g < ng
                    invariant
                        groups_in_bounds(gs@, self.spec_len()),
                        ng == gs@.len(),
                        0 <= g <= ng,
                        blocks == (|gg: int| ranks_seq(gvals(self.values@, gs@[gg]@))),
                        out@ == concat_blocks(g as int, blocks),
                    decreases ng - g,
                {
                    let mut block = rank_group(&self.values, &gs[g]);
                    out.append(&mut block);
                    proof {
                        assert(out@ == concat_blocks(g + 1 as int, blocks));
                    }
                    g = g + 1;
                }
                Ok(Series { name: self.name.clone(), dtype: DataType::UInt64, values: out })
            },
        }
    }

    /// The value `offset` positions ahead within the same partition (or the
    /// whole column when ungrouped), or the single-row default when the
    /// lookup falls outside the partition's extent.
    pub fn lead(&self, offset: u64, default: &Series, groups: Option<&GroupIndices>) -> (r:
        DaftResult<Series>)
        requires
            default.spec_len() == 1,
            default.dtype == self.dtype,
            groups matches Some(gs) ==> groups_in_bounds(gs@, self.spec_len()),
        ensures
            r matches Ok(s) && s.name@ == self.name@ && s.dtype == self.dtype,
            groups is None ==> (r matches Ok(s) && s.values@ == lead_flat(
                self.values@,
                offset,
                default.values@[0],
            )),
            groups matches Some(gs) ==> (r matches Ok(s) && s.values@ == lead_result(
                self.values@,
                gs@,
                offset,
                default.values@[0],
            )),
    {
        let dcell = default.values[0];
        match groups {
            None => {
                let n = self.values.len();
                let mut ident: Vec<usize> = Vec::new();
                let mut i: usize = 0;
                while i < n
                    invariant
                        0 <= i <= n,
                        ident@.len() == i,
                        forall|p: int| 0 <= p < i ==> ident@[p] == p,
                    decreases n - i,
                {
                    ident.push(i);
                    i = i + 1;
                }
                let vals = lead_group(&self.values, &ident, offset, dcell);
                proof {
                    assert(lead_seq(self.values@, ident@, offset, dcell) =~= lead_flat(
                        self.values@,
                        offset,
                        dcell,
                    ));
                }
                Ok(Series { name: self.name.clone(), dtype: self.dtype, values: vals })
            },
            Some(gs) => {
                let ghost blocks: spec_fn(int) -> Seq<Option<i128>> = |g: int| lead_seq(
                    self.values@,
                    gs@[g]@,
                    offset,
                    dcell,
                );
                let mut out: Vec<Option<i128>> = Vec::new();
                let ng = gs.len();
                let mut g: usize = 0;
                while g < ng
                    invariant
                        groups_in_bounds(gs@, self.spec_len()),
                        ng == gs@.len(),
                        0 <= g <= ng,
                        blocks == (|gg: int| lead_seq(self.values@, gs@[gg]@, offset, dcell)),
                        out@ == concat_blocks(g as int, blocks),
                    decreases ng - g,
                {
                    let mut block = lead_group(&self.values, &gs[g], offset, dcell);
                    out.append(&mut block);
                    proof {
                        assert(out@ == concat_blocks(g + 1 as int, blocks));
                    }
                    g = g + 1;
                }
                Ok(Series { name: self.name.clone(), dtype: self.dtype, values: out })
            },
        }
    }
}

} // verus!
