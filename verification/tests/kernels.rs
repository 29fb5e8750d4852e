use asof_window::search::{asof_search, search_sorted_group};
use asof_window::series::{GroupIndices, Series};
use asof_window::sum::{grouped_cum_sum, grouped_range_sum, grouped_row_sum, grouped_sum, sum};
use asof_window::dtype::DataType;

fn cells(vals: &[i128]) -> Vec<Option<i128>> {
    vals.iter().map(|v| Some(*v)).collect()
}

fn one_group(n: usize) -> GroupIndices {
    vec![(0..n).collect()]
}

#[test]
fn sum_of_values() {
    assert_eq!(sum(&cells(&[1, 2, 3])), Some(6));
}

#[test]
fn sum_of_empty_is_null() {
    assert_eq!(sum(&Vec::new()), None);
}

#[test]
fn sum_of_all_null_is_null() {
    assert_eq!(sum(&vec![None, None]), None);
}

#[test]
fn sum_skips_nulls() {
    assert_eq!(sum(&vec![Some(4), None, Some(5)]), Some(9));
}

#[test]
fn grouped_sum_per_group() {
    let groups: GroupIndices = vec![vec![0, 1], vec![2]];
    assert_eq!(grouped_sum(&cells(&[1, 2, 10]), &groups), vec![Some(3), Some(10)]);
}

#[test]
fn grouped_sum_all_null_group_is_null() {
    let groups: GroupIndices = vec![vec![0, 1]];
    assert_eq!(grouped_sum(&vec![None, None], &groups), vec![None]);
}

#[test]
fn cumulative_sum_running_totals() {
    let out = grouped_cum_sum(&cells(&[1, 2, 3, 4, 5]), &one_group(5));
    assert_eq!(out, vec![Some(1), Some(3), Some(6), Some(10), Some(15)]);
}

#[test]
fn cumulative_sum_null_rows_emit_null() {
    let vals = vec![Some(1), None, Some(2)];
    let out = grouped_cum_sum(&vals, &one_group(3));
    assert_eq!(out, vec![Some(1), None, Some(3)]);
}

// Matches the grouped-sum law on concrete input: the grouped sum equals
// the cumulative sum's last value per group.
#[test]
fn grouped_sum_equals_last_cumulative() {
    let vals = cells(&[2, 3, 7]);
    let g = one_group(3);
    let total = grouped_sum(&vals, &g);
    let cum = grouped_cum_sum(&vals, &g);
    assert_eq!(total[0], *cum.last().unwrap());
    assert_eq!(total[0], Some(12));
}

// Sliding sum over [1,2,3,4,5] with one preceding row and no following
// rows: each row plus its immediate predecessor.
#[test]
fn sliding_sum_one_preceding() {
    let out = grouped_row_sum(&cells(&[1, 2, 3, 4, 5]), &one_group(5), Some(1), Some(0));
    assert_eq!(out, vec![Some(1), Some(3), Some(5), Some(7), Some(9)]);
}

// An unbounded-left frame with a zero right offset behaves like the
// cumulative sum on a group with no nulls.
#[test]
fn unbounded_left_zero_right_is_cumulative() {
    let vals = cells(&[4, 1, 3]);
    let g = one_group(3);
    assert_eq!(grouped_row_sum(&vals, &g, None, Some(0)), grouped_cum_sum(&vals, &g));
}

#[test]
fn sliding_sum_right_overrun_shrinks_from_left() {
    // window of one preceding and one following row, clipped at both ends
    let out = grouped_row_sum(&cells(&[1, 2, 3]), &one_group(3), Some(1), Some(1));
    assert_eq!(out, vec![Some(3), Some(6), Some(5)]);
}

#[test]
fn range_sum_supplied_bounds() {
    let vals = cells(&[1, 2, 3, 4]);
    let groups = one_group(4);
    let lefts = vec![vec![0usize, 0, 1, 2]];
    let rights = vec![vec![1usize, 2, 3, 4]];
    let out = grouped_range_sum(&vals, &groups, &lefts, &rights);
    assert_eq!(out, vec![Some(1), Some(3), Some(5), Some(7)]);
}

#[test]
fn empty_grouping_yields_empty_results() {
    let vals = cells(&[1, 2, 3]);
    let empty: GroupIndices = Vec::new();
    let all_empty: GroupIndices = vec![Vec::new(), Vec::new()];
    assert_eq!(grouped_cum_sum(&vals, &empty).len(), 0);
    assert_eq!(grouped_cum_sum(&vals, &all_empty).len(), 0);
    assert_eq!(grouped_row_sum(&vals, &empty, Some(1), Some(1)).len(), 0);
    assert_eq!(grouped_sum(&vals, &empty).len(), 0);
}

fn series(name: &str, dtype: DataType, vals: Vec<Option<i128>>) -> Series {
    Series::new(name.to_string(), dtype, vals)
}

// Ranking on sorted input: ties share a rank, the next distinct value's
// rank skips by the run length.
#[test]
fn rank_with_gaps_after_ties() {
    let s = series("v", DataType::Int64, cells(&[1, 1, 2, 3, 3, 3]));
    let r = s.rank(None).unwrap();
    assert_eq!(r.values, vec![Some(1), Some(1), Some(3), Some(4), Some(4), Some(4)]);
    assert_eq!(r.dtype, DataType::UInt64);
}

#[test]
fn rank_restarts_per_group() {
    let s = series("v", DataType::Int64, cells(&[1, 1, 5, 5]));
    let groups: GroupIndices = vec![vec![0, 1], vec![2, 3]];
    let r = s.rank(Some(&groups)).unwrap();
    assert_eq!(r.values, vec![Some(1), Some(1), Some(1), Some(1)]);
}

// Lead with offset one and default zero on [10,20,30].
#[test]
fn lead_with_default() {
    let s = series("v", DataType::Int64, cells(&[10, 20, 30]));
    let d = series("v", DataType::Int64, cells(&[0]));
    let r = s.lead(1, &d, None).unwrap();
    assert_eq!(r.values, vec![Some(20), Some(30), Some(0)]);
}

#[test]
fn lead_stays_within_groups() {
    let s = series("v", DataType::Int64, cells(&[10, 20, 30, 40]));
    let d = series("v", DataType::Int64, cells(&[0]));
    let groups: GroupIndices = vec![vec![0, 1], vec![2, 3]];
    let r = s.lead(1, &d, Some(&groups)).unwrap();
    assert_eq!(r.values, vec![Some(20), Some(0), Some(40), Some(0)]);
}

#[test]
fn windowed_sum_requires_groups() {
    let s = series("v", DataType::Int64, cells(&[1]));
    let r = s.windowed_sum(None);
    assert!(matches!(r, Err(asof_window::error::DaftError::ValueError(_))));
}

#[test]
fn windowed_sum_rejects_strings() {
    let s = series("v", DataType::Utf8, cells(&[1]));
    let groups: GroupIndices = vec![vec![0]];
    let r = s.windowed_sum(Some(&groups));
    assert!(matches!(r, Err(asof_window::error::DaftError::TypeError(_))));
}

#[test]
fn windowed_sum_widens_to_accumulation_type() {
    let s = series("v", DataType::Int8, cells(&[1, 2]));
    let groups: GroupIndices = vec![vec![0, 1]];
    let r = s.windowed_sum(Some(&groups)).unwrap();
    assert_eq!(r.dtype, DataType::Int64);
    assert_eq!(r.values, vec![Some(1), Some(3)]);
}

// As-of search with exact matches disallowed: left value 5 against sorted
// right values [3,5,7] matches the position of 3, not 5.
#[test]
fn asof_search_strictly_less() {
    let arr: Vec<usize> = vec![0, 1, 2];
    let right = cells(&[3, 5, 7]);
    assert_eq!(asof_search(&arr, &right, Some(5), false), Some(0));
}

// With exact matches allowed the same probe matches the position of 5.
#[test]
fn asof_search_allows_ties() {
    let arr: Vec<usize> = vec![0, 1, 2];
    let right = cells(&[3, 5, 7]);
    assert_eq!(asof_search(&arr, &right, Some(5), true), Some(1));
}

#[test]
fn asof_search_no_eligible_position() {
    let arr: Vec<usize> = vec![0, 1, 2];
    let right = cells(&[3, 5, 7]);
    assert_eq!(asof_search(&arr, &right, Some(2), true), None);
}

#[test]
fn asof_search_null_left_is_no_match() {
    let arr: Vec<usize> = vec![0, 1];
    let right = cells(&[3, 5]);
    assert_eq!(asof_search(&arr, &right, None, true), None);
}

#[test]
fn search_sorted_lower_and_upper() {
    let vals = cells(&[1, 3, 3, 5]);
    let idxs: Vec<usize> = vec![0, 1, 2, 3];
    // insert before the first not-less element
    assert_eq!(search_sorted_group(&vals, &idxs, 3, false, true), 1);
    // insert before the first not-less-or-equal element (ties included)
    assert_eq!(search_sorted_group(&vals, &idxs, 3, false, false), 3);
}

#[test]
fn search_sorted_descending() {
    let vals = cells(&[5, 3, 1]);
    let idxs: Vec<usize> = vec![0, 1, 2];
    assert_eq!(search_sorted_group(&vals, &idxs, 3, true, true), 1);
    assert_eq!(search_sorted_group(&vals, &idxs, 3, true, false), 2);
}

// Cumulative sums of non-negative inputs never decrease, and the first
// row of a group carries its own value.
#[test]
fn cumulative_sum_monotone_non_negative() {
    let out = grouped_cum_sum(&cells(&[3, 0, 2, 5]), &one_group(4));
    assert_eq!(out[0], Some(3));
    for k in 1..out.len() {
        assert!(out[k - 1].unwrap() <= out[k].unwrap());
    }
}
