//! Order-preserving binary searches: insertion-position resolution for
//! range-framed windows (in either sort direction), and the nearest-match
//! search of the as-of join.

use vstd::prelude::*;
use crate::sum::group_in_bounds;

verus! {

/// The value carried by a cell, with null mapped to zero; the searches are
/// only ever applied to columns whose relevant cells are non-null.
pub open spec fn unwrap_cell(c: Option<i128>) -> i128 {
    match c {
        Some(v) => v,
        None => 0,
    }
}

/// Value of the ordering column at position `k` of a group.
pub open spec fn oval(cells: Seq<Option<i128>>, idxs: Seq<usize>, k: int) -> int {
    unwrap_cell(cells[idxs[k] as int]) as int
}

pub open spec fn group_nonnull(cells: Seq<Option<i128>>, idxs: Seq<usize>) -> bool {
    forall|k: int| 0 <= k < idxs.len() ==> cells[(#[trigger] idxs[k]) as int] is Some
}

pub open spec fn group_sorted_asc(cells: Seq<Option<i128>>, idxs: Seq<usize>) -> bool {
    forall|k1: int, k2: int|
        0 <= k1 <= k2 < idxs.len() ==> #[trigger] oval(cells, idxs, k1) <= #[trigger] oval(
            cells,
            idxs,
            k2,
        )
}

pub open spec fn group_sorted_desc(cells: Seq<Option<i128>>, idxs: Seq<usize>) -> bool {
    forall|k1: int, k2: int|
        0 <= k1 <= k2 < idxs.len() ==> #[trigger] oval(cells, idxs, k1) >= #[trigger] oval(
            cells,
            idxs,
            k2,
        )
}

pub open spec fn group_sorted(cells: Seq<Option<i128>>, idxs: Seq<usize>, descending: bool) -> bool {
    if descending {
        group_sorted_desc(cells, idxs)
    } else {
        group_sorted_asc(cells, idxs)
    }
}

/// Whether an ordering value `v` lies strictly before the insertion edge
/// for target `t`: the lower edge ("insert before first not-less") keeps
/// strictly smaller values on the left, the upper edge ("insert before
/// first not-less-or-equal") also keeps ties on the left. The direction is
/// mirrored for a descending ordering.
pub open spec fn before_edge(v: int, t: int, descending: bool, side_left: bool) -> bool {
    if descending {
        if side_left {
            v > t
        } else {
            v >= t
        }
    } else {
        if side_left {
            v < t
        } else {
            v <= t
        }
    }
}

/// Binary search for the insertion position of `target` within the
/// ordering values of one group, which must be sorted according to
/// `descending`. Returns the unique edge position: everything before it
/// lies strictly on the near side of the target, nothing after it does.
pub fn search_sorted_group(
    values: &Vec<Option<i128>>,
    idxs: &Vec<usize>,
    target: i128,
    descending: bool,
    side_left: bool,
) -> (r: usize)
    requires
        group_in_bounds(idxs@, values@.len() as int),
        group_sorted(values@, idxs@, descending),
    ensures
        r <= idxs@.len(),
        forall|k: int|
            0 <= k < r ==> before_edge(oval(values@, idxs@, k), target as int, descending, side_left),
        forall|k: int|
            r <= k < idxs@.len() ==> !before_edge(
                oval(values@, idxs@, k),
                target as int,
                descending,
                side_left,
            ),
        r == edge_count(
            values@,
            idxs@,
            target as int,
            descending,
            side_left,
            idxs@.len() as int,
        ),
        is_edge(values@, idxs@, target as int, descending, side_left, r as int),
{
    let glen = idxs.len();
    let mut l: usize = 0;
    let mut u: usize = glen;
    while l < u
        invariant
            group_in_bounds(idxs@, values@.len() as int),
            group_sorted(values@, idxs@, descending),
            glen == idxs@.len(),
            0 <= l <= u <= glen,
            forall|k: int|
                0 <= k < l ==> before_edge(
                    oval(values@, idxs@, k),
                    target as int,
                    descending,
                    side_left,
                ),
            forall|k: int|
                u <= k < glen ==> !before_edge(
                    oval(values@, idxs@, k),
                    target as int,
                    descending,
                    side_left,
                ),
        decreases u - l,
    {
        let mid = l + (u - l) / 2;
        let v: i128 = match values[idxs[mid]] {
            Some(x) => x,
            None => 0,
        };
        let is_before: bool = if descending {
            if side_left {
                v > target
            } else {
                v >= target
            }
        } else {
            if side_left {
                v < target
            } else {
                v <= target
            }
        };
        proof {
            assert(v == oval(values@, idxs@, mid as int));
        }
        if is_before {
            proof {
                assert forall|k: int| 0 <= k < mid + 1 implies before_edge(
                    oval(values@, idxs@, k),
                    target as int,
                    descending,
                    side_left,
                ) by {
                    if k >= l {
                        assert(if descending {
                            oval(values@, idxs@, k) >= oval(values@, idxs@, mid as int)
                        } else {
                            oval(values@, idxs@, k) <= oval(values@, idxs@, mid as int)
                        });
                    }
                }
            }
            l = mid + 1;
        } else {
            proof {
                assert forall|k: int| mid <= k < glen implies !before_edge(
                    oval(values@, idxs@, k),
                    target as int,
                    descending,
                    side_left,
                ) by {
                    if k < u {
                        assert(if descending {
                            oval(values@, idxs@, mid as int) >= oval(values@, idxs@, k)
                        } else {
                            oval(values@, idxs@, mid as int) <= oval(values@, idxs@, k)
                        });
                    }
                }
            }
            u = mid;
        }
    }
    proof {
        lemma_edge_prefix_count(
            values@,
            idxs@,
            target as int,
            descending,
            side_left,
            l as int,
            idxs@.len() as int,
        );
    }
    l
}

/// Eligibility of candidate position `j` of the probe list for an as-of
/// match: the right ordering value must be non-null and lie at or strictly
/// below the left value, depending on `allow` (exact ties allowed or not).
/// A null on either side is incomparable and never eligible.
pub open spec fn asof_eligible(
    cells: Seq<Option<i128>>,
    arr: Seq<usize>,
    j: int,
    l: i128,
    allow: bool,
) -> bool {
    cells[arr[j] as int] matches Some(rv) && (if allow {
        rv <= l
    } else {
        rv < l
    })
}

/// Number of eligible positions among the first `n` entries of the list.
pub open spec fn asof_eligible_count(
    cells: Seq<Option<i128>>,
    arr: Seq<usize>,
    l: i128,
    allow: bool,
    n: int,
) -> int
    decreases n,
{
    if n <= 0 {
        0
    } else {
        asof_eligible_count(cells, arr, l, allow, n - 1) + if asof_eligible(
            cells,
            arr,
            n - 1,
            l,
            allow,
        ) {
            1int
        } else {
            0int
        }
    }
}

/// When the eligible positions form a prefix of length `e`, the eligible
/// count over the whole list is exactly `e`.
proof fn lemma_eligible_prefix_count(
    cells: Seq<Option<i128>>,
    arr: Seq<usize>,
    l: i128,
    allow: bool,
    e: int,
    n: int,
)
    requires
        0 <= e <= n,
        forall|j: int| 0 <= j < e ==> asof_eligible(cells, arr, j, l, allow),
        forall|j: int| e <= j < n ==> !asof_eligible(cells, arr, j, l, allow),
    ensures
        asof_eligible_count(cells, arr, l, allow, n) == e,
    decreases n,
{
    if n > e {
        lemma_eligible_prefix_count(cells, arr, l, allow, e, n - 1);
    } else if n > 0 {
        lemma_eligible_prefix_count(cells, arr, l, allow, e - 1, n - 1);
    }
}

/// Nearest-match search of the as-of join: given the list of right-row
/// positions sharing the left row's equality key, sorted by the right
/// ordering column (all non-null), find the rightmost eligible position
/// under `allow_exact_matches`. Absence of any eligible position, or an
/// incomparable (null) left value, resolves to no match.
pub fn asof_search(
    arr: &Vec<usize>,
    right_values: &Vec<Option<i128>>,
    left_value: Option<i128>,
    allow_exact_matches: bool,
) -> (r: Option<usize>)
    requires
        group_in_bounds(arr@, right_values@.len() as int),
        group_nonnull(right_values@, arr@),
        group_sorted_asc(right_values@, arr@),
    ensures
        left_value is None ==> r is None,
        left_value matches Some(l) ==> ({
            let c = asof_eligible_count(
                right_values@,
                arr@,
                l,
                allow_exact_matches,
                arr@.len() as int,
            );
            &&& (c == 0 ==> r is None)
            &&& (c > 0 ==> r == Some(arr@[c - 1]))
            &&& forall|j: int| 0 <= j < c ==> asof_eligible(right_values@, arr@, j, l, allow_exact_matches)
            &&& forall|j: int|
                c <= j < arr@.len() ==> !asof_eligible(right_values@, arr@, j, l, allow_exact_matches)
        }),
{
    let l_val: i128 = match left_value {
        Some(v) => v,
        None => {
            return None;
        },
    };
    let edge = search_sorted_group(right_values, arr, l_val, false, !allow_exact_matches);
    proof {
        assert forall|j: int| 0 <= j < edge implies asof_eligible(
            right_values@,
            arr@,
            j,
            l_val,
            allow_exact_matches,
        ) by {
            assert(before_edge(oval(right_values@, arr@, j), l_val as int, false,
                !allow_exact_matches));
            assert(arr@[j] < right_values@.len());
            assert(right_values@[arr@[j] as int] is Some);
        }
        assert forall|j: int| edge <= j < arr@.len() implies !asof_eligible(
            right_values@,
            arr@,
            j,
            l_val,
            allow_exact_matches,
        ) by {
            assert(!before_edge(oval(right_values@, arr@, j), l_val as int, false,
                !allow_exact_matches));
            assert(arr@[j] < right_values@.len());
            assert(right_values@[arr@[j] as int] is Some);
        }
        lemma_eligible_prefix_count(
            right_values@,
            arr@,
            l_val,
            allow_exact_matches,
            edge as int,
            arr@.len() as int,
        );
    }
    if edge == 0 {
        None
    } else {
        Some(arr[edge - 1])
    }
}

/// `pos` is the insertion edge for target `t`: everything before it lies
/// strictly on the near side, nothing after it does.
pub open spec fn is_edge(
    cells: Seq<Option<i128>>,
    idxs: Seq<usize>,
    t: int,
    descending: bool,
    side_left: bool,
    pos: int,
) -> bool {
    &&& 0 <= pos <= idxs.len()
    &&& forall|k: int| 0 <= k < pos ==> before_edge(oval(cells, idxs, k), t, descending, side_left)
    &&& forall|k: int|
        pos <= k < idxs.len() ==> !before_edge(oval(cells, idxs, k), t, descending, side_left)
}

/// Number of positions among the first `n` of the group whose ordering
/// value lies before the insertion edge for target `t`. For a sorted
/// group this is exactly the insertion position.
pub open spec fn edge_count(
    cells: Seq<Option<i128>>,
    idxs: Seq<usize>,
    t: int,
    descending: bool,
    side_left: bool,
    n: int,
) -> int
    decreases n,
{
    if n <= 0 {
        0
    } else {
        edge_count(cells, idxs, t, descending, side_left, n - 1) + if before_edge(
            oval(cells, idxs, n - 1),
            t,
            descending,
            side_left,
        ) {
            1int
        } else {
            0int
        }
    }
}

/// When the before-edge positions form a prefix of length `e`, the count
/// over the whole group is exactly `e`.
pub proof fn lemma_edge_prefix_count(
    cells: Seq<Option<i128>>,
    idxs: Seq<usize>,
    t: int,
    descending: bool,
    side_left: bool,
    e: int,
    n: int,
)
    requires
        0 <= e <= n,
        forall|k: int| 0 <= k < e ==> before_edge(oval(cells, idxs, k), t, descending, side_left),
        forall|k: int|
            e <= k < n ==> !before_edge(oval(cells, idxs, k), t, descending, side_left),
    ensures
        edge_count(cells, idxs, t, descending, side_left, n) == e,
    decreases n,
{
    if n > e {
        lemma_edge_prefix_count(cells, idxs, t, descending, side_left, e, n - 1);
    } else if n > 0 {
        lemma_edge_prefix_count(cells, idxs, t, descending, side_left, e - 1, n - 1);
    }
}

/// Insertion positions move with their targets: a target no further along
/// the sort direction cannot land at a later edge.
pub proof fn lemma_edge_monotone(
    cells: Seq<Option<i128>>,
    idxs: Seq<usize>,
    t1: int,
    t2: int,
    descending: bool,
    side_left: bool,
    p1: int,
    p2: int,
)
    requires
        is_edge(cells, idxs, t1, descending, side_left, p1),
        is_edge(cells, idxs, t2, descending, side_left, p2),
        if descending {
            t1 >= t2
        } else {
            t1 <= t2
        },
    ensures
        p1 <= p2,
{
    if p1 > p2 {
        let k = p2;
        assert(before_edge(oval(cells, idxs, k), t1, descending, side_left));
        assert(!before_edge(oval(cells, idxs, k), t2, descending, side_left));
    }
}


pub proof fn lemma_asof_count_range(
    cells: Seq<Option<i128>>,
    arr: Seq<usize>,
    l: i128,
    allow: bool,
    n: int,
)
    requires
        n >= 0,
    ensures
        0 <= asof_eligible_count(cells, arr, l, allow, n) <= n,
    decreases n,
{
    if n > 0 {
        lemma_asof_count_range(cells, arr, l, allow, n - 1);
    }
}


} // verus!
