//! The group index builder: partitions row positions into an ordered
//! collection of groups of rows with equal key tuples, under SQL-null-aware
//! equality (null equals null for grouping purposes). Groups appear in
//! first-occurrence order and each group lists its rows in ascending
//! (original) order.

use vstd::prelude::*;
use crate::series::GroupIndices;
use crate::sum::{group_in_bounds, groups_in_bounds};
use crate::table::Table;

verus! {

/// The cells of a table's columns, as a matrix of column cell sequences.
pub open spec fn key_matrix(t: Table) -> Seq<Seq<Option<i128>>> {
    t.columns@.map(|_c: int, s: crate::series::Series| s.values@)
}

/// The key tuple of row `r` of a column matrix: one cell per column.
pub open spec fn mrow_key(cols: Seq<Seq<Option<i128>>>, r: int) -> Seq<Option<i128>> {
    Seq::new(cols.len(), |c: int| cols[c][r])
}

pub open spec fn mrows_equal(
    ca: Seq<Seq<Option<i128>>>,
    ra: int,
    cb: Seq<Seq<Option<i128>>>,
    rb: int,
) -> bool {
    mrow_key(ca, ra) == mrow_key(cb, rb)
}

/// The key tuple of row `r`: one cell per column.
pub open spec fn row_key(t: Table, r: int) -> Seq<Option<i128>> {
    mrow_key(key_matrix(t), r)
}

/// Null-aware row equality across two tables (used by the grouping when
/// both sides are the same table, and by the as-of probe when they are
/// not).
pub open spec fn rows_equal(ta: Table, ra: int, tb: Table, rb: int) -> bool {
    row_key(ta, ra) == row_key(tb, rb)
}

/// Row positions strictly increasing within a group.
pub open spec fn group_ascending(idxs: Seq<usize>) -> bool {
    forall|k1: int, k2: int| 0 <= k1 < k2 < idxs.len() ==> #[trigger] idxs[k1] < #[trigger] idxs[k2]
}

/// Every row of the group carries the same key as its first row.
pub open spec fn m_group_same_key(cols: Seq<Seq<Option<i128>>>, idxs: Seq<usize>) -> bool {
    forall|k: int|
        0 <= k < idxs.len() ==> mrows_equal(cols, idxs[0] as int, cols, (#[trigger] idxs[k]) as int)
}

pub open spec fn group_same_key(t: Table, idxs: Seq<usize>) -> bool {
    m_group_same_key(key_matrix(t), idxs)
}

/// Row `r` appears somewhere in the grouping.
pub open spec fn covered(gs: Seq<Vec<usize>>, r: int) -> bool {
    exists|g: int, k: int| 0 <= g < gs.len() && 0 <= k < gs[g]@.len() && gs[g]@[k] == r
}

/// Distinct groups carry distinct keys (witnessed by their first rows).
pub open spec fn m_reps_distinct(cols: Seq<Seq<Option<i128>>>, gs: Seq<Vec<usize>>) -> bool {
    forall|g1: int, g2: int|
        0 <= g1 < g2 < gs.len() ==> !mrows_equal(
            cols,
            (#[trigger] gs[g1])@[0] as int,
            cols,
            (#[trigger] gs[g2])@[0] as int,
        )
}

pub open spec fn reps_distinct(t: Table, gs: Seq<Vec<usize>>) -> bool {
    m_reps_distinct(key_matrix(t), gs)
}

/// Groups are emitted in order of their first occurrence.
pub open spec fn first_occurrence_order(gs: Seq<Vec<usize>>) -> bool {
    forall|g1: int, g2: int|
        0 <= g1 < g2 < gs.len() ==> (#[trigger] gs[g1])@[0] < (#[trigger] gs[g2])@[0]
}

/// All row positions of one group lie below `n`.
pub open spec fn group_below(idxs: Seq<usize>, n: int) -> bool {
    forall|k: int| 0 <= k < idxs.len() ==> (#[trigger] idxs[k]) < n
}

pub open spec fn groups_below(gs: Seq<Vec<usize>>, n: int) -> bool {
    forall|g: int| 0 <= g < gs.len() ==> group_below((#[trigger] gs[g])@, n)
}

/// A complete, well-formed grouping of `nrows` rows keyed by a column
/// matrix: non-empty groups of ascending positions, equal keys inside a
/// group, distinct keys across groups, every row covered, and groups
/// ordered by first occurrence.
pub open spec fn m_valid_grouping(
    cols: Seq<Seq<Option<i128>>>,
    nrows: int,
    gs: Seq<Vec<usize>>,
) -> bool {
    &&& groups_below(gs, nrows)
    &&& forall|g: int| 0 <= g < gs.len() ==> (#[trigger] gs[g])@.len() > 0
    &&& forall|g: int| 0 <= g < gs.len() ==> group_ascending((#[trigger] gs[g])@)
    &&& forall|g: int| 0 <= g < gs.len() ==> m_group_same_key(cols, (#[trigger] gs[g])@)
    &&& m_reps_distinct(cols, gs)
    &&& forall|r: int| 0 <= r < nrows ==> covered(gs, r)
    &&& first_occurrence_order(gs)
}

/// The table form of `m_valid_grouping`, keyed by all of `t`'s columns.
pub open spec fn valid_grouping(t: Table, gs: Seq<Vec<usize>>) -> bool {
    m_valid_grouping(key_matrix(t), t.spec_num_rows(), gs)
}

/// Null-aware comparison of one row of `ta` against one row of `tb`.
pub fn rows_eq(ta: &Table, a: usize, tb: &Table, b: usize) -> (r: bool)
    requires
        ta.wf(),
        tb.wf(),
        a < ta.spec_num_rows(),
        b < tb.spec_num_rows(),
    ensures
        r == rows_equal(*ta, a as int, *tb, b as int),
{
    let n = ta.columns.len();
    if n != tb.columns.len() {
        proof {
            assert(row_key(*ta, a as int).len() != row_key(*tb, b as int).len());
        }
        return false;
    }
    let mut c: usize = 0;
    while c < n
        invariant
            ta.wf(),
            tb.wf(),
            a < ta.spec_num_rows(),
            b < tb.spec_num_rows(),
            n == ta.columns@.len(),
            n == tb.columns@.len(),
            0 <= c <= n,
            forall|cc: int|
                0 <= cc < c ==> (#[trigger] ta.columns@[cc]).values@[a as int]
                    == tb.columns@[cc].values@[b as int],
        decreases n - c,
    {
        let x = ta.columns[c].values[a];
        let y = tb.columns[c].values[b];
        let eq = match (x, y) {
            (None, None) => true,
            (Some(u), Some(v)) => u == v,
            _ => false,
        };
        if !eq {
            proof {
                assert(row_key(*ta, a as int)[c as int] != row_key(*tb, b as int)[c as int]);
            }
            return false;
        }
        c = c + 1;
    }
    proof {
        assert(row_key(*ta, a as int) =~= row_key(*tb, b as int));
    }
    true
}

/// Scans group representatives for the first one whose key equals row `r`
/// of `t` (a full equality check; nothing is trusted to a hash).
fn find_group(t: &Table, reps: &Vec<usize>, r: usize) -> (res: Option<usize>)
    requires
        t.wf(),
        r < t.spec_num_rows(),
        group_below(reps@, t.spec_num_rows()),
    ensures
        res matches Some(gi) ==> gi < reps@.len() && rows_equal(
            *t,
            r as int,
            *t,
            reps@[gi as int] as int,
        ),
        res is None ==> forall|g: int|
            0 <= g < reps@.len() ==> !rows_equal(*t, r as int, *t, (#[trigger] reps@[g]) as int),
    {
    let n = reps.len();
    let mut gi: usize = 0;
    while gi < n
        invariant
            t.wf(),
            r < t.spec_num_rows(),
            group_below(reps@, t.spec_num_rows()),
            n == reps@.len(),
            0 <= gi <= n,
            forall|g: int|
                0 <= g < gi ==> !rows_equal(*t, r as int, *t, (#[trigger] reps@[g]) as int),
        decreases n - gi,
    {
        if rows_eq(t, r, t, reps[gi]) {
            return Some(gi);
        }
        gi = gi + 1;
    }
    None
}

impl Table {
    /// Partitions this table's row positions by equal key tuples. Returns
    /// the table of unique keys (one row per group, in group order) and
    /// the ordered collection of groups.
    pub fn make_groups(&self) -> (r: (Table, GroupIndices))
        requires
            self.wf(),
        ensures
            valid_grouping(*self, r.1@),
            groups_in_bounds(r.1@, self.spec_num_rows()),
            r.0.wf(),
            r.0.schema.fields@ == self.schema.fields@,
            r.0.columns@.len() == self.columns@.len(),
            self.columns@.len() > 0 ==> r.0.spec_num_rows() == r.1@.len(),
            forall|g: int, c: int|
                0 <= g < r.1@.len() && 0 <= c < self.columns@.len() ==> (
                #[trigger] r.0.columns@[c].values@[g]) == self.columns@[c].values@[r.1@[g]@[0] as int],
    {
        let nrows = self.num_rows();
        let mut groups: GroupIndices = Vec::new();
        let mut reps: Vec<usize> = Vec::new();
        let mut r: usize = 0;
        while r < nrows
            invariant
                self.wf(),
                nrows == self.spec_num_rows(),
                0 <= r <= nrows,
                reps@.len() == groups@.len(),
                forall|g: int| 0 <= g < groups@.len() ==> (#[trigger] groups@[g])@.len() > 0,
                forall|g: int|
                    0 <= g < groups@.len() ==> (#[trigger] reps@[g]) == groups@[g]@[0],
                groups_below(groups@, r as int),
                forall|g: int| 0 <= g < groups@.len() ==> group_ascending((#[trigger] groups@[g])@),
                forall|g: int| 0 <= g < groups@.len() ==> group_same_key(*self, (#[trigger] groups@[g])@),
                reps_distinct(*self, groups@),
                forall|r2: int| 0 <= r2 < r ==> covered(groups@, r2),
                first_occurrence_order(groups@),
            decreases nrows - r,
        {
            let ghost old_groups = groups@;
            match find_group(self, &reps, r) {
                Some(gi) => {
                    groups[gi].push(r);
                    proof {
                        let gnew = groups@[gi as int]@;
                        let gold = old_groups[gi as int]@;
                        assert(gnew =~= gold.push(r));
                        assert(groups@[gi as int]@[0] == gold[0]);
                        assert forall|g: int|
                            0 <= g < groups@.len() && g != gi implies groups@[g] == old_groups[g] by {}
                        // the freshly appended row keeps the group ascending
                        assert forall|k1: int, k2: int|
                            0 <= k1 < k2 < gnew.len() implies #[trigger] gnew[k1] < #[trigger] gnew[k2] by {
                            if k2 == gnew.len() - 1 {
                                assert(gold[k1] < r);
                            }
                        }
                        // and carries the group's key
                        assert forall|k: int|
                            0 <= k < gnew.len() implies rows_equal(
                            *self,
                            gnew[0] as int,
                            *self,
                            (#[trigger] gnew[k]) as int,
                        ) by {
                            if k == gnew.len() - 1 {
                                assert(rows_equal(*self, r as int, *self, reps@[gi as int] as int));
                            }
                        }
                        // previously covered rows stay covered
                        assert forall|r2: int| 0 <= r2 < r + 1 implies covered(groups@, r2) by {
                            if r2 == r {
                                assert(groups@[gi as int]@[gnew.len() - 1] == r);
                            } else {
                                assert(covered(old_groups, r2));
                                let (g, k): (int, int) = choose|g: int, k: int|
                                    0 <= g < old_groups.len() && 0 <= k < old_groups[g]@.len()
                                        && old_groups[g]@[k] == r2;
                                if g == gi {
                                    assert(groups@[g]@[k] == old_groups[g]@[k]);
                                    assert(groups@[g]@[k] == r2);
                                } else {
                                    assert(groups@[g]@[k] == r2);
                                }
                            }
                        }
                    }
                },
                None => {
                    let mut fresh: Vec<usize> = Vec::new();
                    fresh.push(r);
                    groups.push(fresh);
                    reps.push(r);
                    proof {
                        assert(groups@.len() == old_groups.len() + 1);
                        assert forall|g: int|
                            0 <= g < old_groups.len() implies groups@[g] == old_groups[g] by {}
                        assert(groups@[groups@.len() - 1]@ =~= seq![r]);
                        // earlier rows keep their witnesses; row r sits in the new group
                        assert forall|r2: int| 0 <= r2 < r + 1 implies covered(groups@, r2) by {
                            if r2 == r {
                                assert(groups@[groups@.len() - 1]@[0] == r);
                            } else {
                                assert(covered(old_groups, r2));
                                let (g, k): (int, int) = choose|g: int, k: int|
                                    0 <= g < old_groups.len() && 0 <= k < old_groups[g]@.len()
                                        && old_groups[g]@[k] == r2;
                                assert(groups@[g]@[k] == r2);
                            }
                        }
                        // the new representative differs from every earlier one and
                        // came later
                        assert forall|g1: int, g2: int|
                            0 <= g1 < g2 < groups@.len() implies !rows_equal(
                            *self,
                            (#[trigger] groups@[g1])@[0] as int,
                            *self,
                            (#[trigger] groups@[g2])@[0] as int,
                        ) by {
                            if g2 == groups@.len() - 1 {
                                assert(!rows_equal(*self, r as int, *self, reps@[g1] as int));
                            }
                        }
                        assert forall|g1: int, g2: int|
                            0 <= g1 < g2 < groups@.len() implies (#[trigger] groups@[g1])@[0] < (
                            #[trigger] groups@[g2])@[0] by {
                            if g2 == groups@.len() - 1 {
                                assert(groups@[g1]@[0] < r);
                            }
                        }
                    }
                },
            }
            r = r + 1;
        }
        let keys = self.take(&reps);
        proof {
            assert forall|g: int, c: int|
                0 <= g < groups@.len() && 0 <= c < self.columns@.len() implies (
            #[trigger] keys.columns@[c].values@[g]) == self.columns@[c].values@[groups@[g]@[0] as int] by {
                assert(keys.columns@[c].values@ == reps@.map(
                    |_k: int, row: usize| self.columns@[c].values@[row as int],
                ));
            }
        }
        (keys, groups)
    }
}

} // verus!
