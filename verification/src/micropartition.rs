//! Micropartitions: a batch of same-schema tables with optional summary
//! statistics. The window and as-of join entry points concatenate the
//! batch, optionally prune an as-of join whose statistics rule every
//! match out, and delegate to the table-level algorithms.
//!
//! Only the backward as-of join and the window dispatch live at this
//! layer. General equality joins (hash or sort-merge) and the forward and
//! nearest as-of directions are outside this layer's scope: the former
//! belong to a different operator family, and the latter are a declared
//! extension surface with no executing algorithm.

use vstd::prelude::*;
use vstd::string::*;
use crate::asof::{asof_join_ok, asof_join_inputs_ok, asof_right_sorted, asof_schema_inputs_ok,
    asof_schema_ok, infer_asof_schema};
use crate::error::{DaftError, DaftResult};
use crate::expr::{Expr, WindowSpec};
use crate::flat::{concat_blocks, lemma_concat_blocks_len_eq};
use crate::schema::Schema;
use crate::series::Series;
use crate::stats::{ColumnStats, TableStats, TruthValue, spec_expr_stats, spec_ranges_disjoint};
use crate::table::Table;
use crate::table_window::{cumulative_windowed, row_windowed, range_windowed, window_inputs_fit,
    range_order_ok};

verus! {

/// The cells of column `c` across a batch of tables, in batch order.
pub open spec fn concat_cells(tables: Seq<Table>, c: int) -> Seq<Option<i128>> {
    concat_blocks(tables.len() as int, |t: int| tables[t].columns@[c].values@)
}

/// `ct` is the concatenation of the batch under the partition's schema.
pub open spec fn table_is_concat(schema: Schema, tables: Seq<Table>, ct: Table) -> bool {
    &&& ct.wf()
    &&& ct.schema.fields@ == schema.fields@
    &&& forall|c: int|
        0 <= c < ct.columns@.len() ==> (#[trigger] ct.columns@[c]).values@ == concat_cells(
            tables,
            c,
        )
}

#[derive(Debug)]
pub struct MicroPartition {
    pub schema: Schema,
    pub tables: Vec<Table>,
    pub statistics: Option<TableStats>,
}

impl MicroPartition {
    pub open spec fn wf(self) -> bool {
        &&& self.schema.wf()
        &&& forall|t: int|
            0 <= t < self.tables@.len() ==> (#[trigger] self.tables@[t]).wf()
                && self.tables@[t].schema.fields@ == self.schema.fields@
    }

    pub fn new_loaded(schema: Schema, tables: Vec<Table>, statistics: Option<TableStats>) -> (r:
        MicroPartition)
        ensures
            r.schema == schema,
            r.tables == tables,
            r.statistics == statistics,
    {
        MicroPartition { schema, tables, statistics }
    }

    /// Concatenates the batch into one table (an empty batch yields the
    /// empty table of the partition's schema).
    fn concat_or_get(&self) -> (ct: Table)
        requires
            self.wf(),
        ensures
            table_is_concat(self.schema, self.tables@, ct),
    {
        let nf = self.schema.fields.len();
        let nt = self.tables.len();
        let mut columns: Vec<Series> = Vec::new();
        let mut c: usize = 0;
        while c < nf
            invariant
                self.wf(),
                nf == self.schema.fields@.len(),
                nt == self.tables@.len(),
                0 <= c <= nf,
                columns@.len() == c,
                forall|a: int|
                    0 <= a < c ==> (#[trigger] columns@[a]).values@ == concat_cells(
                        self.tables@,
                        a,
                    ) && columns@[a].name@ == self.schema.fields@[a].name@ && columns@[a].dtype
                        == self.schema.fields@[a].dtype,
            decreases nf - c,
        {
            let ghost blocks: spec_fn(int) -> Seq<Option<i128>> = |t: int|
                self.tables@[t].columns@[c as int].values@;
            let mut cells: Vec<Option<i128>> = Vec::new();
            let mut t: usize = 0;
            while t < nt
                invariant
                    self.wf(),
                    nf == self.schema.fields@.len(),
                    nt == self.tables@.len(),
                    c < nf,
                    0 <= t <= nt,
                    blocks == (|t2: int| self.tables@[t2].columns@[c as int].values@),
                    cells@ == concat_blocks(t as int, blocks),
                decreases nt - t,
            {
                proof {
                    assert(self.tables@[t as int].wf());
                    assert(self.tables@[t as int].columns@.len() == nf);
                }
                let mut block = crate::series::copy_cells(&self.tables[t].columns[c].values);
                cells.append(&mut block);
                proof {
                    assert(cells@ == concat_blocks(t + 1 as int, blocks));
                }
                t = t + 1;
            }
            columns.push(
                Series {
                    name: self.schema.fields[c].name.clone(),
                    dtype: self.schema.fields[c].dtype,
                    values: cells,
                },
            );
            c = c + 1;
        }
        proof {
            assert forall|a: int|
                0 <= a < columns@.len() implies (#[trigger] columns@[a]).spec_len()
                == columns@[0].spec_len() by {
                if columns@.len() > 0 {
                    lemma_concat_blocks_len_eq(
                        self.tables@.len() as int,
                        |t2: int| self.tables@[t2].columns@[a].values@,
                        |t2: int| self.tables@[t2].columns@[0].values@,
                    );
                }
            }
        }
        let ct = Table { schema: self.schema.duplicate(), columns };
        ct
    }

    /// Whether the batch holds no rows at all (a partition without
    /// columns holds none).
    pub fn is_empty(&self) -> (r: bool)
        requires
            self.wf(),
        ensures
            r == (concat_cells(self.tables@, 0).len() == 0 || self.schema.fields@.len() == 0),
    {
        let nt = self.tables.len();
        let mut t: usize = 0;
        if self.schema.fields.len() == 0 {
            return true;
        }
        while t < nt
            invariant
                self.wf(),
                nt == self.tables@.len(),
                self.schema.fields@.len() > 0,
                0 <= t <= nt,
                concat_blocks(t as int, |t2: int| self.tables@[t2].columns@[0].values@).len() == 0,
            decreases nt - t,
        {
            proof {
                assert(self.tables@[t as int].wf());
            }
            if self.tables[t].num_rows() > 0 {
                proof {
                    crate::flat::lemma_concat_blocks_index(
                        nt as int,
                        |t2: int| self.tables@[t2].columns@[0].values@,
                        t as int,
                        0,
                    );
                }
                return false;
            }
            proof {
                assert(concat_blocks(t + 1 as int, |t2: int| self.tables@[t2].columns@[0].values@)
                    =~= concat_blocks(t as int, |t2: int| self.tables@[t2].columns@[0].values@));
            }
            t = t + 1;
        }
        true
    }
}

/// The batch holds no rows (or no columns) at all.
pub open spec fn mp_is_empty(mp: MicroPartition) -> bool {
    concat_cells(mp.tables@, 0).len() == 0 || mp.schema.fields@.len() == 0
}

/// The statistics of both sides conclusively rule out every on-key
/// equality: some key pair's recorded ranges are disjoint.
pub open spec fn spec_asof_prune(
    lst: Option<TableStats>,
    rst: Option<TableStats>,
    lschema: Schema,
    rschema: Schema,
    left_on: Seq<Expr>,
    right_on: Seq<Expr>,
) -> bool {
    lst matches Some(ls) && rst matches Some(rs) && (exists|p: int|
        0 <= p < left_on.len() && p < right_on.len() && spec_ranges_disjoint(
            spec_expr_stats(ls, lschema, #[trigger] left_on[p]),
            spec_expr_stats(rs, rschema, right_on[p]),
        ))
}

impl MicroPartition {
    /// The as-of join over micropartitions: infer the output schema,
    /// short-circuit when either side is empty or the statistics prove
    /// the join empty, otherwise concatenate both batches and run the
    /// table-level matcher.
    pub fn hash_asof_join(
        &self,
        right: &MicroPartition,
        left_on: &Vec<Expr>,
        right_on: &Vec<Expr>,
        left_by: &Vec<Expr>,
        right_by: &Vec<Expr>,
        allow_exact_matches: bool,
    ) -> (r: DaftResult<MicroPartition>)
        requires
            self.wf(),
            right.wf(),
            left_on@.len() >= 1,
            forall|rt: Table|
                #[trigger] table_is_concat(right.schema, right.tables@, rt) ==> asof_right_sorted(
                    rt,
                    right_on@,
                ),
        ensures
            left_on@.len() != right_on@.len() ==> (r matches Err(e) && e is ValueError),
            r matches Ok(mp) ==> mp.tables@.len() == 1 && mp.tables@[0].wf()
                && mp.schema.fields@ == mp.tables@[0].schema.fields@,
            mp_is_empty(*self) || mp_is_empty(*right) || spec_asof_prune(
                self.statistics,
                right.statistics,
                self.schema,
                right.schema,
                left_on@,
                right_on@,
            ) ==> (r matches Ok(mp) ==> mp.tables@[0].spec_num_rows() == 0 && asof_schema_ok(
                self.schema.fields@,
                right.schema.fields@,
                left_on@,
                right_on@,
                left_by@,
                right_by@,
                mp.tables@[0].schema.fields@,
            )),
            !mp_is_empty(*self) && !mp_is_empty(*right) && !spec_asof_prune(
                self.statistics,
                right.statistics,
                self.schema,
                right.schema,
                left_on@,
                right_on@,
            ) ==> (r matches Ok(mp) ==> (exists|lt: Table, rt: Table|
                #[trigger] table_is_concat(self.schema, self.tables@, lt)
                    && #[trigger] table_is_concat(right.schema, right.tables@, rt) && asof_join_ok(
                    lt,
                    rt,
                    left_on@,
                    right_on@,
                    left_by@,
                    right_by@,
                    allow_exact_matches,
                    mp.tables@[0],
                ))),
            asof_schema_inputs_ok(
                self.schema.fields@,
                right.schema.fields@,
                left_on@,
                right_on@,
                left_by@,
                right_by@,
            ) && (forall|lt: Table, rt: Table|
                #[trigger] table_is_concat(self.schema, self.tables@, lt)
                    && #[trigger] table_is_concat(right.schema, right.tables@, rt)
                    ==> asof_join_inputs_ok(lt, rt, left_on@, right_on@, left_by@, right_by@))
                ==> r is Ok,
            (mp_is_empty(*self) || mp_is_empty(*right) || spec_asof_prune(
                self.statistics,
                right.statistics,
                self.schema,
                right.schema,
                left_on@,
                right_on@,
            )) && asof_schema_inputs_ok(
                self.schema.fields@,
                right.schema.fields@,
                left_on@,
                right_on@,
                left_by@,
                right_by@,
            ) ==> r is Ok,
    {
        let join_schema = infer_asof_schema(
            &self.schema,
            &right.schema,
            left_on,
            right_on,
            left_by,
            right_by,
        )?;
        if self.is_empty() || right.is_empty() {
            let empty = Table::empty(join_schema);
            let schema2 = empty.schema.duplicate();
            let mut tables: Vec<Table> = Vec::new();
            tables.push(empty);
            return Ok(MicroPartition { schema: schema2, tables, statistics: None });
        }
        proof {
            assert(!mp_is_empty(*self) && !mp_is_empty(*right));
        }
        let pruned = match (&self.statistics, &right.statistics) {
            (Some(ls), Some(rs)) => {
                let n = if left_on.len() <= right_on.len() {
                    left_on.len()
                } else {
                    right_on.len()
                };
                let mut found = false;
                let mut p: usize = 0;
                while p < n
                    invariant
                        self.wf(),
                        right.wf(),
                        self.statistics matches Some(ls2) && ls2 == *ls,
                        right.statistics matches Some(rs2) && rs2 == *rs,
                        n <= left_on@.len(),
                        n <= right_on@.len(),
                        0 <= p <= n,
                        found == (exists|p2: int|
                            0 <= p2 < p && spec_ranges_disjoint(
                                spec_expr_stats(*ls, self.schema, #[trigger] left_on@[p2]),
                                spec_expr_stats(*rs, right.schema, right_on@[p2]),
                            )),
                    decreases n - p,
                {
                    let lc = ls.expr_stats(&self.schema, &left_on[p]);
                    let rc = rs.expr_stats(&right.schema, &right_on[p]);
                    if matches!(lc.equal_truth(&rc), TruthValue::False) {
                        found = true;
                    }
                    p = p + 1;
                }
                proof {
                    if found {
                        assert(spec_asof_prune(
                            self.statistics,
                            right.statistics,
                            self.schema,
                            right.schema,
                            left_on@,
                            right_on@,
                        ));
                    }
                }
                found
            },
            _ => false,
        };
        if pruned {
            let empty = Table::empty(join_schema);
            let schema2 = empty.schema.duplicate();
            let mut tables: Vec<Table> = Vec::new();
            tables.push(empty);
            return Ok(MicroPartition { schema: schema2, tables, statistics: None });
        }
        proof {
            if self.statistics is Some && right.statistics is Some {
                assert(!spec_asof_prune(
                    self.statistics,
                    right.statistics,
                    self.schema,
                    right.schema,
                    left_on@,
                    right_on@,
                ));
            }
        }
        let lt = self.concat_or_get();
        let rt = right.concat_or_get();
        let joined = match lt.hash_asof_join(
            &rt,
            left_on,
            right_on,
            left_by,
            right_by,
            allow_exact_matches,
        ) {
            Ok(j) => j,
            Err(e) => {
                proof {
                    assert(table_is_concat(self.schema, self.tables@, lt));
                    assert(table_is_concat(right.schema, right.tables@, rt));
                }
                return Err(e);
            },
        };
        let schema2 = joined.schema.duplicate();
        let mut tables: Vec<Table> = Vec::new();
        tables.push(joined);
        proof {
            assert(lt.spec_num_rows() > 0);
            assert(rt.spec_num_rows() > 0);
            assert(table_is_concat(self.schema, self.tables@, lt));
            assert(table_is_concat(right.schema, right.tables@, rt));
        }
        Ok(MicroPartition { schema: schema2, tables, statistics: None })
    }

    /// The window dispatch over a micropartition: concatenate the batch
    /// and run the table-level window evaluator.
    pub fn partitioned_window(
        &self,
        window_spec: &WindowSpec,
        window_fns: &Vec<Expr>,
        window_names: Vec<String>,
    ) -> (r: DaftResult<MicroPartition>)
        requires
            self.wf(),
            window_spec.descending@.len() == window_spec.order_by@.len(),
            forall|ct: Table|
                #[trigger] table_is_concat(self.schema, self.tables@, ct) ==> window_inputs_fit(
                    ct,
                    window_fns@,
                ),
            window_spec.spec_is_range() ==> window_spec.order_by@.len() >= 1 && (forall|ct: Table|
                #[trigger] table_is_concat(self.schema, self.tables@, ct) ==> range_order_ok(
                    ct,
                    *window_spec,
                )),
        ensures
            window_spec.partition_by@.len() == 0 ==> (r matches Err(e) && e is ValueError),
            r matches Ok(mp) ==> mp.tables@.len() == 1 && mp.tables@[0].wf() && mp.schema.fields@
                == mp.tables@[0].schema.fields@,
            r matches Ok(mp) ==> mp.tables@.len() == 1 && (exists|ct: Table|
                #[trigger] table_is_concat(self.schema, self.tables@, ct) && (
                (!window_spec.spec_has_frame() ==> cumulative_windowed(
                    ct,
                    *window_spec,
                    window_fns@,
                    mp.tables@[0],
                )) && (window_spec.spec_has_frame() && !window_spec.spec_is_range()
                    ==> row_windowed(ct, *window_spec, window_fns@, mp.tables@[0])) && (
                window_spec.spec_is_range() ==> range_windowed(
                    ct,
                    *window_spec,
                    window_fns@,
                    mp.tables@[0],
                )))),
            window_spec.partition_by@.len() > 0 && (forall|ct: Table|
                #[trigger] table_is_concat(self.schema, self.tables@, ct)
                    ==> crate::table_window::window_fns_all_sum_ok(ct, window_fns@)
                    && crate::table_window::window_keys_ok(ct, *window_spec) && (
                window_spec.spec_has_frame() && !window_spec.spec_is_range()
                    ==> crate::table_window::spec_row_offset(
                    crate::table_window::spec_frame_bounds(*window_spec).0,
                ) is Some && crate::table_window::spec_row_offset(
                    crate::table_window::spec_frame_bounds(*window_spec).1,
                ) is Some) && (window_spec.spec_is_range()
                    ==> crate::table_window::spec_range_bound(
                    crate::table_window::spec_frame_bounds(*window_spec).0,
                ) is Some && crate::table_window::spec_range_bound(
                    crate::table_window::spec_frame_bounds(*window_spec).1,
                ) is Some && (crate::table::spec_eval_dtype(
                    ct,
                    window_spec.order_by@[0],
                ).is_numeric() || crate::table::spec_eval_dtype(
                    ct,
                    window_spec.order_by@[0],
                ).is_temporal()))) ==> r is Ok,
    {
        let ct = self.concat_or_get();
        let windowed = match ct.partitioned_window(window_spec, window_fns, window_names) {
            Ok(w) => w,
            Err(e) => {
                proof {
                    assert(table_is_concat(self.schema, self.tables@, ct));
                }
                return Err(e);
            },
        };
        let schema2 = windowed.schema.duplicate();
        let mut tables: Vec<Table> = Vec::new();
        tables.push(windowed);
        proof {
            assert(table_is_concat(self.schema, self.tables@, ct));
        }
        Ok(MicroPartition { schema: schema2, tables, statistics: None })
    }
}

} // verus!
