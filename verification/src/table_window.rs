//! The window evaluator: sort by the order-by columns, derive groups from
//! the partition-by columns, resolve frames, run the aggregation kernels,
//! and re-project every column in group-emission order.

use vstd::prelude::*;
use vstd::string::*;
use crate::error::{DaftError, DaftResult};
use crate::expr::{Expr, WindowExpr, WindowSpec, WindowFrame, LiteralValue};
use crate::flat::{concat_blocks, lemma_concat_blocks_len_eq};
use crate::groups::{m_valid_grouping, key_matrix, valid_grouping};
use crate::series::{Series, GroupIndices};
use crate::sort::{is_stable_sort_perm, table_is_take, lex_le};
use crate::sum::{all_fit_storage, group_in_bounds, groups_in_bounds, cum_result, row_result};
use crate::table::{Table, spec_eval_ok, spec_eval_cells, spec_eval_dtype, spec_eval_name,
    names_unique_series, equal_lengths};
use crate::names::{renamed_ok, contains_str, views_of, resolve_name};

verus! {

pub open spec fn identity_perm(n: int) -> Seq<usize> {
    Seq::new(n as nat, |i: int| i as usize)
}

pub open spec fn all_false(n: nat) -> Seq<bool> {
    Seq::new(n, |_i: int| false)
}

/// The evaluated order-by key columns of the source table.
pub open spec fn order_key_cells(src: Table, ws: WindowSpec) -> Seq<Seq<Option<i128>>> {
    ws.order_by@.map(|_c: int, e: Expr| spec_eval_cells(src, e))
}

/// `ordered` is the working table of the window evaluation: the source
/// itself when there is no order-by list, and the stable sort of the
/// source by the order-by columns otherwise, with `perm` the row
/// permutation taking source rows to working rows.
pub open spec fn window_sorted(src: Table, ws: WindowSpec, ordered: Table, perm: Seq<usize>) -> bool {
    &&& ordered.wf()
    &&& ordered.schema.fields@ == src.schema.fields@
    &&& table_is_take(src, ordered, perm)
    &&& perm.len() == src.spec_num_rows()
    &&& group_in_bounds(perm, src.spec_num_rows())
    &&& ordered.spec_num_rows() == src.spec_num_rows()
    &&& if ws.order_by@.len() == 0 {
        perm == identity_perm(src.spec_num_rows())
    } else {
        is_stable_sort_perm(
            order_key_cells(src, ws),
            ws.descending@,
            all_false(ws.order_by@.len()),
            perm,
            src.spec_num_rows(),
        )
    }
}

/// The evaluated partition-key columns of the working table.
pub open spec fn partition_matrix(ordered: Table, ws: WindowSpec) -> Seq<Seq<Option<i128>>> {
    ws.partition_by@.map(|_c: int, e: Expr| spec_eval_cells(ordered, e))
}

/// Number of rows the grouping covers: the key table of an empty
/// partition-by list has no columns and so no rows.
pub open spec fn key_nrows(ordered: Table, ws: WindowSpec) -> int {
    if ws.partition_by@.len() == 0 {
        0
    } else {
        ordered.spec_num_rows()
    }
}

/// `gs` is the grouping of the working table's rows by the partition-key
/// columns.
pub open spec fn window_grouping(ordered: Table, ws: WindowSpec, gs: Seq<Vec<usize>>) -> bool {
    &&& forall|c: int|
        0 <= c < ws.partition_by@.len() ==> spec_eval_ok(ordered, #[trigger] ws.partition_by@[c])
    &&& m_valid_grouping(partition_matrix(ordered, ws), key_nrows(ordered, ws), gs)
}

/// The rows of all groups, concatenated in group-emission order.
pub open spec fn flat_order(gs: Seq<Vec<usize>>) -> Seq<usize> {
    concat_blocks(gs.len() as int, |g: int| gs[g]@)
}

/// Names of the first `m` columns.
pub open spec fn col_names_prefix(cols: Seq<Series>, m: int) -> Seq<Seq<char>> {
    Seq::new(m as nat, |i: int| cols[i].name@)
}

/// The first columns of the output are every column of the working table,
/// re-projected in group-emission order.
pub open spec fn window_base_columns(ordered: Table, gs: Seq<Vec<usize>>, t: Table) -> bool {
    forall|c: int|
        0 <= c < ordered.columns@.len() ==> (#[trigger] t.columns@[c]).values@ == flat_order(
            gs,
        ).map(|_k: int, row: usize| ordered.columns@[c].values@[row as int]) && t.columns@[c].name@
            == ordered.columns@[c].name@ && t.columns@[c].dtype == ordered.columns@[c].dtype
}

/// The appended window columns: column `base + j` carries exactly the
/// cells of `windowed[j]`, under a name resolved against everything placed
/// before it.
pub open spec fn window_appended_columns(windowed: Seq<Series>, t: Table, base: int) -> bool {
    forall|j: int|
        0 <= j < windowed.len() ==> (#[trigger] windowed[j]).values@ == t.columns@[base + j].values@
            && windowed[j].dtype == t.columns@[base + j].dtype && renamed_ok(
            col_names_prefix(t.columns@, base + j),
            windowed[j].name@,
            t.columns@[base + j].name@,
        )
}

/// All expressions evaluate the same against the working table as against
/// the source, and cell bounds carry over through the permutation.
pub proof fn lemma_eval_transfer(src: Table, ordered: Table, perm: Seq<usize>, e: Expr)
    requires
        src.wf(),
        ordered.wf(),
        ordered.schema.fields@ == src.schema.fields@,
        table_is_take(src, ordered, perm),
        group_in_bounds(perm, src.spec_num_rows()),
        ordered.spec_num_rows() == src.spec_num_rows(),
    ensures
        spec_eval_ok(ordered, e) == spec_eval_ok(src, e),
        spec_eval_ok(src, e) ==> spec_eval_dtype(ordered, e) == spec_eval_dtype(src, e),
        spec_eval_ok(src, e) ==> spec_eval_name(ordered, e) == spec_eval_name(src, e),
        spec_eval_ok(src, e) && all_fit_storage(spec_eval_cells(src, e)) ==> all_fit_storage(
            spec_eval_cells(ordered, e),
        ),
        spec_eval_ok(src, e) ==> spec_eval_cells(ordered, e).len() == ordered.spec_num_rows(),
{
    match e {
        Expr::Column(name) => {
            crate::schema::lemma_index_of_properties(src.schema.fields@, name@);
            if crate::schema::contains_name(src.schema.fields@, name@) {
                let idx = crate::schema::spec_index_of(src.schema.fields@, name@);
                assert(ordered.columns@[idx].values@ == perm.map(
                    |_k: int, row: usize| src.columns@[idx].values@[row as int],
                ));
                if all_fit_storage(spec_eval_cells(src, e)) {
                    assert forall|i: int|
                        0 <= i < spec_eval_cells(ordered, e).len() implies crate::sum::fits_storage(
                        #[trigger] spec_eval_cells(ordered, e)[i],
                    ) by {
                        assert(spec_eval_cells(ordered, e)[i] == src.columns@[idx].values@[perm[i] as int]);
                    }
                }
            }
        },
        Expr::Literal(lv) => {
            if all_fit_storage(spec_eval_cells(src, e)) {
                assert forall|i: int|
                    0 <= i < spec_eval_cells(ordered, e).len() implies crate::sum::fits_storage(
                    #[trigger] spec_eval_cells(ordered, e)[i],
                ) by {
                    if src.spec_num_rows() > 0 {
                        assert(crate::sum::fits_storage(spec_eval_cells(src, e)[0]));
                        assert(spec_eval_cells(ordered, e)[i] == spec_eval_cells(src, e)[0]);
                    }
                }
            }
        },
        Expr::WindowExpression(_) => {},
    }
}

/// Distinct output names among evaluated expressions.
pub open spec fn distinct_eval_names(t: Table, exprs: Seq<Expr>) -> bool {
    forall|i: int, j: int|
        0 <= i < j < exprs.len() ==> spec_eval_name(t, #[trigger] exprs[i]) != spec_eval_name(
            t,
            #[trigger] exprs[j],
        )
}

impl Table {
    /// The working table of a window evaluation: this table itself when no
    /// order-by column is given, its stable sort by those columns
    /// otherwise.
    #[verifier::rlimit(60)]
    fn sorted_for_window(&self, ws: &WindowSpec) -> (r: DaftResult<(Table, Ghost<Seq<usize>>)>)
        requires
            self.wf(),
            ws.descending@.len() == ws.order_by@.len(),
        ensures
            r matches Ok(tp) ==> window_sorted(*self, *ws, tp.0, tp.1@),
            r is Err ==> (exists|c: int|
                0 <= c < ws.order_by@.len() && !spec_eval_ok(*self, #[trigger] ws.order_by@[c])),
            r matches Err(e) ==> e is ValueError,
    {
        if ws.order_by.len() == 0 {
            let nrows = self.num_rows();
            let t = self.duplicate();
            proof {
                assert(self.spec_num_rows() == nrows);
                let perm = identity_perm(self.spec_num_rows());
                assert forall|c: int| 0 <= c < t.columns@.len() implies (
                #[trigger] t.columns@[c]).values@ == perm.map(
                    |_k: int, row: usize| self.columns@[c].values@[row as int],
                ) by {
                    assert(self.columns@[c].spec_len() == self.spec_num_rows());
                    let f = (|_k: int, row: usize| self.columns@[c].values@[row as int]);
                    assert forall|i: int|
                        0 <= i < perm.len() implies perm.map(f)[i] == t.columns@[c].values@[i] by {
                        assert(perm[i] == i as usize);
                        assert(perm.map(f)[i] == f(i, perm[i]));
                        assert(f(i, perm[i]) == self.columns@[c].values@[(i as usize) as int]);
                    }
                    assert(t.columns@[c].values@ =~= perm.map(f));
                }
                assert(table_is_take(*self, t, perm));
                assert(window_sorted(*self, *ws, t, perm));
            }
            let ghost gperm = identity_perm(self.spec_num_rows());
            Ok((t, Ghost(gperm)))
        } else {
            let n = ws.order_by.len();
            let mut nulls_first: Vec<bool> = Vec::new();
            let mut i: usize = 0;
            while i < n
                invariant
                    0 <= i <= n,
                    nulls_first@.len() == i,
                    forall|a: int| 0 <= a < i ==> !(#[trigger] nulls_first@[a]),
                decreases n - i,
            {
                nulls_first.push(false);
                i = i + 1;
            }
            proof {
                assert(nulls_first@ =~= all_false(ws.order_by@.len()));
            }
            let perm = match self.sort_perm(&ws.order_by, &ws.descending, &nulls_first) {
                Ok(p) => p,
                Err(e) => {
                    return Err(e);
                },
            };
            let t = self.take(&perm);
            proof {
                assert(table_is_take(*self, t, perm@));
                assert(window_sorted(*self, *ws, t, perm@));
            }
            Ok((t, Ghost(perm@)))
        }
    }

    /// Groups of the working table's rows by the partition-key columns.
    fn grouped_for_window(&self, ws: &WindowSpec) -> (r: DaftResult<GroupIndices>)
        requires
            self.wf(),
        ensures
            r matches Ok(gs) ==> window_grouping(*self, *ws, gs@),
            (forall|c: int|
                0 <= c < ws.partition_by@.len() ==> spec_eval_ok(
                    *self,
                    #[trigger] ws.partition_by@[c],
                )) && distinct_eval_names(*self, ws.partition_by@) ==> r is Ok,
            r matches Err(e) ==> e is ValueError,
    {
        let keys = self.eval_expression_list(&ws.partition_by)?;
        let (_unique_keys, gs) = keys.make_groups();
        proof {
            assert forall|c: int|
                0 <= c < ws.partition_by@.len() implies spec_eval_ok(
                *self,
                #[trigger] ws.partition_by@[c],
            ) by {
                assert(keys.columns@[c].values@ == spec_eval_cells(*self, ws.partition_by@[c]));
            }
            assert forall|c: int|
                0 <= c < key_matrix(keys).len() implies #[trigger] key_matrix(keys)[c]
                == partition_matrix(*self, *ws)[c] by {
                assert(key_matrix(keys)[c] == keys.columns@[c].values@);
            }
            assert(key_matrix(keys) =~= partition_matrix(*self, *ws));
            assert(keys.spec_num_rows() == key_nrows(*self, *ws));
        }
        Ok(gs)
    }
}

/// Every position in the concatenated group order is a valid row of a
/// table the grouping is in bounds for.
pub proof fn lemma_flat_prefix_in_bounds(gs: Seq<Vec<usize>>, n: int, m: int)
    requires
        groups_in_bounds(gs, n),
        0 <= m <= gs.len(),
    ensures
        group_in_bounds(concat_blocks(m, |g: int| gs[g]@), n),
    decreases m,
{
    let f = |g: int| gs[g]@;
    if m > 0 {
        lemma_flat_prefix_in_bounds(gs, n, m - 1);
        assert(concat_blocks(m, f) == concat_blocks(m - 1, f) + gs[m - 1]@);
        assert forall|k: int|
            0 <= k < concat_blocks(m, f).len() implies (#[trigger] concat_blocks(m, f)[k])
            < n by {
            if k < concat_blocks(m - 1, f).len() {
                assert(concat_blocks(m, f)[k] == concat_blocks(m - 1, f)[k]);
            } else {
                assert(concat_blocks(m, f)[k] == gs[m - 1]@[k - concat_blocks(m - 1, f).len()]);
                assert(group_in_bounds(gs[m - 1]@, n));
            }
        }
    }
}

pub proof fn lemma_flat_order_in_bounds(gs: Seq<Vec<usize>>, n: int)
    requires
        groups_in_bounds(gs, n),
    ensures
        group_in_bounds(flat_order(gs), n),
{
    lemma_flat_prefix_in_bounds(gs, n, gs.len() as int);
}

/// A fresh copy of an index vector.
fn copy_indices(idxs: &Vec<usize>) -> (r: Vec<usize>)
    ensures
        r@ == idxs@,
{
    let mut out: Vec<usize> = Vec::new();
    let n = idxs.len();
    let mut k: usize = 0;
    while k < n
        invariant
            n == idxs@.len(),
            0 <= k <= n,
            out@ == idxs@.take(k as int),
        decreases n - k,
    {
        out.push(idxs[k]);
        proof {
            assert(out@ =~= idxs@.take(k + 1 as int));
        }
        k = k + 1;
    }
    proof {
        assert(idxs@.take(n as int) =~= idxs@);
    }
    out
}

/// The rows of all groups as one gather list, in group-emission order.
fn flatten_groups(gs: &GroupIndices) -> (r: Vec<usize>)
    ensures
        r@ == flat_order(gs@),
{
    let ghost blocks: spec_fn(int) -> Seq<usize> = |g: int| gs@[g]@;
    let mut out: Vec<usize> = Vec::new();
    let ng = gs.len();
    let mut g: usize = 0;
    while g < ng
        invariant
            ng == gs@.len(),
            0 <= g <= ng,
            blocks == (|gg: int| gs@[gg]@),
            out@ == concat_blocks(g as int, blocks),
        decreases ng - g,
    {
        let mut block = copy_indices(&gs[g]);
        out.append(&mut block);
        proof {
            assert(out@ == concat_blocks(g + 1 as int, blocks));
        }
        g = g + 1;
    }
    out
}

/// Assembles the output table: the working table's columns re-projected
/// in group-emission order, then the window result columns, renamed where
/// their names collide with anything already placed.
/// Everything the output assembly guarantees.
pub open spec fn assembled_post(
    ordered: Table,
    gs: Seq<Vec<usize>>,
    windowed: Seq<Series>,
    r: Table,
) -> bool {
    &&& r.wf()
    &&& r.columns@.len() == ordered.columns@.len() + windowed.len()
    &&& window_base_columns(ordered, gs, r)
    &&& window_appended_columns(windowed, r, ordered.columns@.len() as int)
    &&& (ordered.columns@.len() > 0 ==> r.spec_num_rows() == flat_order(gs).len())
}

#[verifier::rlimit(100)]
fn assemble_window_output(ordered: &Table, gs: &GroupIndices, windowed: Vec<Series>) -> (r: Table)
    requires
        ordered.wf(),
        groups_in_bounds(gs@, ordered.spec_num_rows()),
        forall|j: int|
            0 <= j < windowed@.len() ==> (#[trigger] windowed@[j]).spec_len() == flat_order(
                gs@,
            ).len(),
    ensures
        assembled_post(*ordered, gs@, windowed@, r),
{
    let ghost windowed0 = windowed@;
    proof {
        lemma_flat_order_in_bounds(gs@, ordered.spec_num_rows());
    }
    let flat = flatten_groups(gs);
    let base_t = ordered.take(&flat);
    let ghost base = ordered.columns@.len() as int;
    proof {
        assert forall|c: int|
            0 <= c < base_t.columns@.len() implies (#[trigger] base_t.columns@[c]).values@
            == flat_order(gs@).map(
            |_k: int, row: usize| ordered.columns@[c].values@[row as int],
        ) && base_t.columns@[c].name@ == ordered.columns@[c].name@ && base_t.columns@[c].dtype
            == ordered.columns@[c].dtype by {}
    }
    let ghost base_facts = base_t.columns@;
    proof {
        assert forall|c: int|
            0 <= c < base_facts.len() implies (#[trigger] base_facts[c]).values@ == flat_order(
            gs@,
        ).map(|_k: int, row: usize| ordered.columns@[c].values@[row as int]) && base_facts[c].name@
            == ordered.columns@[c].name@ && base_facts[c].dtype == ordered.columns@[c].dtype by {
            assert(base_facts[c] == base_t.columns@[c]);
        }
    }
    let mut cols: Vec<Series> = base_t.columns;
    let mut names: Vec<String> = Vec::new();
    let nb = cols.len();
    let mut i: usize = 0;
    while i < nb
        invariant
            nb == cols@.len(),
            0 <= i <= nb,
            names@.len() == i,
            forall|a: int| 0 <= a < i ==> (#[trigger] names@[a])@ == cols@[a].name@,
        decreases nb - i,
    {
        names.push(cols[i].name.clone());
        i = i + 1;
    }
    let ghost base_cols = cols@;
    let nw = windowed.len();
    let mut j: usize = 0;
    proof {
        assert forall|a: int, b: int|
            0 <= a < b < cols@.len() implies (#[trigger] cols@[a]).name@ != (
        #[trigger] cols@[b]).name@ by {
            assert(cols@[a].name@ == ordered.schema.fields@[a].name@);
            assert(cols@[b].name@ == ordered.schema.fields@[b].name@);
        }
    }
    while j < nw
        invariant
            nw == windowed@.len(),
            0 <= j <= nw,
            cols@.len() == nb + j,
            nb == base_cols.len(),
            forall|a: int| 0 <= a < nb ==> cols@[a] == base_cols[a],
            names@.len() == cols@.len(),
            forall|a: int| 0 <= a < names@.len() ==> (#[trigger] names@[a])@ == cols@[a].name@,
            names_unique_series(cols@),
            forall|a: int|
                0 <= a < j ==> (#[trigger] cols@[nb + a]).values@ == windowed@[a].values@
                    && cols@[nb + a].dtype == windowed@[a].dtype && cols@[nb + a].spec_len()
                    == windowed@[a].spec_len() && renamed_ok(
                    col_names_prefix(cols@, nb + a),
                    windowed@[a].name@,
                    cols@[nb + a].name@,
                ),
        decreases nw - j,
    {
        let s = &windowed[j];
        let resolved = resolve_name(&names, &s.name);
        proof {
            assert(views_of(names@) =~= col_names_prefix(cols@, (nb + j) as int));
        }
        let renamed = s.rename(resolved);
        let ghost prev_cols = cols@;
        cols.push(renamed);
        names.push(cols[cols.len() - 1].name.clone());
        proof {
            assert forall|a: int, b: int|
                0 <= a < b < cols@.len() implies (#[trigger] cols@[a]).name@ != (
            #[trigger] cols@[b]).name@ by {
                if b == cols@.len() - 1 {
                    assert(!contains_str(col_names_prefix(prev_cols, (nb + j) as int), cols@[b].name@));
                    assert(col_names_prefix(prev_cols, (nb + j) as int)[a] == cols@[a].name@);
                }
            }
            assert forall|a: int|
                0 <= a < j + 1 implies renamed_ok(
                col_names_prefix(cols@, nb + a),
                (#[trigger] windowed@[a]).name@,
                cols@[nb + a].name@,
            ) by {
                assert(col_names_prefix(cols@, nb + a) =~= col_names_prefix(prev_cols, nb + a));
            }
        }
        j = j + 1;
    }
    proof {
        assert forall|a: int|
            0 <= a < cols@.len() implies (#[trigger] cols@[a]).spec_len() == cols@[0].spec_len() by {
            if a >= nb {
                let aw = a - nb;
                assert(windowed@[aw].spec_len() == flat_order(gs@).len());
                assert(cols@[nb + aw].spec_len() == windowed@[aw].spec_len());
            } else {
                assert(cols@[a] == base_facts[a]);
                assert(base_facts[a].values@ == flat_order(gs@).map(
                    |_k: int, row: usize| ordered.columns@[a].values@[row as int],
                ));
            }
            if nb > 0 {
                assert(cols@[0] == base_facts[0]);
                assert(base_facts[0].values@ == flat_order(gs@).map(
                    |_k: int, row: usize| ordered.columns@[0].values@[row as int],
                ));
            } else if cols@.len() > 0 {
                assert(windowed@[0].spec_len() == flat_order(gs@).len());
                assert(cols@[nb + 0].spec_len() == windowed@[0].spec_len());
            }
        }
    }
    let ghost final_cols = cols@;
    let t = match Table::from_columns(cols) {
        Ok(t) => t,
        Err(_) => {
            proof {
                assert(false);
            }
            vstd::pervasive::unreached()
        },
    };
    proof {
        let base = ordered.columns@.len() as int;
        assert(t.columns@ == final_cols);
        assert forall|c: int|
            0 <= c < ordered.columns@.len() implies (#[trigger] t.columns@[c]).values@
            == flat_order(gs@).map(|_k: int, row: usize| ordered.columns@[c].values@[row as int])
            && t.columns@[c].name@ == ordered.columns@[c].name@ && t.columns@[c].dtype
            == ordered.columns@[c].dtype by {
            assert(final_cols[c] == base_facts[c]);
            assert(base_facts[c].values@ == flat_order(gs@).map(
                |_k: int, row: usize| ordered.columns@[c].values@[row as int],
            ));
        }
        assert(window_base_columns(*ordered, gs@, t));
        assert forall|j2: int|
            0 <= j2 < windowed@.len() implies (#[trigger] windowed@[j2]).values@ == t.columns@[base
            + j2].values@ && windowed@[j2].dtype == t.columns@[base + j2].dtype && renamed_ok(
            col_names_prefix(t.columns@, base + j2),
            windowed@[j2].name@,
            t.columns@[base + j2].name@,
        ) by {
            assert(cols@[nb + j2].values@ == windowed@[j2].values@);
            assert(col_names_prefix(t.columns@, base + j2) =~= col_names_prefix(
                final_cols,
                base + j2,
            ));
        }
        assert(window_appended_columns(windowed@, t, ordered.columns@.len() as int));
        if ordered.columns@.len() > 0 {
            assert(t.columns@[0].values@ == flat_order(gs@).map(
                |_k: int, row: usize| ordered.columns@[0].values@[row as int],
            ));
        }
        assert(assembled_post(*ordered, gs@, windowed@, t));
    }
    t
}

/// Every window function is a windowed sum whose inner expression
/// evaluates against the source schema to a type that has a sum.
pub open spec fn window_fns_all_sum_ok(src: Table, fns: Seq<Expr>) -> bool {
    forall|j: int|
        0 <= j < fns.len() ==> ((#[trigger] fns[j]) matches Expr::WindowExpression(
            WindowExpr::Sum(inner),
        ) && spec_eval_ok(src, *inner) && spec_eval_dtype(src, *inner).sum_supported())
}

/// The order-by and partition-by keys all evaluate, and the partition
/// keys produce distinctly-named columns.
pub open spec fn window_keys_ok(src: Table, ws: WindowSpec) -> bool {
    &&& forall|c: int|
        0 <= c < ws.order_by@.len() ==> spec_eval_ok(src, #[trigger] ws.order_by@[c])
    &&& forall|c: int|
        0 <= c < ws.partition_by@.len() ==> spec_eval_ok(src, #[trigger] ws.partition_by@[c])
    &&& distinct_eval_names(src, ws.partition_by@)
}

/// Cell bounds hold for every summed input column, as evaluated against
/// the source.
pub open spec fn window_inputs_fit(src: Table, fns: Seq<Expr>) -> bool {
    forall|j: int|
        0 <= j < fns.len() ==> ((#[trigger] fns[j]) matches Expr::WindowExpression(
            WindowExpr::Sum(inner),
        ) ==> (spec_eval_ok(src, *inner) ==> all_fit_storage(spec_eval_cells(src, *inner))))
}

/// The whole cumulative-window contract: some stable sort of the source,
/// some grouping of the sorted table by the partition keys, the source
/// columns re-projected in group order, and one cumulative-sum column per
/// window function, renamed where its name collides.
pub open spec fn cumulative_windowed(src: Table, ws: WindowSpec, fns: Seq<Expr>, t: Table) -> bool {
    exists|perm: Seq<usize>, ordered: Table, gs: Seq<Vec<usize>>|
        #![trigger window_sorted(src, ws, ordered, perm), window_grouping(ordered, ws, gs)]
        {
            &&& window_sorted(src, ws, ordered, perm)
            &&& window_grouping(ordered, ws, gs)
            &&& t.wf()
            &&& t.columns@.len() == src.columns@.len() + fns.len()
            &&& window_base_columns(ordered, gs, t)
            &&& (src.columns@.len() > 0 ==> t.spec_num_rows() == flat_order(gs).len())
            &&& forall|j: int|
                0 <= j < fns.len() ==> ((#[trigger] fns[j]) matches Expr::WindowExpression(
                    WindowExpr::Sum(inner),
                ) && t.columns@[src.columns@.len() + j].values@ == cum_result(
                    spec_eval_cells(ordered, *inner),
                    gs,
                ) && t.columns@[src.columns@.len() + j].dtype == spec_eval_dtype(
                    ordered,
                    *inner,
                ).sum_accum_type() && renamed_ok(
                    col_names_prefix(t.columns@, src.columns@.len() + j),
                    spec_eval_name(ordered, *inner),
                    t.columns@[src.columns@.len() + j].name@,
                ))
        }
}

impl Table {
    /// Cumulative (unframed) window evaluation: stably sort by the
    /// order-by columns, group by the partition-by columns, run the
    /// grouped cumulative sum for each window function, and re-project
    /// all columns in group-emission order.
    #[verifier::rlimit(100)]
    pub fn cumulative_window(&self, window_spec: &WindowSpec, window_fns: &Vec<Expr>) -> (r:
        DaftResult<Table>)
        requires
            self.wf(),
            window_spec.descending@.len() == window_spec.order_by@.len(),
            window_inputs_fit(*self, window_fns@),
        ensures
            r matches Ok(t) ==> cumulative_windowed(*self, *window_spec, window_fns@, t),
            (exists|j: int|
                0 <= j < window_fns@.len() && !((#[trigger] window_fns@[j])
                    is WindowExpression)) ==> (r matches Err(e) && e is ValueError),
            window_fns_all_sum_ok(*self, window_fns@) && window_keys_ok(*self, *window_spec)
                ==> r is Ok,
    {
        let nf = window_fns.len();
        let mut j: usize = 0;
        while j < nf
            invariant
                nf == window_fns@.len(),
                0 <= j <= nf,
                forall|a: int| 0 <= a < j ==> (#[trigger] window_fns@[a]) is WindowExpression,
            decreases nf - j,
        {
            match &window_fns[j] {
                Expr::WindowExpression(_) => {},
                _ => {
                    return Err(
                        DaftError::ValueError(
                            String::from_str(
                                "Trying to run non-window function in Partitioned Window!",
                            ),
                        ),
                    );
                },
            }
            j = j + 1;
        }
        let (ordered, gperm) = match self.sorted_for_window(window_spec) {
            Ok(p) => p,
            Err(e) => {
                proof {
                    assert(e is ValueError);
                }
                return Err(e);
            },
        };
        let ghost perm = gperm@;
        proof {
            assert forall|c: int|
                0 <= c < window_spec.order_by@.len() implies spec_eval_ok(
                *self,
                #[trigger] window_spec.order_by@[c],
            ) || !window_keys_ok(*self, *window_spec) by {}
            assert forall|c: int|
                0 <= c < window_spec.partition_by@.len() implies spec_eval_ok(
                ordered,
                #[trigger] window_spec.partition_by@[c],
            ) == spec_eval_ok(*self, window_spec.partition_by@[c]) && spec_eval_name(
                ordered,
                window_spec.partition_by@[c],
            ) == spec_eval_name(*self, window_spec.partition_by@[c]) by {
                lemma_eval_transfer(*self, ordered, perm, window_spec.partition_by@[c]);
            }
        }
        let gs = match ordered.grouped_for_window(window_spec) {
            Ok(g) => g,
            Err(e) => {
                return Err(e);
            },
        };
        let mut windowed: Vec<Series> = Vec::new();
        j = 0;
        while j < nf
            invariant
                self.wf(),
                window_inputs_fit(*self, window_fns@),
                nf == window_fns@.len(),
                0 <= j <= nf,
                forall|a: int| 0 <= a < nf ==> (#[trigger] window_fns@[a]) is WindowExpression,
                window_sorted(*self, *window_spec, ordered, perm),
                window_grouping(ordered, *window_spec, gs@),
                windowed@.len() == j,
                forall|a: int|
                    0 <= a < j ==> ((#[trigger] window_fns@[a]) matches Expr::WindowExpression(
                        WindowExpr::Sum(inner),
                    ) && windowed@[a].values@ == cum_result(spec_eval_cells(ordered, *inner), gs@)
                        && windowed@[a].dtype == spec_eval_dtype(ordered, *inner).sum_accum_type()
                        && windowed@[a].name@ == spec_eval_name(ordered, *inner)
                        && windowed@[a].spec_len() == flat_order(gs@).len()),
            decreases nf - j,
        {
            match &window_fns[j] {
                Expr::WindowExpression(WindowExpr::Sum(inner)) => {
                    proof {
                        lemma_eval_transfer(*self, ordered, perm, *(*inner));
                    }
                    let col = match ordered.eval_expression(inner) {
                        Ok(c) => c,
                        Err(e) => {
                            proof {
                                assert(!spec_eval_ok(ordered, *(*inner)));
                                assert(!window_fns_all_sum_ok(*self, window_fns@));
                            }
                            return Err(e);
                        },
                    };
                    proof {
                        assert forall|g: int|
                            0 <= g < gs@.len() implies crate::sum::group_in_bounds(
                            (#[trigger] gs@[g])@,
                            col.spec_len(),
                        ) by {
                            assert(crate::groups::group_below(gs@[g]@, key_nrows(
                                ordered,
                                *window_spec,
                            )));
                        }
                    }
                    let s = match col.windowed_sum(Some(&gs)) {
                        Ok(s) => s,
                        Err(e) => {
                            proof {
                                assert(!col.dtype.sum_supported());
                                assert(!window_fns_all_sum_ok(*self, window_fns@));
                            }
                            return Err(e);
                        },
                    };
                    proof {
                        lemma_concat_blocks_len_eq(
                            gs@.len() as int,
                            |g: int| crate::sum::cum_seq(col.values@, gs@[g]@),
                            |g: int| gs@[g]@,
                        );
                    }
                    windowed.push(s);
                },
                _ => {
                    proof {
                        assert(false);
                    }
                    return vstd::pervasive::unreached();
                },
            }
            j = j + 1;
        }
        proof {
            assert forall|g: int|
                0 <= g < gs@.len() implies crate::sum::group_in_bounds(
                (#[trigger] gs@[g])@,
                ordered.spec_num_rows(),
            ) by {
                assert(crate::groups::group_below(gs@[g]@, key_nrows(ordered, *window_spec)));
            }
        }
        proof {
            assert forall|j2: int|
                0 <= j2 < windowed@.len() implies (#[trigger] windowed@[j2]).spec_len()
                == flat_order(gs@).len() by {
                assert(window_fns@[j2] is WindowExpression);
            }
        }
        let out = assemble_window_output(&ordered, &gs, windowed);
        proof {
            let base = self.columns@.len() as int;
            assert(ordered.columns@.len() == base);
            assert forall|j2: int|
                0 <= j2 < window_fns@.len() implies ((#[trigger] window_fns@[j2]) matches Expr::WindowExpression(
                WindowExpr::Sum(inner),
            ) && out.columns@[base + j2].values@ == cum_result(
                spec_eval_cells(ordered, *inner),
                gs@,
            ) && out.columns@[base + j2].dtype == spec_eval_dtype(
                ordered,
                *inner,
            ).sum_accum_type() && renamed_ok(
                col_names_prefix(out.columns@, base + j2),
                spec_eval_name(ordered, *inner),
                out.columns@[base + j2].name@,
            )) by {}
            assert(cumulative_windowed(*self, *window_spec, window_fns@, out));
        }
        Ok(out)
    }
}

/// The frame bounds of a window specification (absent frame means
/// unbounded on both sides).
pub open spec fn spec_frame_bounds(ws: WindowSpec) -> (Option<Expr>, Option<Expr>) {
    match ws.frame {
        Some(f) => (f.left_bound, f.right_bound),
        None => (None, None),
    }
}

/// Extraction of a row-count frame offset from an optional bound
/// expression: absence means unbounded (`Some(None)`), an integer literal
/// gives the offset (a negative literal truncates to its `u64` bit
/// pattern, as the specification below states), and anything else is a
/// contract violation (`None`).
pub open spec fn spec_row_offset(b: Option<Expr>) -> Option<Option<u64>> {
    match b {
        None => Some(None),
        Some(e) => match e {
            Expr::Literal(lv) => match lv {
                LiteralValue::Int32(v) => Some(Some(v as u64)),
                LiteralValue::Int64(v) => Some(Some(v as u64)),
                _ => None,
            },
            _ => None,
        },
    }
}

/// The whole row-framed window contract, analogous to the cumulative one,
/// with the sliding-sum kernel applied under the extracted row offsets.
pub open spec fn row_windowed(src: Table, ws: WindowSpec, fns: Seq<Expr>, t: Table) -> bool {
    exists|perm: Seq<usize>, ordered: Table, gs: Seq<Vec<usize>>|
        #![trigger window_sorted(src, ws, ordered, perm), window_grouping(ordered, ws, gs)]
        {
            &&& window_sorted(src, ws, ordered, perm)
            &&& window_grouping(ordered, ws, gs)
            &&& t.wf()
            &&& t.columns@.len() == src.columns@.len() + fns.len()
            &&& window_base_columns(ordered, gs, t)
            &&& (src.columns@.len() > 0 ==> t.spec_num_rows() == flat_order(gs).len())
            &&& forall|j: int|
                0 <= j < fns.len() ==> ((#[trigger] fns[j]) matches Expr::WindowExpression(
                    WindowExpr::Sum(inner),
                ) && t.columns@[src.columns@.len() + j].values@ == row_result(
                    spec_eval_cells(ordered, *inner),
                    gs,
                    spec_row_offset(spec_frame_bounds(ws).0)->Some_0,
                    spec_row_offset(spec_frame_bounds(ws).1)->Some_0,
                ) && t.columns@[src.columns@.len() + j].dtype == spec_eval_dtype(
                    ordered,
                    *inner,
                ).sum_accum_type() && renamed_ok(
                    col_names_prefix(t.columns@, src.columns@.len() + j),
                    spec_eval_name(ordered, *inner),
                    t.columns@[src.columns@.len() + j].name@,
                ))
        }
}

impl Table {
    /// Extracts one row-count frame offset; a bound expression that is
    /// not an integer literal is rejected.
    fn extract_row_offset(bound: &Option<Expr>) -> (r: DaftResult<Option<u64>>)
        ensures
            spec_row_offset(*bound) matches Some(off) ==> r == Ok::<Option<u64>, DaftError>(off),
            spec_row_offset(*bound) is None ==> (r matches Err(e) && e is ValueError),
    {
        match bound {
            None => Ok(None),
            Some(e) => match e {
                Expr::Literal(lv) => match lv {
                    LiteralValue::Int32(v) => Ok(Some(#[verifier::truncate] (*v as u64))),
                    LiteralValue::Int64(v) => Ok(Some(#[verifier::truncate] (*v as u64))),
                    _ => Err(
                        DaftError::ValueError(
                            String::from_str("WindowSpec row between values must be integers"),
                        ),
                    ),
                },
                _ => Err(
                    DaftError::ValueError(
                        String::from_str("WindowSpec row between values must be integers"),
                    ),
                ),
            },
        }
    }

    /// Row-count-framed window evaluation: like the cumulative form, but
    /// each window function is aggregated with the sliding-sum kernel
    /// under fixed row offsets taken from the frame's literal bounds.
    #[verifier::rlimit(100)]
    pub fn row_window(&self, window_spec: &WindowSpec, window_fns: &Vec<Expr>) -> (r: DaftResult<
        Table,
    >)
        requires
            self.wf(),
            window_spec.descending@.len() == window_spec.order_by@.len(),
            window_inputs_fit(*self, window_fns@),
        ensures
            r matches Ok(t) ==> row_windowed(*self, *window_spec, window_fns@, t),
            (exists|j: int|
                0 <= j < window_fns@.len() && !((#[trigger] window_fns@[j])
                    is WindowExpression)) ==> (r matches Err(e) && e is ValueError),
            (forall|j: int| 0 <= j < window_fns@.len() ==> (#[trigger] window_fns@[j])
                is WindowExpression) && (spec_row_offset(spec_frame_bounds(*window_spec).0) is None
                || spec_row_offset(spec_frame_bounds(*window_spec).1) is None) ==> (r matches Err(
                e,
            ) && e is ValueError),
            window_fns_all_sum_ok(*self, window_fns@) && window_keys_ok(*self, *window_spec)
                && spec_row_offset(spec_frame_bounds(*window_spec).0) is Some && spec_row_offset(
                spec_frame_bounds(*window_spec).1,
            ) is Some ==> r is Ok,
    {
        let nf = window_fns.len();
        let mut j: usize = 0;
        while j < nf
            invariant
                nf == window_fns@.len(),
                0 <= j <= nf,
                forall|a: int| 0 <= a < j ==> (#[trigger] window_fns@[a]) is WindowExpression,
            decreases nf - j,
        {
            match &window_fns[j] {
                Expr::WindowExpression(_) => {},
                _ => {
                    return Err(
                        DaftError::ValueError(
                            String::from_str(
                                "Trying to run non-window function in Partitioned Window!",
                            ),
                        ),
                    );
                },
            }
            j = j + 1;
        }
        let (ordered, gperm) = match self.sorted_for_window(window_spec) {
            Ok(p) => p,
            Err(e) => {
                proof {
                    assert(e is ValueError);
                }
                return Err(e);
            },
        };
        let ghost perm = gperm@;
        proof {
            assert forall|c: int|
                0 <= c < window_spec.partition_by@.len() implies spec_eval_ok(
                ordered,
                #[trigger] window_spec.partition_by@[c],
            ) == spec_eval_ok(*self, window_spec.partition_by@[c]) && spec_eval_name(
                ordered,
                window_spec.partition_by@[c],
            ) == spec_eval_name(*self, window_spec.partition_by@[c]) by {
                lemma_eval_transfer(*self, ordered, perm, window_spec.partition_by@[c]);
            }
        }
        let gs = match ordered.grouped_for_window(window_spec) {
            Ok(g) => g,
            Err(e) => {
                return Err(e);
            },
        };
        let (left_frame, right_frame) = match &window_spec.frame {
            Some(f) => {
                let l = match Table::extract_row_offset(&f.left_bound) {
                    Ok(l) => l,
                    Err(e) => {
                        return Err(e);
                    },
                };
                let rr = match Table::extract_row_offset(&f.right_bound) {
                    Ok(rr) => rr,
                    Err(e) => {
                        return Err(e);
                    },
                };
                (l, rr)
            },
            None => (None, None),
        };
        let mut windowed: Vec<Series> = Vec::new();
        j = 0;
        while j < nf
            invariant
                self.wf(),
                window_inputs_fit(*self, window_fns@),
                nf == window_fns@.len(),
                0 <= j <= nf,
                forall|a: int| 0 <= a < nf ==> (#[trigger] window_fns@[a]) is WindowExpression,
                window_sorted(*self, *window_spec, ordered, perm),
                window_grouping(ordered, *window_spec, gs@),
                Some(left_frame) == spec_row_offset(spec_frame_bounds(*window_spec).0),
                Some(right_frame) == spec_row_offset(spec_frame_bounds(*window_spec).1),
                windowed@.len() == j,
                forall|a: int|
                    0 <= a < j ==> ((#[trigger] window_fns@[a]) matches Expr::WindowExpression(
                        WindowExpr::Sum(inner),
                    ) && windowed@[a].values@ == row_result(
                        spec_eval_cells(ordered, *inner),
                        gs@,
                        left_frame,
                        right_frame,
                    ) && windowed@[a].dtype == spec_eval_dtype(ordered, *inner).sum_accum_type()
                        && windowed@[a].name@ == spec_eval_name(ordered, *inner)
                        && windowed@[a].spec_len() == flat_order(gs@).len()),
            decreases nf - j,
        {
            match &window_fns[j] {
                Expr::WindowExpression(WindowExpr::Sum(inner)) => {
                    proof {
                        lemma_eval_transfer(*self, ordered, perm, *(*inner));
                    }
                    let col = match ordered.eval_expression(inner) {
                        Ok(c) => c,
                        Err(e) => {
                            proof {
                                assert(!window_fns_all_sum_ok(*self, window_fns@));
                            }
                            return Err(e);
                        },
                    };
                    proof {
                        assert forall|g: int|
                            0 <= g < gs@.len() implies crate::sum::group_in_bounds(
                            (#[trigger] gs@[g])@,
                            col.spec_len(),
                        ) by {
                            assert(crate::groups::group_below(gs@[g]@, key_nrows(
                                ordered,
                                *window_spec,
                            )));
                        }
                    }
                    let s = match col.windowed_row_sum(Some(&gs), left_frame, right_frame) {
                        Ok(s) => s,
                        Err(e) => {
                            proof {
                                assert(!col.dtype.sum_supported());
                                assert(!window_fns_all_sum_ok(*self, window_fns@));
                            }
                            return Err(e);
                        },
                    };
                    proof {
                        lemma_concat_blocks_len_eq(
                            gs@.len() as int,
                            |g: int| crate::sum::row_seq(
                                col.values@,
                                gs@[g]@,
                                left_frame,
                                right_frame,
                            ),
                            |g: int| gs@[g]@,
                        );
                    }
                    windowed.push(s);
                },
                _ => {
                    proof {
                        assert(false);
                    }
                    return vstd::pervasive::unreached();
                },
            }
            j = j + 1;
        }
        proof {
            assert forall|g: int|
                0 <= g < gs@.len() implies crate::sum::group_in_bounds(
                (#[trigger] gs@[g])@,
                ordered.spec_num_rows(),
            ) by {
                assert(crate::groups::group_below(gs@[g]@, key_nrows(ordered, *window_spec)));
            }
            assert forall|j2: int|
                0 <= j2 < windowed@.len() implies (#[trigger] windowed@[j2]).spec_len()
                == flat_order(gs@).len() by {
                assert(window_fns@[j2] is WindowExpression);
            }
        }
        let out = assemble_window_output(&ordered, &gs, windowed);
        proof {
            let base = self.columns@.len() as int;
            assert(ordered.columns@.len() == base);
            assert forall|j2: int|
                0 <= j2 < window_fns@.len() implies ((#[trigger] window_fns@[j2]) matches Expr::WindowExpression(
                WindowExpr::Sum(inner),
            ) && out.columns@[base + j2].values@ == row_result(
                spec_eval_cells(ordered, *inner),
                gs@,
                spec_row_offset(spec_frame_bounds(*window_spec).0)->Some_0,
                spec_row_offset(spec_frame_bounds(*window_spec).1)->Some_0,
            ) && out.columns@[base + j2].dtype == spec_eval_dtype(
                ordered,
                *inner,
            ).sum_accum_type() && renamed_ok(
                col_names_prefix(out.columns@, base + j2),
                spec_eval_name(ordered, *inner),
                out.columns@[base + j2].name@,
            )) by {}
            assert(row_windowed(*self, *window_spec, window_fns@, out));
        }
        Ok(out)
    }
}

/// Extraction of a range frame bound: absence means unbounded, a literal
/// gives the adjustment value, anything else is a contract violation.
pub open spec fn spec_range_bound(b: Option<Expr>) -> Option<Option<i128>> {
    match b {
        None => Some(None),
        Some(e) => match e {
            Expr::Literal(lv) => Some(Some(lv.spec_value() as i128)),
            _ => None,
        },
    }
}

/// The exclusive upper frame edge of row `j` under a range bound: the
/// insertion position of `order value + bound` (ties included), or the
/// group's end when unbounded.
pub open spec fn spec_right_edge(
    oc: Seq<Option<i128>>,
    idxs: Seq<usize>,
    j: int,
    rb: Option<i128>,
    descending: bool,
) -> int {
    match rb {
        None => idxs.len() as int,
        Some(b) => crate::search::edge_count(
            oc,
            idxs,
            crate::search::oval(oc, idxs, j) + b,
            descending,
            false,
            idxs.len() as int,
        ),
    }
}

/// The raw inclusive lower frame edge of row `j` under a range bound: the
/// insertion position of `order value - bound` (ties excluded on the
/// left), or the group's start when unbounded.
pub open spec fn spec_left_edge_raw(
    oc: Seq<Option<i128>>,
    idxs: Seq<usize>,
    j: int,
    lb: Option<i128>,
    descending: bool,
) -> int {
    match lb {
        None => 0,
        Some(b) => crate::search::edge_count(
            oc,
            idxs,
            crate::search::oval(oc, idxs, j) - b,
            descending,
            true,
            idxs.len() as int,
        ),
    }
}

/// The lower edge clamped to the upper edge: an inverted frame (possible
/// with a negative total span) is treated as empty.
pub open spec fn spec_left_edge(
    oc: Seq<Option<i128>>,
    idxs: Seq<usize>,
    j: int,
    lb: Option<i128>,
    rb: Option<i128>,
    descending: bool,
) -> int {
    let raw = spec_left_edge_raw(oc, idxs, j, lb, descending);
    let hi = spec_right_edge(oc, idxs, j, rb, descending);
    if raw <= hi {
        raw
    } else {
        hi
    }
}

/// The first `j` frame edges agree with their specification.
pub open spec fn edges_prefix_ok(
    values: Seq<Option<i128>>,
    idxs: Seq<usize>,
    lb: Option<i128>,
    rb: Option<i128>,
    descending: bool,
    lefts: Seq<usize>,
    rights: Seq<usize>,
    j: int,
) -> bool {
    &&& lefts.len() == j
    &&& rights.len() == j
    &&& forall|a: int|
        0 <= a < j ==> (#[trigger] lefts[a]) == spec_left_edge(values, idxs, a, lb, rb, descending)
    &&& forall|a: int|
        0 <= a < j ==> (#[trigger] rights[a]) == spec_right_edge(values, idxs, a, rb, descending)
}

/// Appending the next pair of resolved edges extends the agreeing prefix.
proof fn lemma_edges_prefix_push(
    values: Seq<Option<i128>>,
    idxs: Seq<usize>,
    lb: Option<i128>,
    rb: Option<i128>,
    descending: bool,
    pre_lefts: Seq<usize>,
    pre_rights: Seq<usize>,
    lpos: usize,
    rpos: usize,
    j: int,
)
    requires
        j >= 0,
        edges_prefix_ok(values, idxs, lb, rb, descending, pre_lefts, pre_rights, j),
        lpos == spec_left_edge(values, idxs, j, lb, rb, descending),
        rpos == spec_right_edge(values, idxs, j, rb, descending),
    ensures
        edges_prefix_ok(
            values,
            idxs,
            lb,
            rb,
            descending,
            pre_lefts.push(lpos),
            pre_rights.push(rpos),
            j + 1,
        ),
{
    let lefts = pre_lefts.push(lpos);
    let rights = pre_rights.push(rpos);
    assert forall|a: int|
        0 <= a < j + 1 implies (#[trigger] lefts[a]) == spec_left_edge(
        values,
        idxs,
        a,
        lb,
        rb,
        descending,
    ) by {
        if a < j {
            assert(lefts[a] == pre_lefts[a]);
        } else {
            assert(lefts[a] == lpos);
        }
    }
    assert forall|a: int|
        0 <= a < j + 1 implies (#[trigger] rights[a]) == spec_right_edge(
        values,
        idxs,
        a,
        rb,
        descending,
    ) by {
        if a < j {
            assert(rights[a] == pre_rights[a]);
        } else {
            assert(rights[a] == rpos);
        }
    }
}

impl Table {
    /// Extracts one range frame adjustment; a bound that is not a literal
    /// of numeric or temporal type is rejected.
    fn extract_range_bound(bound: &Option<Expr>) -> (r: DaftResult<Option<i128>>)
        ensures
            spec_range_bound(*bound) matches Some(off) ==> r == Ok::<Option<i128>, DaftError>(off),
            spec_range_bound(*bound) is None ==> (r matches Err(e) && e is ValueError),
            r matches Ok(Some(b)) ==> -0x1_0000_0000_0000_0000 <= b <= 0xFFFF_FFFF_FFFF_FFFF,
    {
        match bound {
            None => Ok(None),
            Some(e) => match e {
                Expr::Literal(lv) => Ok(Some(lv.value())),
                _ => Err(
                    DaftError::ValueError(
                        String::from_str(
                            "Range between bounds must be integer, float or temporal types",
                        ),
                    ),
                ),
            },
        }
    }
}

/// Resolves the per-row frame boundary positions of one group by binary
/// search of each row's adjusted ordering value against the group's
/// sorted ordering values.
#[verifier::rlimit(100)]
fn resolve_group_bounds(
    values: &Vec<Option<i128>>,
    idxs: &Vec<usize>,
    lb: Option<i128>,
    rb: Option<i128>,
    descending: bool,
) -> (r: (Vec<usize>, Vec<usize>))
    requires
        group_in_bounds(idxs@, values@.len() as int),
        crate::search::group_sorted(values@, idxs@, descending),
        crate::search::group_nonnull(values@, idxs@),
        all_fit_storage(values@),
        lb matches Some(b) ==> -0x1_0000_0000_0000_0000 <= b <= 0xFFFF_FFFF_FFFF_FFFF,
        rb matches Some(b) ==> -0x1_0000_0000_0000_0000 <= b <= 0xFFFF_FFFF_FFFF_FFFF,
    ensures
        edges_prefix_ok(values@, idxs@, lb, rb, descending, r.0@, r.1@, idxs@.len() as int),
        crate::sum::bounds_wf(idxs@, r.0@, r.1@),
{
    let glen = idxs.len();
    let mut lefts: Vec<usize> = Vec::new();
    let mut rights: Vec<usize> = Vec::new();
    let mut j: usize = 0;
    while j < glen
        invariant
            group_in_bounds(idxs@, values@.len() as int),
            crate::search::group_sorted(values@, idxs@, descending),
            crate::search::group_nonnull(values@, idxs@),
            all_fit_storage(values@),
            lb matches Some(b) ==> -0x1_0000_0000_0000_0000 <= b <= 0xFFFF_FFFF_FFFF_FFFF,
            rb matches Some(b) ==> -0x1_0000_0000_0000_0000 <= b <= 0xFFFF_FFFF_FFFF_FFFF,
            glen == idxs@.len(),
            0 <= j <= glen,
            edges_prefix_ok(values@, idxs@, lb, rb, descending, lefts@, rights@, j as int),
        decreases glen - j,
    {
        let v: i128 = match values[idxs[j]] {
            Some(x) => x,
            None => {
                proof {
                    assert(false);
                }
                vstd::pervasive::unreached()
            },
        };
        proof {
            assert(crate::sum::fits_storage(values@[idxs@[j as int] as int]));
            assert(v == crate::search::unwrap_cell(values@[idxs@[j as int] as int]));
        }
        let rpos: usize = match rb {
            None => glen,
            Some(b) => crate::search::search_sorted_group(values, idxs, v + b, descending, false),
        };
        let lraw: usize = match lb {
            None => 0,
            Some(b) => crate::search::search_sorted_group(values, idxs, v - b, descending, true),
        };
        let lpos: usize = if lraw <= rpos {
            lraw
        } else {
            rpos
        };
        proof {
            assert(rpos == spec_right_edge(values@, idxs@, j as int, rb, descending));
            assert(lraw == spec_left_edge_raw(values@, idxs@, j as int, lb, descending));
            assert(lpos == spec_left_edge(values@, idxs@, j as int, lb, rb, descending));
        }
        let ghost pre_lefts = lefts@;
        let ghost pre_rights = rights@;
        lefts.push(lpos);
        rights.push(rpos);
        proof {
            lemma_edges_prefix_push(
                values@,
                idxs@,
                lb,
                rb,
                descending,
                pre_lefts,
                pre_rights,
                lpos,
                rpos,
                j as int,
            );
            assert(lefts@ == pre_lefts.push(lpos));
            assert(rights@ == pre_rights.push(rpos));
        }
        j = j + 1;
    }
    proof {
        // upper edges never exceed the group, lower never exceeds upper
        assert forall|a: int|
            0 <= a < idxs@.len() implies (#[trigger] lefts@[a]) <= rights@[a] && rights@[a]
            <= idxs@.len() by {
            lemma_edge_in_range(values@, idxs@, a, lb, rb, descending);
        }
        // both edge families are monotone row to row
        assert forall|a1: int, a2: int|
            0 <= a1 <= a2 < idxs@.len() implies #[trigger] rights@[a1] <= #[trigger] rights@[a2] by {
            lemma_edges_monotone(values@, idxs@, a1, a2, lb, rb, descending);
        }
        assert forall|a1: int, a2: int|
            0 <= a1 <= a2 < idxs@.len() implies #[trigger] lefts@[a1] <= #[trigger] lefts@[a2] by {
            lemma_edges_monotone(values@, idxs@, a1, a2, lb, rb, descending);
        }
        assert(crate::sum::bounds_wf(idxs@, lefts@, rights@));
    }
    (lefts, rights)
}

/// Each resolved edge lies within the group, and the clamped lower edge
/// never exceeds the upper edge.
proof fn lemma_edge_in_range(
    oc: Seq<Option<i128>>,
    idxs: Seq<usize>,
    j: int,
    lb: Option<i128>,
    rb: Option<i128>,
    descending: bool,
)
    requires
        crate::search::group_sorted(oc, idxs, descending),
        0 <= j < idxs.len(),
    ensures
        0 <= spec_left_edge(oc, idxs, j, lb, rb, descending) <= spec_right_edge(
            oc,
            idxs,
            j,
            rb,
            descending,
        ),
        spec_right_edge(oc, idxs, j, rb, descending) <= idxs.len(),
        0 <= spec_left_edge_raw(oc, idxs, j, lb, descending) <= idxs.len(),
{
    match rb {
        None => {},
        Some(b) => {
            lemma_count_in_range(oc, idxs, crate::search::oval(oc, idxs, j) + b, descending, false,
                idxs.len() as int);
        },
    }
    match lb {
        None => {},
        Some(b) => {
            lemma_count_in_range(oc, idxs, crate::search::oval(oc, idxs, j) - b, descending, true,
                idxs.len() as int);
        },
    }
}

/// An edge count over `n` positions lies in `[0, n]`.
proof fn lemma_count_in_range(
    oc: Seq<Option<i128>>,
    idxs: Seq<usize>,
    t: int,
    descending: bool,
    side_left: bool,
    n: int,
)
    requires
        n >= 0,
    ensures
        0 <= crate::search::edge_count(oc, idxs, t, descending, side_left, n) <= n,
    decreases n,
{
    if n > 0 {
        lemma_count_in_range(oc, idxs, t, descending, side_left, n - 1);
    }
}

/// For a sorted group, the before-edge positions form a prefix, so the
/// edge count itself is an insertion edge.
proof fn lemma_count_is_edge(
    oc: Seq<Option<i128>>,
    idxs: Seq<usize>,
    t: int,
    descending: bool,
    side_left: bool,
)
    requires
        crate::search::group_sorted(oc, idxs, descending),
    ensures
        crate::search::is_edge(
            oc,
            idxs,
            t,
            descending,
            side_left,
            crate::search::edge_count(oc, idxs, t, descending, side_left, idxs.len() as int),
        ),
{
    let n = idxs.len() as int;
    // there is a least non-before position; everything before it is before
    let e = crate::search::edge_count(oc, idxs, t, descending, side_left, n);
    lemma_count_in_range(oc, idxs, t, descending, side_left, n);
    // find the prefix length directly: the predicate is monotone along the
    // sorted group, so before-edge positions form a prefix
    assert forall|k1: int, k2: int|
        0 <= k1 <= k2 < n && crate::search::before_edge(
            crate::search::oval(oc, idxs, k2),
            t,
            descending,
            side_left,
        ) implies crate::search::before_edge(
        crate::search::oval(oc, idxs, k1),
        t,
        descending,
        side_left,
    ) by {
        assert(if descending {
            crate::search::oval(oc, idxs, k1) >= crate::search::oval(oc, idxs, k2)
        } else {
            crate::search::oval(oc, idxs, k1) <= crate::search::oval(oc, idxs, k2)
        });
    }
    lemma_prefix_shape(oc, idxs, t, descending, side_left, n);
}

/// Helper for `lemma_count_is_edge`: with a prefix-shaped predicate the
/// count is an edge.
proof fn lemma_prefix_shape(
    oc: Seq<Option<i128>>,
    idxs: Seq<usize>,
    t: int,
    descending: bool,
    side_left: bool,
    n: int,
)
    requires
        n == idxs.len() as int,
        forall|k1: int, k2: int|
            0 <= k1 <= k2 < n && crate::search::before_edge(
                crate::search::oval(oc, idxs, k2),
                t,
                descending,
                side_left,
            ) ==> crate::search::before_edge(
                crate::search::oval(oc, idxs, k1),
                t,
                descending,
                side_left,
            ),
    ensures
        crate::search::is_edge(
            oc,
            idxs,
            t,
            descending,
            side_left,
            crate::search::edge_count(oc, idxs, t, descending, side_left, n),
        ),
{
    lemma_prefix_shape_rec(oc, idxs, t, descending, side_left, n, n);
}

proof fn lemma_prefix_shape_rec(
    oc: Seq<Option<i128>>,
    idxs: Seq<usize>,
    t: int,
    descending: bool,
    side_left: bool,
    n: int,
    m: int,
)
    requires
        n == idxs.len() as int,
        0 <= m <= n,
        forall|k1: int, k2: int|
            0 <= k1 <= k2 < n && crate::search::before_edge(
                crate::search::oval(oc, idxs, k2),
                t,
                descending,
                side_left,
            ) ==> crate::search::before_edge(
                crate::search::oval(oc, idxs, k1),
                t,
                descending,
                side_left,
            ),
    ensures
        ({
            let e = crate::search::edge_count(oc, idxs, t, descending, side_left, m);
            &&& 0 <= e <= m
            &&& forall|k: int|
                0 <= k < e ==> crate::search::before_edge(
                    crate::search::oval(oc, idxs, k),
                    t,
                    descending,
                    side_left,
                )
            &&& forall|k: int|
                e <= k < m ==> !crate::search::before_edge(
                    crate::search::oval(oc, idxs, k),
                    t,
                    descending,
                    side_left,
                )
        }),
    decreases m,
{
    if m > 0 {
        lemma_prefix_shape_rec(oc, idxs, t, descending, side_left, n, m - 1);
        let e0 = crate::search::edge_count(oc, idxs, t, descending, side_left, m - 1);
        if crate::search::before_edge(
            crate::search::oval(oc, idxs, m - 1),
            t,
            descending,
            side_left,
        ) {
            // everything up to m-1 is before the edge by the prefix shape
            assert forall|k: int|
                0 <= k < m implies crate::search::before_edge(
                crate::search::oval(oc, idxs, k),
                t,
                descending,
                side_left,
            ) by {}
            assert(e0 == m - 1) by {
                if e0 < m - 1 {
                    assert(!crate::search::before_edge(
                        crate::search::oval(oc, idxs, e0),
                        t,
                        descending,
                        side_left,
                    ));
                }
            }
        }
    }
}

/// Frame edges are monotone from row to row within a sorted group.
proof fn lemma_edges_monotone(
    oc: Seq<Option<i128>>,
    idxs: Seq<usize>,
    j1: int,
    j2: int,
    lb: Option<i128>,
    rb: Option<i128>,
    descending: bool,
)
    requires
        crate::search::group_sorted(oc, idxs, descending),
        0 <= j1 <= j2 < idxs.len(),
    ensures
        spec_right_edge(oc, idxs, j1, rb, descending) <= spec_right_edge(
            oc,
            idxs,
            j2,
            rb,
            descending,
        ),
        spec_left_edge(oc, idxs, j1, lb, rb, descending) <= spec_left_edge(
            oc,
            idxs,
            j2,
            lb,
            rb,
            descending,
        ),
{
    assert(if descending {
        crate::search::oval(oc, idxs, j1) >= crate::search::oval(oc, idxs, j2)
    } else {
        crate::search::oval(oc, idxs, j1) <= crate::search::oval(oc, idxs, j2)
    });
    match rb {
        None => {},
        Some(b) => {
            let t1 = crate::search::oval(oc, idxs, j1) + b;
            let t2 = crate::search::oval(oc, idxs, j2) + b;
            lemma_count_is_edge(oc, idxs, t1, descending, false);
            lemma_count_is_edge(oc, idxs, t2, descending, false);
            crate::search::lemma_edge_monotone(
                oc,
                idxs,
                t1,
                t2,
                descending,
                false,
                spec_right_edge(oc, idxs, j1, rb, descending),
                spec_right_edge(oc, idxs, j2, rb, descending),
            );
        },
    }
    match lb {
        None => {},
        Some(b) => {
            let t1 = crate::search::oval(oc, idxs, j1) - b;
            let t2 = crate::search::oval(oc, idxs, j2) - b;
            lemma_count_is_edge(oc, idxs, t1, descending, true);
            lemma_count_is_edge(oc, idxs, t2, descending, true);
            crate::search::lemma_edge_monotone(
                oc,
                idxs,
                t1,
                t2,
                descending,
                true,
                spec_left_edge_raw(oc, idxs, j1, lb, descending),
                spec_left_edge_raw(oc, idxs, j2, lb, descending),
            );
        },
    }
}

/// The range-framed output cells of one group: for each row, the
/// null-skipping sum over the half-open window the frame resolver found.
pub open spec fn range_out_seq(
    cells: Seq<Option<i128>>,
    oc: Seq<Option<i128>>,
    idxs: Seq<usize>,
    lb: Option<i128>,
    rb: Option<i128>,
    descending: bool,
) -> Seq<Option<i128>> {
    Seq::new(
        idxs.len(),
        |j: int| Some(
            crate::sum::gsum(
                cells,
                idxs,
                spec_left_edge(oc, idxs, j, lb, rb, descending),
                spec_right_edge(oc, idxs, j, rb, descending),
            ) as i128,
        ),
    )
}

/// The order column of the source evaluates to non-null cells within the
/// storage range (when it evaluates at all); the binary searches of the
/// frame resolver are only meaningful over such a column.
pub open spec fn range_order_ok(src: Table, ws: WindowSpec) -> bool {
    spec_eval_ok(src, ws.order_by@[0]) ==> ({
        let oc = spec_eval_cells(src, ws.order_by@[0]);
        &&& forall|i: int| 0 <= i < oc.len() ==> (#[trigger] oc[i]) is Some
        &&& all_fit_storage(oc)
    })
}

/// The whole range-framed window contract: the sliding accumulation runs
/// over per-row windows resolved by binary search of each row's adjusted
/// ordering value against the group's sorted ordering values.
pub open spec fn range_windowed(src: Table, ws: WindowSpec, fns: Seq<Expr>, t: Table) -> bool {
    exists|perm: Seq<usize>, ordered: Table, gs: Seq<Vec<usize>>|
        #![trigger window_sorted(src, ws, ordered, perm), window_grouping(ordered, ws, gs)]
        {
            &&& window_sorted(src, ws, ordered, perm)
            &&& window_grouping(ordered, ws, gs)
            &&& t.wf()
            &&& t.columns@.len() == src.columns@.len() + fns.len()
            &&& window_base_columns(ordered, gs, t)
            &&& (src.columns@.len() > 0 ==> t.spec_num_rows() == flat_order(gs).len())
            &&& forall|j: int|
                0 <= j < fns.len() ==> ((#[trigger] fns[j]) matches Expr::WindowExpression(
                    WindowExpr::Sum(inner),
                ) && t.columns@[src.columns@.len() + j].values@ == concat_blocks(
                    gs.len() as int,
                    |g: int| range_out_seq(
                        spec_eval_cells(ordered, *inner),
                        spec_eval_cells(ordered, ws.order_by@[0]),
                        gs[g]@,
                        spec_range_bound(spec_frame_bounds(ws).0)->Some_0,
                        spec_range_bound(spec_frame_bounds(ws).1)->Some_0,
                        ws.descending@[0],
                    ),
                ) && t.columns@[src.columns@.len() + j].dtype == spec_eval_dtype(
                    ordered,
                    *inner,
                ).sum_accum_type() && renamed_ok(
                    col_names_prefix(t.columns@, src.columns@.len() + j),
                    spec_eval_name(ordered, *inner),
                    t.columns@[src.columns@.len() + j].name@,
                ))
        }
}

/// The working table's order column reads the source's through the sort
/// permutation, cell for cell.
proof fn lemma_order_cells_perm(src: Table, ordered: Table, perm: Seq<usize>, e: Expr, i: int)
    requires
        src.wf(),
        ordered.wf(),
        ordered.schema.fields@ == src.schema.fields@,
        table_is_take(src, ordered, perm),
        group_in_bounds(perm, src.spec_num_rows()),
        ordered.spec_num_rows() == src.spec_num_rows(),
        perm.len() == src.spec_num_rows(),
        spec_eval_ok(src, e),
        0 <= i < ordered.spec_num_rows(),
    ensures
        spec_eval_cells(ordered, e)[i] == spec_eval_cells(src, e)[perm[i] as int],
        spec_eval_cells(src, e).len() == src.spec_num_rows(),
        spec_eval_cells(ordered, e).len() == ordered.spec_num_rows(),
{
    lemma_eval_transfer(src, ordered, perm, e);
    match e {
        Expr::Column(name) => {
            crate::schema::lemma_index_of_properties(src.schema.fields@, name@);
            let idx = crate::schema::spec_index_of(src.schema.fields@, name@);
            assert(ordered.columns@[idx].values@ == perm.map(
                |_k: int, row: usize| src.columns@[idx].values@[row as int],
            ));
        },
        Expr::Literal(_) => {},
        Expr::WindowExpression(_) => {},
    }
    match e {
        Expr::Column(name) => {
            crate::schema::lemma_index_of_properties(src.schema.fields@, name@);
            let idx = crate::schema::spec_index_of(src.schema.fields@, name@);
            assert(src.columns@[idx].spec_len() == src.spec_num_rows());
        },
        Expr::Literal(_) => {},
        Expr::WindowExpression(_) => {},
    }
}

impl Table {
    /// Range-framed window evaluation: the frame resolver computes
    /// per-row boundary positions by binary search over the sorted order
    /// column, and the range-sum kernel accumulates inside them.
    #[verifier::rlimit(100)]
    pub fn range_window(&self, window_spec: &WindowSpec, window_fns: &Vec<Expr>) -> (r: DaftResult<
        Table,
    >)
        requires
            self.wf(),
            window_spec.descending@.len() == window_spec.order_by@.len(),
            window_spec.order_by@.len() >= 1,
            window_inputs_fit(*self, window_fns@),
            range_order_ok(*self, *window_spec),
        ensures
            r matches Ok(t) ==> range_windowed(*self, *window_spec, window_fns@, t),
            (exists|j: int|
                0 <= j < window_fns@.len() && !((#[trigger] window_fns@[j])
                    is WindowExpression)) ==> (r matches Err(e) && e is ValueError),
            (forall|j: int| 0 <= j < window_fns@.len() ==> (#[trigger] window_fns@[j])
                is WindowExpression) && (spec_range_bound(spec_frame_bounds(*window_spec).0)
                is None || spec_range_bound(spec_frame_bounds(*window_spec).1) is None) ==> (r
                matches Err(e) && e is ValueError),
            window_fns_all_sum_ok(*self, window_fns@) && window_keys_ok(*self, *window_spec)
                && spec_range_bound(spec_frame_bounds(*window_spec).0) is Some && spec_range_bound(
                spec_frame_bounds(*window_spec).1,
            ) is Some && (spec_eval_dtype(*self, window_spec.order_by@[0]).is_numeric()
                || spec_eval_dtype(*self, window_spec.order_by@[0]).is_temporal()) ==> r is Ok,
    {
        let nf = window_fns.len();
        let mut j: usize = 0;
        while j < nf
            invariant
                nf == window_fns@.len(),
                0 <= j <= nf,
                forall|a: int| 0 <= a < j ==> (#[trigger] window_fns@[a]) is WindowExpression,
            decreases nf - j,
        {
            match &window_fns[j] {
                Expr::WindowExpression(_) => {},
                _ => {
                    return Err(
                        DaftError::ValueError(
                            String::from_str(
                                "Trying to run non-window function in Partitioned Window!",
                            ),
                        ),
                    );
                },
            }
            j = j + 1;
        }
        let (left_bv, right_bv) = match &window_spec.frame {
            Some(f) => {
                let l = match Table::extract_range_bound(&f.left_bound) {
                    Ok(l) => l,
                    Err(e) => {
                        return Err(e);
                    },
                };
                let rr = match Table::extract_range_bound(&f.right_bound) {
                    Ok(rr) => rr,
                    Err(e) => {
                        return Err(e);
                    },
                };
                (l, rr)
            },
            None => (None, None),
        };
        let (ordered, gperm) = match self.sorted_for_window(window_spec) {
            Ok(p) => p,
            Err(e) => {
                proof {
                    assert(e is ValueError);
                }
                return Err(e);
            },
        };
        let ghost perm = gperm@;
        proof {
            assert forall|c: int|
                0 <= c < window_spec.partition_by@.len() implies spec_eval_ok(
                ordered,
                #[trigger] window_spec.partition_by@[c],
            ) == spec_eval_ok(*self, window_spec.partition_by@[c]) && spec_eval_name(
                ordered,
                window_spec.partition_by@[c],
            ) == spec_eval_name(*self, window_spec.partition_by@[c]) by {
                lemma_eval_transfer(*self, ordered, perm, window_spec.partition_by@[c]);
            }
        }
        let gs = match ordered.grouped_for_window(window_spec) {
            Ok(g) => g,
            Err(e) => {
                return Err(e);
            },
        };
        proof {
            lemma_eval_transfer(*self, ordered, perm, window_spec.order_by@[0]);
        }
        let ocol = match ordered.eval_expression(&window_spec.order_by[0]) {
            Ok(c) => c,
            Err(e) => {
                proof {
                    assert(!window_keys_ok(*self, *window_spec));
                }
                return Err(e);
            },
        };
        if !(ocol.data_type().exec_is_numeric() || ocol.data_type().exec_is_temporal()) {
            return Err(
                DaftError::ValueError(
                    String::from_str(
                        "Orderby column for range between clause must be numeric or temporal",
                    ),
                ),
            );
        }
        let descending0: bool = window_spec.descending[0];
        let ghost oc = ocol.values@;
        proof {
            // the order column is non-null, bounded, and sorted within
            // every group of the working table
            assert forall|i: int| 0 <= i < oc.len() implies (#[trigger] oc[i]) is Some by {
                lemma_order_cells_perm(*self, ordered, perm, window_spec.order_by@[0], i);
                assert(spec_eval_cells(*self, window_spec.order_by@[0])[perm[i] as int] is Some);
            }
            assert(all_fit_storage(oc));
            assert forall|g: int|
                0 <= g < gs@.len() implies crate::search::group_sorted(
                oc,
                (#[trigger] gs@[g])@,
                descending0,
            ) by {
                let idxs = gs@[g]@;
                assert(crate::groups::group_below(idxs, key_nrows(ordered, *window_spec)));
                if descending0 {
                    assert forall|k1: int, k2: int|
                        0 <= k1 <= k2 < idxs.len() implies #[trigger] crate::search::oval(
                        oc,
                        idxs,
                        k1,
                    ) >= #[trigger] crate::search::oval(oc, idxs, k2) by {
                        lemma_group_order_pair(
                            *self, ordered, perm, *window_spec, idxs, k1, k2, oc,
                        );
                    }
                } else {
                    assert forall|k1: int, k2: int|
                        0 <= k1 <= k2 < idxs.len() implies #[trigger] crate::search::oval(
                        oc,
                        idxs,
                        k1,
                    ) <= #[trigger] crate::search::oval(oc, idxs, k2) by {
                        lemma_group_order_pair(
                            *self, ordered, perm, *window_spec, idxs, k1, k2, oc,
                        );
                    }
                }
            }
        }
        let ng = gs.len();
        let mut lefts_all: Vec<Vec<usize>> = Vec::new();
        let mut rights_all: Vec<Vec<usize>> = Vec::new();
        let mut g: usize = 0;
        while g < ng
            invariant
                ng == gs@.len(),
                0 <= g <= ng,
                lefts_all@.len() == g,
                rights_all@.len() == g,
                oc == ocol.values@,
                ocol.spec_len() == ordered.spec_num_rows(),
                window_grouping(ordered, *window_spec, gs@),
                forall|i: int| 0 <= i < oc.len() ==> (#[trigger] oc[i]) is Some,
                all_fit_storage(oc),
                left_bv matches Some(b) ==> -0x1_0000_0000_0000_0000 <= b
                    <= 0xFFFF_FFFF_FFFF_FFFF,
                right_bv matches Some(b) ==> -0x1_0000_0000_0000_0000 <= b
                    <= 0xFFFF_FFFF_FFFF_FFFF,
                forall|g2: int|
                    0 <= g2 < gs@.len() ==> crate::search::group_sorted(
                        oc,
                        (#[trigger] gs@[g2])@,
                        descending0,
                    ),
                forall|g2: int|
                    0 <= g2 < g ==> edges_prefix_ok(
                        oc,
                        (#[trigger] gs@[g2])@,
                        left_bv,
                        right_bv,
                        descending0,
                        lefts_all@[g2]@,
                        rights_all@[g2]@,
                        gs@[g2]@.len() as int,
                    ),
                forall|g2: int|
                    0 <= g2 < g ==> crate::sum::bounds_wf(
                        (#[trigger] gs@[g2])@,
                        lefts_all@[g2]@,
                        rights_all@[g2]@,
                    ),
            decreases ng - g,
        {
            proof {
                assert(crate::groups::group_below(gs@[g as int]@, key_nrows(
                    ordered,
                    *window_spec,
                )));
                assert(crate::sum::group_in_bounds(gs@[g as int]@, oc.len() as int));
                assert forall|k: int|
                    0 <= k < gs@[g as int]@.len() implies oc[(#[trigger] gs@[g as int]@[k]) as int]
                    is Some by {}
            }
            let (lg, rg) = resolve_group_bounds(
                &ocol.values,
                &gs[g],
                left_bv,
                right_bv,
                descending0,
            );
            let ghost pre_l = lefts_all@;
            let ghost pre_r = rights_all@;
            lefts_all.push(lg);
            rights_all.push(rg);
            proof {
                assert forall|g2: int|
                    0 <= g2 < g + 1 implies edges_prefix_ok(
                    oc,
                    (#[trigger] gs@[g2])@,
                    left_bv,
                    right_bv,
                    descending0,
                    lefts_all@[g2]@,
                    rights_all@[g2]@,
                    gs@[g2]@.len() as int,
                ) by {
                    if g2 < g {
                        assert(lefts_all@[g2] == pre_l[g2]);
                        assert(rights_all@[g2] == pre_r[g2]);
                    }
                }
                assert forall|g2: int|
                    0 <= g2 < g + 1 implies crate::sum::bounds_wf(
                    (#[trigger] gs@[g2])@,
                    lefts_all@[g2]@,
                    rights_all@[g2]@,
                ) by {
                    if g2 < g {
                        assert(lefts_all@[g2] == pre_l[g2]);
                        assert(rights_all@[g2] == pre_r[g2]);
                    }
                }
            }
            g = g + 1;
        }
        let ghost lb = left_bv;
        let ghost rb = right_bv;
        let mut windowed: Vec<Series> = Vec::new();
        j = 0;
        while j < nf
            invariant
                self.wf(),
                window_inputs_fit(*self, window_fns@),
                nf == window_fns@.len(),
                0 <= j <= nf,
                forall|a: int| 0 <= a < nf ==> (#[trigger] window_fns@[a]) is WindowExpression,
                window_sorted(*self, *window_spec, ordered, perm),
                window_grouping(ordered, *window_spec, gs@),
                oc == ocol.values@,
                lb == left_bv,
                rb == right_bv,
                Some(lb) == spec_range_bound(spec_frame_bounds(*window_spec).0),
                Some(rb) == spec_range_bound(spec_frame_bounds(*window_spec).1),
                lefts_all@.len() == gs@.len(),
                rights_all@.len() == gs@.len(),
                forall|g2: int|
                    0 <= g2 < gs@.len() ==> edges_prefix_ok(
                        oc,
                        (#[trigger] gs@[g2])@,
                        lb,
                        rb,
                        descending0,
                        lefts_all@[g2]@,
                        rights_all@[g2]@,
                        gs@[g2]@.len() as int,
                    ),
                forall|g2: int|
                    0 <= g2 < gs@.len() ==> crate::sum::bounds_wf(
                        (#[trigger] gs@[g2])@,
                        lefts_all@[g2]@,
                        rights_all@[g2]@,
                    ),
                windowed@.len() == j,
                forall|a: int|
                    0 <= a < j ==> ((#[trigger] window_fns@[a]) matches Expr::WindowExpression(
                        WindowExpr::Sum(inner),
                    ) && windowed@[a].values@ == concat_blocks(
                        gs@.len() as int,
                        |g2: int| range_out_seq(
                            spec_eval_cells(ordered, *inner),
                            oc,
                            gs@[g2]@,
                            lb,
                            rb,
                            descending0,
                        ),
                    ) && windowed@[a].dtype == spec_eval_dtype(ordered, *inner).sum_accum_type()
                        && windowed@[a].name@ == spec_eval_name(ordered, *inner)
                        && windowed@[a].spec_len() == flat_order(gs@).len()),
            decreases nf - j,
        {
            match &window_fns[j] {
                Expr::WindowExpression(WindowExpr::Sum(inner)) => {
                    proof {
                        lemma_eval_transfer(*self, ordered, perm, *(*inner));
                    }
                    let col = match ordered.eval_expression(inner) {
                        Ok(c) => c,
                        Err(e) => {
                            proof {
                                assert(!window_fns_all_sum_ok(*self, window_fns@));
                            }
                            return Err(e);
                        },
                    };
                    proof {
                        assert forall|g2: int|
                            0 <= g2 < gs@.len() implies crate::sum::group_in_bounds(
                            (#[trigger] gs@[g2])@,
                            col.spec_len(),
                        ) by {
                            assert(crate::groups::group_below(gs@[g2]@, key_nrows(
                                ordered,
                                *window_spec,
                            )));
                        }
                        assert(crate::sum::groups_bounds_wf(gs@, lefts_all@, rights_all@));
                    }
                    let s = match col.windowed_range_sum(Some(&gs), &lefts_all, &rights_all) {
                        Ok(s) => s,
                        Err(e) => {
                            proof {
                                assert(!col.dtype.sum_supported());
                                assert(!window_fns_all_sum_ok(*self, window_fns@));
                            }
                            return Err(e);
                        },
                    };
                    proof {
                        // the kernel's supplied-bounds output equals the
                        // resolver-characterized output
                        assert forall|g2: int|
                            0 <= g2 < gs@.len() implies #[trigger] crate::sum::range_seq(
                            col.values@,
                            gs@[g2]@,
                            lefts_all@[g2]@,
                            rights_all@[g2]@,
                        ) == range_out_seq(
                            col.values@,
                            oc,
                            gs@[g2]@,
                            lb,
                            rb,
                            descending0,
                        ) by {
                            assert(crate::sum::range_seq(
                                col.values@,
                                gs@[g2]@,
                                lefts_all@[g2]@,
                                rights_all@[g2]@,
                            ) =~= range_out_seq(col.values@, oc, gs@[g2]@, lb, rb, descending0));
                        }
                        crate::flat::lemma_concat_blocks_congruence(
                            gs@.len() as int,
                            |g2: int| crate::sum::range_seq(
                                col.values@,
                                gs@[g2]@,
                                lefts_all@[g2]@,
                                rights_all@[g2]@,
                            ),
                            |g2: int| range_out_seq(
                                col.values@,
                                oc,
                                gs@[g2]@,
                                lb,
                                rb,
                                descending0,
                            ),
                        );
                        lemma_concat_blocks_len_eq(
                            gs@.len() as int,
                            |g2: int| crate::sum::range_seq(
                                col.values@,
                                gs@[g2]@,
                                lefts_all@[g2]@,
                                rights_all@[g2]@,
                            ),
                            |g2: int| gs@[g2]@,
                        );
                    }
                    windowed.push(s);
                },
                _ => {
                    proof {
                        assert(false);
                    }
                    return vstd::pervasive::unreached();
                },
            }
            j = j + 1;
        }
        proof {
            assert forall|g2: int|
                0 <= g2 < gs@.len() implies crate::sum::group_in_bounds(
                (#[trigger] gs@[g2])@,
                ordered.spec_num_rows(),
            ) by {
                assert(crate::groups::group_below(gs@[g2]@, key_nrows(ordered, *window_spec)));
            }
            assert forall|j2: int|
                0 <= j2 < windowed@.len() implies (#[trigger] windowed@[j2]).spec_len()
                == flat_order(gs@).len() by {
                assert(window_fns@[j2] is WindowExpression);
            }
        }
        let out = assemble_window_output(&ordered, &gs, windowed);
        proof {
            let base = self.columns@.len() as int;
            assert(ordered.columns@.len() == base);
            assert(oc == spec_eval_cells(ordered, window_spec.order_by@[0]));
            assert(Some(lb) == spec_range_bound(spec_frame_bounds(*window_spec).0));
            assert(Some(rb) == spec_range_bound(spec_frame_bounds(*window_spec).1));
            assert forall|j2: int|
                0 <= j2 < window_fns@.len() implies ((#[trigger] window_fns@[j2]) matches Expr::WindowExpression(
                WindowExpr::Sum(inner),
            ) && out.columns@[base + j2].values@ == concat_blocks(
                gs@.len() as int,
                |g2: int| range_out_seq(
                    spec_eval_cells(ordered, *inner),
                    spec_eval_cells(ordered, window_spec.order_by@[0]),
                    gs@[g2]@,
                    spec_range_bound(spec_frame_bounds(*window_spec).0)->Some_0,
                    spec_range_bound(spec_frame_bounds(*window_spec).1)->Some_0,
                    window_spec.descending@[0],
                ),
            ) && out.columns@[base + j2].dtype == spec_eval_dtype(
                ordered,
                *inner,
            ).sum_accum_type() && renamed_ok(
                col_names_prefix(out.columns@, base + j2),
                spec_eval_name(ordered, *inner),
                out.columns@[base + j2].name@,
            )) by {}
            assert(range_windowed(*self, *window_spec, window_fns@, out));
        }
        Ok(out)
    }
}

/// Within one group of the working table, ordering values follow the
/// sort direction of the first order-by column.
proof fn lemma_group_order_pair(
    src: Table,
    ordered: Table,
    perm: Seq<usize>,
    ws: WindowSpec,
    idxs: Seq<usize>,
    k1: int,
    k2: int,
    oc: Seq<Option<i128>>,
)
    requires
        src.wf(),
        ordered.wf(),
        ws.order_by@.len() >= 1,
        ws.descending@.len() == ws.order_by@.len(),
        window_sorted(src, ws, ordered, perm),
        spec_eval_ok(src, ws.order_by@[0]),
        oc == spec_eval_cells(ordered, ws.order_by@[0]),
        forall|i: int| 0 <= i < oc.len() ==> (#[trigger] oc[i]) is Some,
        crate::groups::group_ascending(idxs),
        crate::sum::group_in_bounds(idxs, ordered.spec_num_rows()),
        0 <= k1 <= k2 < idxs.len(),
    ensures
        ws.descending@[0] ==> crate::search::oval(oc, idxs, k1) >= crate::search::oval(
            oc,
            idxs,
            k2,
        ),
        !ws.descending@[0] ==> crate::search::oval(oc, idxs, k1) <= crate::search::oval(
            oc,
            idxs,
            k2,
        ),
{
    let i1 = idxs[k1] as int;
    let i2 = idxs[k2] as int;
    lemma_order_cells_perm(src, ordered, perm, ws.order_by@[0], i1);
    lemma_order_cells_perm(src, ordered, perm, ws.order_by@[0], i2);
    assert(oc[i1] is Some);
    assert(oc[i2] is Some);
    if k1 < k2 {
        assert(idxs[k1] < idxs[k2]);
        let kv = order_key_cells(src, ws);
        assert(crate::sort::lex_le(
            kv,
            ws.descending@,
            all_false(ws.order_by@.len()),
            perm[i1] as int,
            perm[i2] as int,
        ));
        crate::sort::lemma_lex_le_first(
            kv,
            ws.descending@,
            all_false(ws.order_by@.len()),
            perm[i1] as int,
            perm[i2] as int,
        );
        assert(kv[0] == spec_eval_cells(src, ws.order_by@[0]));
        assert(all_false(ws.order_by@.len())[0] == false);
        assert(crate::sort::cell_le(
            kv[0][perm[i1] as int],
            kv[0][perm[i2] as int],
            ws.descending@[0],
            false,
        ));
        assert(oc[i1] == kv[0][perm[i1] as int]);
        assert(oc[i2] == kv[0][perm[i2] as int]);
    }
}

impl Table {
    /// Window dispatch: every windowed computation requires at least one
    /// partition key; with no frame the computation is cumulative, with a
    /// frame it is row-framed or range-framed according to the frame kind.
    pub fn partitioned_window(
        &self,
        window_spec: &WindowSpec,
        window_fns: &Vec<Expr>,
        _window_names: Vec<String>,
    ) -> (r: DaftResult<Table>)
        requires
            self.wf(),
            window_spec.descending@.len() == window_spec.order_by@.len(),
            window_inputs_fit(*self, window_fns@),
            window_spec.spec_is_range() ==> window_spec.order_by@.len() >= 1 && range_order_ok(
                *self,
                *window_spec,
            ),
        ensures
            window_spec.partition_by@.len() == 0 ==> (r matches Err(e) && e is ValueError),
            window_spec.partition_by@.len() > 0 && !window_spec.spec_has_frame() ==> (r matches Ok(
                t,
            ) ==> cumulative_windowed(*self, *window_spec, window_fns@, t)),
            window_spec.partition_by@.len() > 0 && window_spec.spec_has_frame()
                && !window_spec.spec_is_range() ==> (r matches Ok(t) ==> row_windowed(
                *self,
                *window_spec,
                window_fns@,
                t,
            )),
            window_spec.partition_by@.len() > 0 && window_spec.spec_is_range() ==> (r matches Ok(t)
                ==> range_windowed(*self, *window_spec, window_fns@, t)),
            window_spec.partition_by@.len() > 0 && window_fns_all_sum_ok(*self, window_fns@)
                && window_keys_ok(*self, *window_spec) && (window_spec.spec_has_frame()
                && !window_spec.spec_is_range() ==> spec_row_offset(
                spec_frame_bounds(*window_spec).0,
            ) is Some && spec_row_offset(spec_frame_bounds(*window_spec).1) is Some) && (
            window_spec.spec_is_range() ==> spec_range_bound(spec_frame_bounds(*window_spec).0)
                is Some && spec_range_bound(spec_frame_bounds(*window_spec).1) is Some && (
            spec_eval_dtype(*self, window_spec.order_by@[0]).is_numeric() || spec_eval_dtype(
                *self,
                window_spec.order_by@[0],
            ).is_temporal())) ==> r is Ok,
    {
        if window_spec.partition_by.len() == 0 {
            return Err(
                DaftError::ValueError(
                    String::from_str("Non partitioned window functions not yet implemented"),
                ),
            );
        }
        let framed = window_spec.has_frame();
        if !framed {
            return self.cumulative_window(window_spec, window_fns);
        }
        if !window_spec.is_range() {
            self.row_window(window_spec, window_fns)
        } else {
            self.range_window(window_spec, window_fns)
        }
    }
}

} // verus!
