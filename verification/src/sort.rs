//! Stable multi-column sort: rows are ordered lexicographically by the
//! evaluated sort-key columns, each with its own descending and
//! nulls-first flag; ties keep their original order.

use vstd::prelude::*;
use crate::error::DaftResult;
use crate::expr::Expr;
use crate::series::Series;
use crate::sum::group_in_bounds;
use crate::table::{Table, spec_eval_ok, spec_eval_cells};

verus! {

/// One-column ordering of two cells: nulls compare equal to nulls and sort
/// to the end unless `nulls_first`; values compare numerically, reversed
/// when `descending`.
pub open spec fn cell_le(a: Option<i128>, b: Option<i128>, desc: bool, nulls_first: bool) -> bool {
    match (a, b) {
        (None, None) => true,
        (None, Some(_)) => nulls_first,
        (Some(_), None) => !nulls_first,
        (Some(x), Some(y)) => if desc {
            x >= y
        } else {
            x <= y
        },
    }
}

/// Lexicographic "row `i` sorts at or before row `j`", examined from key
/// column `c` onward.
pub open spec fn lex_le_from(
    keys: Seq<Seq<Option<i128>>>,
    descs: Seq<bool>,
    nfs: Seq<bool>,
    c: int,
    i: int,
    j: int,
) -> bool
    decreases keys.len() - c,
{
    if c < 0 || c >= keys.len() {
        true
    } else if keys[c][i] == keys[c][j] {
        lex_le_from(keys, descs, nfs, c + 1, i, j)
    } else {
        cell_le(keys[c][i], keys[c][j], descs[c], nfs[c])
    }
}

pub open spec fn lex_le(
    keys: Seq<Seq<Option<i128>>>,
    descs: Seq<bool>,
    nfs: Seq<bool>,
    i: int,
    j: int,
) -> bool {
    lex_le_from(keys, descs, nfs, 0, i, j)
}

/// The lexicographic preorder is total.
pub proof fn lemma_lex_total(
    keys: Seq<Seq<Option<i128>>>,
    descs: Seq<bool>,
    nfs: Seq<bool>,
    c: int,
    i: int,
    j: int,
)
    ensures
        lex_le_from(keys, descs, nfs, c, i, j) || lex_le_from(keys, descs, nfs, c, j, i),
    decreases keys.len() - c,
{
    if 0 <= c < keys.len() {
        if keys[c][i] == keys[c][j] {
            lemma_lex_total(keys, descs, nfs, c + 1, i, j);
        }
    }
}

/// The lexicographic preorder is transitive.
pub proof fn lemma_lex_trans(
    keys: Seq<Seq<Option<i128>>>,
    descs: Seq<bool>,
    nfs: Seq<bool>,
    c: int,
    i: int,
    j: int,
    k: int,
)
    requires
        lex_le_from(keys, descs, nfs, c, i, j),
        lex_le_from(keys, descs, nfs, c, j, k),
    ensures
        lex_le_from(keys, descs, nfs, c, i, k),
    decreases keys.len() - c,
{
    if 0 <= c < keys.len() {
        let a = keys[c][i];
        let b = keys[c][j];
        let d = keys[c][k];
        if a == b && b == d {
            lemma_lex_trans(keys, descs, nfs, c + 1, i, j, k);
        }
    }
}

/// The key views of a list of evaluated sort-key columns.
pub open spec fn key_views(cols: Seq<Series>) -> Seq<Seq<Option<i128>>> {
    cols.map(|_c: int, s: Series| s.values@)
}

/// Exec comparator for the lexicographic preorder.
fn row_le(keys: &Vec<Series>, descs: &Vec<bool>, nfs: &Vec<bool>, i: usize, j: usize) -> (r: bool)
    requires
        descs@.len() == keys@.len(),
        nfs@.len() == keys@.len(),
        forall|c: int|
            0 <= c < keys@.len() ==> i < (#[trigger] keys@[c]).spec_len() && j
                < keys@[c].spec_len(),
    ensures
        r == lex_le(key_views(keys@), descs@, nfs@, i as int, j as int),
{
    let n = keys.len();
    let mut c: usize = 0;
    while c < n
        invariant
            descs@.len() == keys@.len(),
            nfs@.len() == keys@.len(),
            forall|cc: int|
                0 <= cc < keys@.len() ==> i < (#[trigger] keys@[cc]).spec_len() && j
                    < keys@[cc].spec_len(),
            n == keys@.len(),
            0 <= c <= n,
            lex_le(key_views(keys@), descs@, nfs@, i as int, j as int) == lex_le_from(
                key_views(keys@),
                descs@,
                nfs@,
                c as int,
                i as int,
                j as int,
            ),
        decreases n - c,
    {
        let x = keys[c].values[i];
        let y = keys[c].values[j];
        let eq = match (x, y) {
            (None, None) => true,
            (Some(u), Some(v)) => u == v,
            _ => false,
        };
        proof {
            assert(key_views(keys@)[c as int] == keys@[c as int].values@);
        }
        if !eq {
            let le = match (x, y) {
                (None, None) => true,
                (None, Some(_)) => nfs[c],
                (Some(_), None) => !nfs[c],
                (Some(u), Some(v)) => if descs[c] {
                    u >= v
                } else {
                    u <= v
                },
            };
            return le;
        }
        c = c + 1;
    }
    true
}

/// A permutation `perm` of `0..n` listing row positions in stable sorted
/// order: sorted under the preorder, and ties (rows ordered both ways)
/// keep their original relative order.
pub open spec fn is_stable_sort_perm(
    keys: Seq<Seq<Option<i128>>>,
    descs: Seq<bool>,
    nfs: Seq<bool>,
    perm: Seq<usize>,
    n: int,
) -> bool {
    &&& perm.len() == n
    &&& forall|i: int| 0 <= i < perm.len() ==> (#[trigger] perm[i]) < n
    &&& forall|i: int, j: int| 0 <= i < j < perm.len() ==> #[trigger] perm[i] != #[trigger] perm[j]
    &&& forall|i: int, j: int|
        0 <= i < j < perm.len() ==> lex_le(keys, descs, nfs, (#[trigger] perm[i]) as int, (
        #[trigger] perm[j]) as int)
    &&& forall|i: int, j: int|
        0 <= i < j < perm.len() && lex_le(keys, descs, nfs, (#[trigger] perm[j]) as int, (
        #[trigger] perm[i]) as int) ==> perm[i] < perm[j]
}

/// Insertion sort over row positions, producing the stable permutation.
fn sort_perm_by_keys(keys: &Vec<Series>, descs: &Vec<bool>, nfs: &Vec<bool>, nrows: usize) -> (perm:
    Vec<usize>)
    requires
        descs@.len() == keys@.len(),
        nfs@.len() == keys@.len(),
        forall|c: int| 0 <= c < keys@.len() ==> (#[trigger] keys@[c]).spec_len() == nrows,
    ensures
        is_stable_sort_perm(key_views(keys@), descs@, nfs@, perm@, nrows as int),
{
    let ghost kv = key_views(keys@);
    let mut perm: Vec<usize> = Vec::new();
    let mut r: usize = 0;
    while r < nrows
        invariant
            descs@.len() == keys@.len(),
            nfs@.len() == keys@.len(),
            forall|c: int| 0 <= c < keys@.len() ==> (#[trigger] keys@[c]).spec_len() == nrows,
            kv == key_views(keys@),
            0 <= r <= nrows,
            perm@.len() == r,
            forall|i: int| 0 <= i < perm@.len() ==> (#[trigger] perm@[i]) < r,
            forall|i: int, j: int|
                0 <= i < j < perm@.len() ==> #[trigger] perm@[i] != #[trigger] perm@[j],
            forall|i: int, j: int|
                0 <= i < j < perm@.len() ==> lex_le(kv, descs@, nfs@, (#[trigger] perm@[i]) as int, (
                #[trigger] perm@[j]) as int),
            forall|i: int, j: int|
                0 <= i < j < perm@.len() && lex_le(kv, descs@, nfs@, (#[trigger] perm@[j]) as int, (
                #[trigger] perm@[i]) as int) ==> perm@[i] < perm@[j],
        decreases nrows - r,
    {
        let ghost entry = perm@;
        let mut pos: usize = perm.len();
        while pos > 0 && !row_le(keys, descs, nfs, perm[pos - 1], r)
            invariant
                descs@.len() == keys@.len(),
                nfs@.len() == keys@.len(),
                forall|c: int| 0 <= c < keys@.len() ==> (#[trigger] keys@[c]).spec_len() == nrows,
                kv == key_views(keys@),
                r < nrows,
                perm@ == entry,
                perm@.len() == r,
                forall|i: int| 0 <= i < perm@.len() ==> (#[trigger] perm@[i]) < r,
                0 <= pos <= perm@.len(),
                forall|idx: int|
                    pos <= idx < perm@.len() ==> !lex_le(kv, descs@, nfs@, (
                    #[trigger] perm@[idx]) as int, r as int),
            decreases pos,
        {
            pos = pos - 1;
        }
        proof {
            perm@.insert_ensures(pos as int, r);
        }
        perm.insert(pos, r);
        proof {
            let p = perm@;
            // the inserted row sorts after everything kept before it ...
            assert forall|i: int| 0 <= i < pos implies lex_le(
                kv,
                descs@,
                nfs@,
                (#[trigger] p[i]) as int,
                r as int,
            ) by {
                assert(p[i] == entry[i]);
                if i < pos - 1 {
                    assert(lex_le(kv, descs@, nfs@, entry[i] as int, entry[pos - 1] as int));
                    lemma_lex_trans(
                        kv,
                        descs@,
                        nfs@,
                        0,
                        entry[i] as int,
                        entry[pos - 1] as int,
                        r as int,
                    );
                }
            }
            // ... and before everything pushed behind it
            assert forall|j: int| pos < j < p.len() implies lex_le(
                kv,
                descs@,
                nfs@,
                r as int,
                (#[trigger] p[j]) as int,
            ) by {
                assert(p[j] == entry[j - 1]);
                assert(!lex_le(kv, descs@, nfs@, entry[j - 1] as int, r as int));
                lemma_lex_total(kv, descs@, nfs@, 0, r as int, entry[j - 1] as int);
            }
            assert(p[pos as int] == r);
            assert forall|i: int, j: int| 0 <= i < j < p.len() implies lex_le(
                kv,
                descs@,
                nfs@,
                (#[trigger] p[i]) as int,
                (#[trigger] p[j]) as int,
            ) by {
                if i < pos && j > pos {
                    assert(p[i] == entry[i] && p[j] == entry[j - 1]);
                    lemma_lex_trans(kv, descs@, nfs@, 0, p[i] as int, r as int, p[j] as int);
                } else if i > pos && j > pos {
                    assert(p[i] == entry[i - 1] && p[j] == entry[j - 1]);
                } else if i < pos && j < pos {
                    assert(p[i] == entry[i] && p[j] == entry[j]);
                }
            }
            assert forall|i: int, j: int|
                0 <= i < j < p.len() && lex_le(kv, descs@, nfs@, (#[trigger] p[j]) as int, (
                #[trigger] p[i]) as int) implies p[i] < p[j] by {
                if j == pos {
                    assert(p[i] == entry[i] && p[i] < r);
                } else if i == pos {
                    assert(p[j] == entry[j - 1]);
                    assert(!lex_le(kv, descs@, nfs@, entry[j - 1] as int, r as int));
                } else if i < pos && j > pos {
                    assert(p[i] == entry[i] && p[j] == entry[j - 1]);
                } else if i > pos {
                    assert(p[i] == entry[i - 1] && p[j] == entry[j - 1]);
                } else {
                    assert(p[i] == entry[i] && p[j] == entry[j]);
                }
            }
            assert forall|i: int, j: int| 0 <= i < j < p.len() implies #[trigger] p[i] != #[trigger] p[j] by {
                if j == pos {
                    assert(p[i] == entry[i] && p[i] < r);
                } else if i == pos {
                    assert(p[j] == entry[j - 1] && p[j] < r);
                }
            }
        }
        r = r + 1;
    }
    perm
}

impl Table {
    /// The stable sort permutation of this table's rows under the given
    /// sort-key expressions and flags. Row `k` of the sorted table is row
    /// `perm[k]` of this table.
    pub fn sort_perm(
        &self,
        sort_keys: &Vec<Expr>,
        descending: &Vec<bool>,
        nulls_first: &Vec<bool>,
    ) -> (r: DaftResult<Vec<usize>>)
        requires
            self.wf(),
            descending@.len() == sort_keys@.len(),
            nulls_first@.len() == sort_keys@.len(),
        ensures
            r matches Ok(perm) ==> (forall|c: int|
                0 <= c < sort_keys@.len() ==> spec_eval_ok(*self, #[trigger] sort_keys@[c]))
                && is_stable_sort_perm(
                sort_keys@.map(|_c: int, e: Expr| spec_eval_cells(*self, e)),
                descending@,
                nulls_first@,
                perm@,
                self.spec_num_rows(),
            ),
            r is Err ==> exists|c: int|
                0 <= c < sort_keys@.len() && !spec_eval_ok(*self, #[trigger] sort_keys@[c]),
            r matches Err(e) ==> e is ValueError,
    {
        let n = sort_keys.len();
        let mut key_cols: Vec<Series> = Vec::new();
        let mut c: usize = 0;
        while c < n
            invariant
                self.wf(),
                n == sort_keys@.len(),
                0 <= c <= n,
                key_cols@.len() == c,
                forall|a: int|
                    0 <= a < c ==> spec_eval_ok(*self, #[trigger] sort_keys@[a]) && key_cols@[a].values@
                        == spec_eval_cells(*self, sort_keys@[a]) && key_cols@[a].spec_len()
                        == self.spec_num_rows(),
            decreases n - c,
        {
            let s = match self.eval_expression(&sort_keys[c]) {
                Ok(s) => s,
                Err(e) => {
                    proof {
                        assert(!spec_eval_ok(*self, sort_keys@[c as int]));
                    }
                    return Err(e);
                },
            };
            key_cols.push(s);
            c = c + 1;
        }
        let nrows = self.num_rows();
        proof {
            assert forall|c2: int| 0 <= c2 < key_cols@.len() implies (
            #[trigger] key_cols@[c2]).spec_len() == self.spec_num_rows() by {
                assert(spec_eval_ok(*self, sort_keys@[c2]));
            }
        }
        let perm = sort_perm_by_keys(&key_cols, descending, nulls_first, nrows);
        proof {
            assert(key_views(key_cols@) =~= sort_keys@.map(
                |_c: int, e: Expr| spec_eval_cells(*self, e),
            ));
        }
        Ok(perm)
    }

    /// Stably sorts this table by the given sort keys: the result is this
    /// table's rows gathered through the stable sort permutation.
    pub fn sort(
        &self,
        sort_keys: &Vec<Expr>,
        descending: &Vec<bool>,
        nulls_first: &Vec<bool>,
    ) -> (r: DaftResult<Table>)
        requires
            self.wf(),
            descending@.len() == sort_keys@.len(),
            nulls_first@.len() == sort_keys@.len(),
        ensures
            r matches Ok(t) ==> t.wf() && t.schema.fields@ == self.schema.fields@ && exists|
                perm: Seq<usize>,
            |
                is_stable_sort_perm(
                    sort_keys@.map(|_c: int, e: Expr| spec_eval_cells(*self, e)),
                    descending@,
                    nulls_first@,
                    perm,
                    self.spec_num_rows(),
                ) && #[trigger] table_is_take(*self, t, perm),
            r is Err ==> exists|c: int|
                0 <= c < sort_keys@.len() && !spec_eval_ok(*self, #[trigger] sort_keys@[c]),
            r matches Err(e) ==> e is ValueError,
    {
        let perm = self.sort_perm(sort_keys, descending, nulls_first)?;
        let t = self.take(&perm);
        proof {
            assert(is_stable_sort_perm(
                sort_keys@.map(|_c: int, e: Expr| spec_eval_cells(*self, e)),
                descending@,
                nulls_first@,
                perm@,
                self.spec_num_rows(),
            ));
            assert(table_is_take(*self, t, perm@));
        }
        Ok(t)
    }
}

/// `t` is `src` with every column gathered through `perm`.
pub open spec fn table_is_take(src: Table, t: Table, perm: Seq<usize>) -> bool {
    &&& t.columns@.len() == src.columns@.len()
    &&& forall|c: int|
        0 <= c < t.columns@.len() ==> (#[trigger] t.columns@[c]).values@ == perm.map(
            |_k: int, row: usize| src.columns@[c].values@[row as int],
        ) && t.columns@[c].name@ == src.columns@[c].name@ && t.columns@[c].dtype
            == src.columns@[c].dtype
}

/// The lexicographic order projects to the first key column.
pub proof fn lemma_lex_le_first(
    keys: Seq<Seq<Option<i128>>>,
    descs: Seq<bool>,
    nfs: Seq<bool>,
    i: int,
    j: int,
)
    requires
        keys.len() > 0,
        lex_le(keys, descs, nfs, i, j),
    ensures
        cell_le(keys[0][i], keys[0][j], descs[0], nfs[0]),
{
}


} // verus!
