//! The as-of join: equality-hash-partition the right table's "by" columns,
//! then binary-search each matching class for the nearest eligible right
//! row under the comparison column, and assemble the joined output.

use vstd::prelude::*;
use vstd::string::*;
use crate::dtype::{DataType, spec_supertype, try_get_supertype};
use crate::error::{DaftError, DaftResult};
use crate::expr::Expr;
use crate::groups::{key_matrix, mrows_equal, rows_equal, rows_eq, group_ascending, covered,
    valid_grouping, group_below};
use crate::names::{renamed_ok, contains_str, views_of, views_of_prefix, resolve_name};
use crate::schema::{Field, Schema, names_unique, contains_name};
use crate::search::{asof_search, unwrap_cell, group_nonnull, group_sorted_asc, asof_eligible};
use crate::series::Series;
use crate::sum::group_in_bounds;
use crate::table::{Table, spec_eval_ok, spec_eval_cells, spec_eval_dtype, spec_eval_name,
    names_unique_series, equal_lengths};

verus! {

impl Table {
    /// Type-unifies two key tables column by column via supertype
    /// promotion; a pair of columns with no common supertype is a schema
    /// mismatch. Cell values are unchanged by the promotion.
    pub fn match_types_for_tables(left: &Table, right: &Table) -> (r: DaftResult<(Table, Table)>)
        requires
            left.wf(),
            right.wf(),
            left.columns@.len() == right.columns@.len(),
        ensures
            (forall|c: int|
                0 <= c < left.columns@.len() ==> spec_supertype(
                    (#[trigger] left.columns@[c]).dtype,
                    right.columns@[c].dtype,
                ) is Some) <==> r is Ok,
            r matches Ok(pair) ==> pair.0.wf() && pair.1.wf() && pair.0.columns@.len()
                == left.columns@.len() && pair.1.columns@.len() == right.columns@.len() && (forall|
                c: int,
            |
                0 <= c < left.columns@.len() ==> (#[trigger] pair.0.columns@[c]).values@
                    == left.columns@[c].values@ && pair.1.columns@[c].values@
                    == right.columns@[c].values@ && pair.0.columns@[c].name@
                    == left.columns@[c].name@ && pair.1.columns@[c].name@
                    == right.columns@[c].name@ && pair.0.columns@[c].dtype == spec_supertype(
                    left.columns@[c].dtype,
                    right.columns@[c].dtype,
                )->Some_0 && pair.1.columns@[c].dtype == spec_supertype(
                    left.columns@[c].dtype,
                    right.columns@[c].dtype,
                )->Some_0) && pair.0.spec_num_rows() == left.spec_num_rows()
                && pair.1.spec_num_rows() == right.spec_num_rows(),
            r matches Err(e) ==> e is SchemaMismatch,
    {
        let n = left.columns.len();
        let mut lseries: Vec<Series> = Vec::new();
        let mut rseries: Vec<Series> = Vec::new();
        let mut c: usize = 0;
        while c < n
            invariant
                left.wf(),
                right.wf(),
                n == left.columns@.len(),
                n == right.columns@.len(),
                0 <= c <= n,
                lseries@.len() == c,
                rseries@.len() == c,
                forall|a: int|
                    0 <= a < c ==> (#[trigger] lseries@[a]).values@ == left.columns@[a].values@
                        && rseries@[a].values@ == right.columns@[a].values@ && lseries@[a].name@
                        == left.columns@[a].name@ && rseries@[a].name@ == right.columns@[a].name@
                        && lseries@[a].spec_len() == left.columns@[a].spec_len()
                        && rseries@[a].spec_len() == right.columns@[a].spec_len(),
                forall|a: int|
                    0 <= a < c ==> spec_supertype(
                        (#[trigger] left.columns@[a]).dtype,
                        right.columns@[a].dtype,
                    ) is Some && lseries@[a].dtype == spec_supertype(
                        left.columns@[a].dtype,
                        right.columns@[a].dtype,
                    )->Some_0 && rseries@[a].dtype == spec_supertype(
                        left.columns@[a].dtype,
                        right.columns@[a].dtype,
                    )->Some_0,
            decreases n - c,
        {
            match try_get_supertype(&left.columns[c].data_type(), &right.columns[c].data_type()) {
                Some(st) => {
                    lseries.push(left.columns[c].with_dtype(st));
                    rseries.push(right.columns[c].with_dtype(st));
                },
                None => {
                    return Err(
                        DaftError::SchemaMismatch(
                            String::from_str(
                                "Can not perform join due to mismatch of types of left and right",
                            ),
                        ),
                    );
                },
            }
            c = c + 1;
        }
        proof {
            assert forall|a: int, b: int|
                0 <= a < b < lseries@.len() implies (#[trigger] lseries@[a]).name@ != (
            #[trigger] lseries@[b]).name@ by {
                assert(left.columns@[a].name@ == left.schema.fields@[a].name@);
                assert(left.columns@[b].name@ == left.schema.fields@[b].name@);
            }
            assert forall|a: int, b: int|
                0 <= a < b < rseries@.len() implies (#[trigger] rseries@[a]).name@ != (
            #[trigger] rseries@[b]).name@ by {
                assert(lseries@[a].name@ == left.columns@[a].name@);
                assert(lseries@[b].name@ == left.columns@[b].name@);
                assert(right.columns@[a].name@ == right.schema.fields@[a].name@);
                assert(right.columns@[b].name@ == right.schema.fields@[b].name@);
            }
            assert forall|a: int|
                0 <= a < lseries@.len() implies (#[trigger] lseries@[a]).spec_len()
                == lseries@[0].spec_len() by {
                assert(left.columns@[a].spec_len() == left.columns@[0].spec_len());
            }
            assert forall|a: int|
                0 <= a < rseries@.len() implies (#[trigger] rseries@[a]).spec_len()
                == rseries@[0].spec_len() by {
                assert(lseries@[a].spec_len() == left.columns@[a].spec_len());
                if rseries@.len() > 0 {
                    assert(lseries@[0].spec_len() == left.columns@[0].spec_len());
                }
                assert(right.columns@[a].spec_len() == right.columns@[0].spec_len());
            }
        }
        let lt = match Table::from_columns(lseries) {
            Ok(t) => t,
            Err(_) => {
                proof {
                    assert(false);
                }
                return vstd::pervasive::unreached();
            },
        };
        let rt = match Table::from_columns(rseries) {
            Ok(t) => t,
            Err(_) => {
                proof {
                    assert(false);
                }
                return vstd::pervasive::unreached();
            },
        };
        Ok((lt, rt))
    }
}


/// Appends a field whose name is not yet taken, keeping the running
/// fields-and-names invariant of the schema builder.
fn push_unique_field(fields: &mut Vec<Field>, names: &mut Vec<String>, f: Field)
    requires
        old(fields)@.len() == old(names)@.len(),
        forall|a: int, b: int|
            0 <= a < b < old(fields)@.len() ==> (#[trigger] old(fields)@[a]).name@ != (
            #[trigger] old(fields)@[b]).name@,
        forall|a: int|
            0 <= a < old(names)@.len() ==> (#[trigger] old(names)@[a])@ == old(fields)@[a].name@,
        !contains_str(views_of(old(names)@), f.name@),
    ensures
        final(fields)@ == old(fields)@.push(f),
        final(names)@.len() == final(fields)@.len(),
        forall|a: int, b: int|
            0 <= a < b < final(fields)@.len() ==> (#[trigger] final(fields)@[a]).name@ != (
            #[trigger] final(fields)@[b]).name@,
        forall|a: int|
            0 <= a < final(names)@.len() ==> (#[trigger] final(names)@[a])@
                == final(fields)@[a].name@,
{
    let ghost pre_fields = fields@;
    let ghost pre_names = names@;
    let fname = f.name.clone();
    fields.push(f);
    names.push(fname);
    proof {
        assert forall|a: int, b: int|
            0 <= a < b < fields@.len() implies (#[trigger] fields@[a]).name@ != (
        #[trigger] fields@[b]).name@ by {
            if b == fields@.len() - 1 {
                assert(fields@[a] == pre_fields[a]);
                assert(views_of(pre_names)[a] == pre_names[a]@);
                assert(pre_names[a]@ == pre_fields[a].name@);
                assert(!contains_str(views_of(pre_names), fields@[b].name@));
            } else {
                assert(fields@[a] == pre_fields[a]);
                assert(fields@[b] == pre_fields[b]);
            }
        }
        assert forall|a: int|
            0 <= a < names@.len() implies (#[trigger] names@[a])@ == fields@[a].name@ by {
            if a < names@.len() - 1 {
                assert(names@[a] == pre_names[a]);
                assert(fields@[a] == pre_fields[a]);
            }
        }
    }
}


/// The (name, type) pairs of a field list.
pub open spec fn field_pairs(fields: Seq<Field>) -> Seq<(Seq<char>, DataType)> {
    fields.map(|_i: int, f: Field| (f.name@, f.dtype))
}

/// Names of the first `m` fields.
pub open spec fn field_names_prefix(fields: Seq<Field>, m: int) -> Seq<Seq<char>> {
    Seq::new(m as nat, |i: int| fields[i].name@)
}

pub open spec fn pairs_contain_name(fs: Seq<(Seq<char>, DataType)>, name: Seq<char>) -> bool {
    exists|i: int| 0 <= i < fs.len() && (#[trigger] fs[i]).0 == name
}

/// The field of the `p`-th join key (on keys first, then by keys),
/// resolved against the left schema.
pub open spec fn spec_key_pair(
    lfields: Seq<Field>,
    left_on: Seq<Expr>,
    left_by: Seq<Expr>,
    p: int,
) -> (Seq<char>, DataType) {
    if p < left_on.len() {
        crate::expr::spec_to_field(left_on[p], lfields)->Some_0
    } else {
        crate::expr::spec_to_field(left_by[p - left_on.len()], lfields)->Some_0
    }
}

/// The join-key fields of the left side after the first `p` keys,
/// deduplicated by first occurrence of a name.
pub open spec fn spec_asof_key_fields(
    lfields: Seq<Field>,
    left_on: Seq<Expr>,
    left_by: Seq<Expr>,
    p: int,
) -> Seq<(Seq<char>, DataType)>
    decreases p,
{
    if p <= 0 {
        Seq::empty()
    } else {
        let prev = spec_asof_key_fields(lfields, left_on, left_by, p - 1);
        let kf = spec_key_pair(lfields, left_on, left_by, p - 1);
        if pairs_contain_name(prev, kf.0) {
            prev
        } else {
            prev.push(kf)
        }
    }
}

/// The key fields followed by the first `c` remaining left fields whose
/// names are not already placed.
pub open spec fn spec_asof_left_fields(
    base: Seq<(Seq<char>, DataType)>,
    lfields: Seq<Field>,
    c: int,
) -> Seq<(Seq<char>, DataType)>
    decreases c,
{
    if c <= 0 {
        base
    } else {
        let prev = spec_asof_left_fields(base, lfields, c - 1);
        let lf = lfields[c - 1];
        if pairs_contain_name(prev, lf.name@) {
            prev
        } else {
            prev.push((lf.name@, lf.dtype))
        }
    }
}

/// The whole left part of the join schema: key fields first, then the
/// remaining left fields in schema order.
pub open spec fn spec_asof_left_part(
    lfields: Seq<Field>,
    left_on: Seq<Expr>,
    left_by: Seq<Expr>,
) -> Seq<(Seq<char>, DataType)> {
    spec_asof_left_fields(
        spec_asof_key_fields(lfields, left_on, left_by, (left_on.len() + left_by.len()) as int),
        lfields,
        lfields.len() as int,
    )
}

/// The keep-filter of the right fields: everything that is not a shared
/// join key.
pub open spec fn right_keep_fields(
    rfields: Seq<Field>,
    zipped: Seq<(Seq<char>, Seq<char>)>,
) -> spec_fn(int) -> bool {
    |c: int| !spec_shared_key(zipped, rfields[c].name@)
}

/// The inferred join output schema: the left part, then the right fields
/// that are not shared join keys, each renamed where its name collides
/// with anything already placed.
pub open spec fn asof_schema_ok(
    lfields: Seq<Field>,
    rfields: Seq<Field>,
    left_on: Seq<Expr>,
    right_on: Seq<Expr>,
    left_by: Seq<Expr>,
    right_by: Seq<Expr>,
    out: Seq<Field>,
) -> bool {
    let leftpart = spec_asof_left_part(lfields, left_on, left_by);
    let zipped = spec_zipped_key_names(left_on, right_on, left_by, right_by);
    let keptr = kept_upto(rfields.len() as int, right_keep_fields(rfields, zipped));
    &&& out.len() == leftpart.len() + keptr.len()
    &&& forall|i: int|
        0 <= i < leftpart.len() ==> ((#[trigger] out[i]).name@, out[i].dtype) == leftpart[i]
    &&& forall|k: int|
        0 <= k < keptr.len() ==> (#[trigger] out[leftpart.len() + k]).dtype
            == rfields[keptr[k]].dtype && renamed_ok(
            field_names_prefix(out, leftpart.len() + k),
            rfields[keptr[k]].name@,
            out[leftpart.len() + k].name@,
        )
}

/// Everything schema inference needs to succeed: matching key-list
/// lengths, every key resolving to a field on its own side, and every
/// key carrying a column name.
pub open spec fn asof_schema_inputs_ok(
    lfields: Seq<Field>,
    rfields: Seq<Field>,
    left_on: Seq<Expr>,
    right_on: Seq<Expr>,
    left_by: Seq<Expr>,
    right_by: Seq<Expr>,
) -> bool {
    &&& left_on.len() == right_on.len()
    &&& left_by.len() == right_by.len()
    &&& forall|p: int|
        0 <= p < left_on.len() ==> crate::expr::spec_to_field(#[trigger] left_on[p], lfields)
            is Some
    &&& forall|p: int|
        0 <= p < left_by.len() ==> crate::expr::spec_to_field(#[trigger] left_by[p], lfields)
            is Some
    &&& forall|p: int|
        0 <= p < right_on.len() ==> crate::expr::spec_to_field(#[trigger] right_on[p], rfields)
            is Some
    &&& forall|p: int|
        0 <= p < right_by.len() ==> crate::expr::spec_to_field(#[trigger] right_by[p], rfields)
            is Some
    &&& forall|p: int|
        0 <= p < left_on.len() ==> crate::expr::spec_expr_name(#[trigger] left_on[p]) is Some
    &&& forall|p: int|
        0 <= p < left_by.len() ==> crate::expr::spec_expr_name(#[trigger] left_by[p]) is Some
    &&& forall|p: int|
        0 <= p < right_on.len() ==> crate::expr::spec_expr_name(#[trigger] right_on[p]) is Some
    &&& forall|p: int|
        0 <= p < right_by.len() ==> crate::expr::spec_expr_name(#[trigger] right_by[p]) is Some
}

/// Names and pair-firsts that agree elementwise contain the same strings.
proof fn lemma_contains_pairs(
    names: Seq<Seq<char>>,
    pairs: Seq<(Seq<char>, DataType)>,
    x: Seq<char>,
)
    requires
        names.len() == pairs.len(),
        forall|i: int| 0 <= i < names.len() ==> (#[trigger] names[i]) == pairs[i].0,
    ensures
        contains_str(names, x) == pairs_contain_name(pairs, x),
{
    if contains_str(names, x) {
        let i = choose|i: int| 0 <= i < names.len() && names[i] == x;
        assert(pairs[i].0 == x);
    }
    if pairs_contain_name(pairs, x) {
        let i = choose|i: int| 0 <= i < pairs.len() && (#[trigger] pairs[i]).0 == x;
        assert(names[i] == x);
    }
}

/// Validation and schema inference for the as-of join's output: the key
/// fields of the left side first, then the remaining left fields, then
/// the right fields that are not shared join keys, renamed where their
/// names collide.
pub fn infer_asof_schema(
    left: &Schema,
    right: &Schema,
    left_on: &Vec<Expr>,
    right_on: &Vec<Expr>,
    left_by: &Vec<Expr>,
    right_by: &Vec<Expr>,
) -> (r: DaftResult<Schema>)
    requires
        left.wf(),
        right.wf(),
    ensures
        left_on@.len() != right_on@.len() ==> (r matches Err(e) && e is ValueError),
        left_by@.len() != right_by@.len() && left_on@.len() == right_on@.len() ==> (r matches Err(e)
            && e is ValueError),
        r matches Ok(s) ==> s.wf() && asof_schema_ok(
            left.fields@,
            right.fields@,
            left_on@,
            right_on@,
            left_by@,
            right_by@,
            s.fields@,
        ),
        asof_schema_inputs_ok(
            left.fields@,
            right.fields@,
            left_on@,
            right_on@,
            left_by@,
            right_by@,
        ) ==> r is Ok,
{
    if left_on.len() != right_on.len() {
        let mut msg = String::from_str(
            "Length of left_on does not match length of right_on for Join ",
        );
        let ln = crate::strfmt::int_to_string(left_on.len() as i128);
        msg.append(ln.as_str());
        msg.append(" vs ");
        let rn = crate::strfmt::int_to_string(right_on.len() as i128);
        msg.append(rn.as_str());
        return Err(DaftError::ValueError(msg));
    }
    if left_by.len() != right_by.len() {
        let mut msg = String::from_str(
            "Length of left_by does not match length of right_by for Join ",
        );
        let ln = crate::strfmt::int_to_string(left_by.len() as i128);
        msg.append(ln.as_str());
        msg.append(" vs ");
        let rn = crate::strfmt::int_to_string(right_by.len() as i128);
        msg.append(rn.as_str());
        return Err(DaftError::ValueError(msg));
    }
    let nk = left_on.len();
    let nb = left_by.len();
    // every key must resolve against its own side
    let mut v: usize = 0;
    while v < nk
        invariant
            left.wf(),
            right.wf(),
            0 <= v <= nk,
            nk == left_on@.len(),
            left_on@.len() == right_on@.len(),
            left_by@.len() == right_by@.len(),
        decreases nk - v,
    {
        let _lf = left_on[v].to_field(left)?;
        let _rf = right_on[v].to_field(right)?;
        v = v + 1;
    }
    let mut v2: usize = 0;
    while v2 < nb
        invariant
            left.wf(),
            right.wf(),
            0 <= v2 <= nb,
            nb == left_by@.len(),
            left_on@.len() == right_on@.len(),
            left_by@.len() == right_by@.len(),
        decreases nb - v2,
    {
        let _lf = left_by[v2].to_field(left)?;
        let _rf = right_by[v2].to_field(right)?;
        v2 = v2 + 1;
    }
    let mut join_fields: Vec<Field> = Vec::new();
    let mut names: Vec<String> = Vec::new();
    // the key fields of the left side, in on-then-by order, deduplicated
    let mut i: usize = 0;
    while i < nk
        invariant
            left.wf(),
            0 <= i <= nk,
            nk == left_on@.len(),
            left_on@.len() == right_on@.len(),
            left_by@.len() == right_by@.len(),
            join_fields@.len() == names@.len(),
            forall|a: int, b: int|
                0 <= a < b < join_fields@.len() ==> (#[trigger] join_fields@[a]).name@ != (
                #[trigger] join_fields@[b]).name@,
            forall|a: int|
                0 <= a < names@.len() ==> (#[trigger] names@[a])@ == join_fields@[a].name@,
            field_pairs(join_fields@) == spec_asof_key_fields(
                left.fields@,
                left_on@,
                left_by@,
                i as int,
            ),
        decreases nk - i,
    {
        let f = left_on[i].to_field(left)?;
        let ghost pre = join_fields@;
        proof {
            lemma_contains_pairs(
                crate::names::views_of(names@),
                field_pairs(join_fields@),
                f.name@,
            );
            assert(spec_key_pair(left.fields@, left_on@, left_by@, i as int) == (
                f.name@,
                f.dtype,
            ));
        }
        if !crate::names::names_contain(&names, &f.name) {
            push_unique_field(&mut join_fields, &mut names, f);
            proof {
                assert(field_pairs(join_fields@) =~= field_pairs(pre).push(
                    spec_key_pair(left.fields@, left_on@, left_by@, i as int),
                ));
            }
        }
        i = i + 1;
    }
    let mut i2: usize = 0;
    while i2 < nb
        invariant
            left.wf(),
            0 <= i2 <= nb,
            nk == left_on@.len(),
            nb == left_by@.len(),
            left_on@.len() == right_on@.len(),
            left_by@.len() == right_by@.len(),
            join_fields@.len() == names@.len(),
            forall|a: int, b: int|
                0 <= a < b < join_fields@.len() ==> (#[trigger] join_fields@[a]).name@ != (
                #[trigger] join_fields@[b]).name@,
            forall|a: int|
                0 <= a < names@.len() ==> (#[trigger] names@[a])@ == join_fields@[a].name@,
            field_pairs(join_fields@) == spec_asof_key_fields(
                left.fields@,
                left_on@,
                left_by@,
                nk + i2 as int,
            ),
        decreases nb - i2,
    {
        let f = left_by[i2].to_field(left)?;
        let ghost pre = join_fields@;
        proof {
            lemma_contains_pairs(
                crate::names::views_of(names@),
                field_pairs(join_fields@),
                f.name@,
            );
            assert(spec_key_pair(left.fields@, left_on@, left_by@, nk + i2 as int) == (
                f.name@,
                f.dtype,
            ));
        }
        if !crate::names::names_contain(&names, &f.name) {
            push_unique_field(&mut join_fields, &mut names, f);
            proof {
                assert(field_pairs(join_fields@) =~= field_pairs(pre).push(
                    spec_key_pair(left.fields@, left_on@, left_by@, nk + i2 as int),
                ));
            }
        }
        i2 = i2 + 1;
    }
    let ghost key_part = spec_asof_key_fields(
        left.fields@,
        left_on@,
        left_by@,
        (nk + nb) as int,
    );
    // the remaining left fields, in schema order
    let nl = left.fields.len();
    let mut c: usize = 0;
    while c < nl
        invariant
            left.wf(),
            0 <= c <= nl,
            nl == left.fields@.len(),
            key_part == spec_asof_key_fields(
                left.fields@,
                left_on@,
                left_by@,
                (left_on@.len() + left_by@.len()) as int,
            ),
            join_fields@.len() == names@.len(),
            forall|a: int, b: int|
                0 <= a < b < join_fields@.len() ==> (#[trigger] join_fields@[a]).name@ != (
                #[trigger] join_fields@[b]).name@,
            forall|a: int|
                0 <= a < names@.len() ==> (#[trigger] names@[a])@ == join_fields@[a].name@,
            field_pairs(join_fields@) == spec_asof_left_fields(key_part, left.fields@, c as int),
        decreases nl - c,
    {
        let ghost pre = join_fields@;
        proof {
            lemma_contains_pairs(
                crate::names::views_of(names@),
                field_pairs(join_fields@),
                left.fields@[c as int].name@,
            );
        }
        if !crate::names::names_contain(&names, &left.fields[c].name) {
            push_unique_field(&mut join_fields, &mut names, left.fields[c].duplicate());
            proof {
                assert(field_pairs(join_fields@) =~= field_pairs(pre).push((
                    left.fields@[c as int].name@,
                    left.fields@[c as int].dtype,
                )));
            }
        }
        c = c + 1;
    }
    let ghost leftpart = spec_asof_left_part(left.fields@, left_on@, left_by@);
    proof {
        assert(field_pairs(join_fields@) == leftpart);
    }
    // the (left, right) key names, for the shared-key suppression rule
    let mut lkey_names: Vec<String> = Vec::new();
    let mut rkey_names: Vec<String> = Vec::new();
    let mut p: usize = 0;
    while p < nk
        invariant
            0 <= p <= nk,
            nk == left_on@.len(),
            nk == right_on@.len(),
            left_on@.len() == right_on@.len(),
            left_by@.len() == right_by@.len(),
            lkey_names@.len() == p,
            rkey_names@.len() == p,
            forall|a: int|
                0 <= a < p ==> (#[trigger] lkey_names@[a])@ == crate::expr::spec_expr_name(
                    left_on@[a],
                )->Some_0,
            forall|a: int|
                0 <= a < p ==> (#[trigger] rkey_names@[a])@ == crate::expr::spec_expr_name(
                    right_on@[a],
                )->Some_0,
        decreases nk - p,
    {
        let ln = left_on[p].name()?;
        let rn = right_on[p].name()?;
        let ghost pre_l = lkey_names@;
        let ghost pre_r = rkey_names@;
        lkey_names.push(ln);
        rkey_names.push(rn);
        proof {
            assert forall|a: int|
                0 <= a < p + 1 implies (#[trigger] lkey_names@[a])@ == crate::expr::spec_expr_name(
                left_on@[a],
            )->Some_0 by {
                if a < p {
                    assert(lkey_names@[a] == pre_l[a]);
                }
            }
            assert forall|a: int|
                0 <= a < p + 1 implies (#[trigger] rkey_names@[a])@ == crate::expr::spec_expr_name(
                right_on@[a],
            )->Some_0 by {
                if a < p {
                    assert(rkey_names@[a] == pre_r[a]);
                }
            }
        }
        p = p + 1;
    }
    let mut p2: usize = 0;
    while p2 < nb
        invariant
            0 <= p2 <= nb,
            nk == left_on@.len(),
            nb == left_by@.len(),
            nb == right_by@.len(),
            left_on@.len() == right_on@.len(),
            left_by@.len() == right_by@.len(),
            lkey_names@.len() == nk + p2,
            rkey_names@.len() == nk + p2,
            forall|a: int|
                0 <= a < nk ==> (#[trigger] lkey_names@[a])@ == crate::expr::spec_expr_name(
                    left_on@[a],
                )->Some_0,
            forall|a: int|
                0 <= a < nk ==> (#[trigger] rkey_names@[a])@ == crate::expr::spec_expr_name(
                    right_on@[a],
                )->Some_0,
            forall|a: int|
                nk <= a < nk + p2 ==> (#[trigger] lkey_names@[a])@
                    == crate::expr::spec_expr_name(left_by@[a - nk])->Some_0,
            forall|a: int|
                nk <= a < nk + p2 ==> (#[trigger] rkey_names@[a])@
                    == crate::expr::spec_expr_name(right_by@[a - nk])->Some_0,
        decreases nb - p2,
    {
        let ln = left_by[p2].name()?;
        let rn = right_by[p2].name()?;
        let ghost pre_l = lkey_names@;
        let ghost pre_r = rkey_names@;
        lkey_names.push(ln);
        rkey_names.push(rn);
        proof {
            assert forall|a: int|
                0 <= a < nk + p2 + 1 implies (#[trigger] lkey_names@[a])@ == (if a < nk {
                crate::expr::spec_expr_name(left_on@[a])->Some_0
            } else {
                crate::expr::spec_expr_name(left_by@[a - nk])->Some_0
            }) by {
                if a < nk + p2 {
                    assert(lkey_names@[a] == pre_l[a]);
                } else {
                    assert(lkey_names@[a] == ln);
                }
            }
            assert forall|a: int|
                0 <= a < nk + p2 + 1 implies (#[trigger] rkey_names@[a])@ == (if a < nk {
                crate::expr::spec_expr_name(right_on@[a])->Some_0
            } else {
                crate::expr::spec_expr_name(right_by@[a - nk])->Some_0
            }) by {
                if a < nk + p2 {
                    assert(rkey_names@[a] == pre_r[a]);
                } else {
                    assert(rkey_names@[a] == rn);
                }
            }
        }
        p2 = p2 + 1;
    }
    let ghost zipped = spec_zipped_key_names(left_on@, right_on@, left_by@, right_by@);
    proof {
        assert forall|a: int|
            0 <= a < zipped_views(lkey_names@, rkey_names@).len() implies #[trigger] zipped_views(
            lkey_names@,
            rkey_names@,
        )[a] == zipped[a] by {
            if a >= nk {
                assert(lkey_names@[nk + (a - nk)]@ == crate::expr::spec_expr_name(
                    left_by@[a - nk],
                )->Some_0);
                assert(rkey_names@[nk + (a - nk)]@ == crate::expr::spec_expr_name(
                    right_by@[a - nk],
                )->Some_0);
            }
        }
        assert(zipped_views(lkey_names@, rkey_names@) =~= zipped);
    }
    let ghost rkeep = right_keep_fields(right.fields@, zipped);
    // the right fields that are not shared join keys, under resolved names
    let nr = right.fields.len();
    let mut c2: usize = 0;
    while c2 < nr
        invariant
            right.wf(),
            0 <= c2 <= nr,
            nr == right.fields@.len(),
            zipped == spec_zipped_key_names(left_on@, right_on@, left_by@, right_by@),
            zipped_views(lkey_names@, rkey_names@) == zipped,
            rkeep == right_keep_fields(right.fields@, zipped),
            lkey_names@.len() == rkey_names@.len(),
            0 <= leftpart.len(),
            join_fields@.len() == leftpart.len() + kept_upto(c2 as int, rkeep).len(),
            join_fields@.len() == names@.len(),
            forall|a: int, b: int|
                0 <= a < b < join_fields@.len() ==> (#[trigger] join_fields@[a]).name@ != (
                #[trigger] join_fields@[b]).name@,
            forall|a: int|
                0 <= a < names@.len() ==> (#[trigger] names@[a])@ == join_fields@[a].name@,
            forall|a: int|
                0 <= a < leftpart.len() ==> ((#[trigger] join_fields@[a]).name@,
                join_fields@[a].dtype) == leftpart[a],
            forall|k: int|
                0 <= k < kept_upto(c2 as int, rkeep).len() ==> ((
                #[trigger] join_fields@[leftpart.len() + k]).dtype == right.fields@[kept_upto(
                    c2 as int,
                    rkeep,
                )[k]].dtype && renamed_ok(
                    field_names_prefix(join_fields@, leftpart.len() + k),
                    right.fields@[kept_upto(c2 as int, rkeep)[k]].name@,
                    join_fields@[leftpart.len() + k].name@,
                )),
        decreases nr - c2,
    {
        let shared = shared_key_name(&lkey_names, &rkey_names, &right.fields[c2].name);
        proof {
            assert(shared == spec_shared_key(zipped, right.fields@[c2 as int].name@));
        }
        if !shared {
            let resolved = resolve_name(&names, &right.fields[c2].name);
            let ghost pre = join_fields@;
            proof {
                assert(views_of(names@) =~= field_names_prefix(pre, pre.len() as int));
            }
            push_unique_field(&mut join_fields, &mut names, right.fields[c2].rename(resolved));
            proof {
                assert(join_fields@ == pre.push(join_fields@[pre.len() as int]));
                lemma_infer_push_right(
                    right.fields@,
                    rkeep,
                    leftpart,
                    pre,
                    join_fields@[pre.len() as int],
                    c2 as int,
                );
                assert(kept_upto(c2 + 1 as int, rkeep) == kept_upto(c2 as int, rkeep).push(
                    c2 as int,
                ));
                assert forall|a: int|
                    0 <= a < leftpart.len() implies ((#[trigger] join_fields@[a]).name@,
                join_fields@[a].dtype) == leftpart[a] by {
                    assert(join_fields@[a] == pre[a]);
                }
            }
        } else {
            proof {
                assert(kept_upto(c2 + 1 as int, rkeep) == kept_upto(c2 as int, rkeep));
            }
        }
        c2 = c2 + 1;
    }
    let ghost final_fields = join_fields@;
    let r = Schema::new(join_fields);
    proof {
        match &r {
            Ok(s) => {
                assert(s.fields@ == final_fields);
                assert(asof_schema_ok(
                    left.fields@,
                    right.fields@,
                    left_on@,
                    right_on@,
                    left_by@,
                    right_by@,
                    s.fields@,
                ));
            },
            Err(_) => {},
        }
    }
    r
}

/// Appending the next renamed right field extends the kept-right segment
/// of the inferred schema.
proof fn lemma_infer_push_right(
    rfields: Seq<Field>,
    rkeep: spec_fn(int) -> bool,
    leftpart: Seq<(Seq<char>, DataType)>,
    pre: Seq<Field>,
    fnew: Field,
    c2: int,
)
    requires
        0 <= c2 < rfields.len(),
        rkeep(c2),
        pre.len() == leftpart.len() + kept_upto(c2, rkeep).len(),
        forall|k: int|
            0 <= k < kept_upto(c2, rkeep).len() ==> ((#[trigger] pre[leftpart.len() + k]).dtype
                == rfields[kept_upto(c2, rkeep)[k]].dtype && renamed_ok(
                field_names_prefix(pre, leftpart.len() + k),
                rfields[kept_upto(c2, rkeep)[k]].name@,
                pre[leftpart.len() + k].name@,
            )),
        fnew.dtype == rfields[c2].dtype,
        renamed_ok(field_names_prefix(pre, pre.len() as int), rfields[c2].name@, fnew.name@),
    ensures
        pre.push(fnew).len() == leftpart.len() + kept_upto(c2 + 1, rkeep).len(),
        forall|k: int|
            0 <= k < kept_upto(c2 + 1, rkeep).len() ==> ((#[trigger] pre.push(fnew)[leftpart.len()
                + k]).dtype == rfields[kept_upto(c2 + 1, rkeep)[k]].dtype && renamed_ok(
                field_names_prefix(pre.push(fnew), leftpart.len() + k),
                rfields[kept_upto(c2 + 1, rkeep)[k]].name@,
                pre.push(fnew)[leftpart.len() + k].name@,
            )),
{
    let cols = pre.push(fnew);
    assert(kept_upto(c2 + 1, rkeep) == kept_upto(c2, rkeep).push(c2));
    assert forall|k: int|
        0 <= k < kept_upto(c2 + 1, rkeep).len() implies ((#[trigger] cols[leftpart.len()
            + k]).dtype == rfields[kept_upto(c2 + 1, rkeep)[k]].dtype && renamed_ok(
        field_names_prefix(cols, leftpart.len() + k),
        rfields[kept_upto(c2 + 1, rkeep)[k]].name@,
        cols[leftpart.len() + k].name@,
    )) by {
        if k < kept_upto(c2, rkeep).len() {
            assert(cols[leftpart.len() + k] == pre[leftpart.len() + k]);
            assert(kept_upto(c2 + 1, rkeep)[k] == kept_upto(c2, rkeep)[k]);
            assert(field_names_prefix(cols, leftpart.len() + k) =~= field_names_prefix(
                pre,
                leftpart.len() + k,
            ));
        } else {
            assert(kept_upto(c2 + 1, rkeep)[k] == c2);
            assert(leftpart.len() + k == pre.len());
            assert(cols[leftpart.len() + k] == fnew);
            assert(field_names_prefix(cols, leftpart.len() + k) =~= field_names_prefix(
                pre,
                pre.len() as int,
            ));
        }
    }
}

/// Whether the last join-key pair carrying this right-side name maps it to
/// an identically-named left key, in which case the right copy is
/// suppressed from the join output.
fn shared_key_name(lkey_names: &Vec<String>, rkey_names: &Vec<String>, name: &String) -> (r: bool)
    requires
        lkey_names@.len() == rkey_names@.len(),
    ensures
        r == spec_shared_key(zipped_views(lkey_names@, rkey_names@), name@),
{
    let ghost zipped = zipped_views(lkey_names@, rkey_names@);
    let n = rkey_names.len();
    let mut i: usize = n;
    proof {
        assert(zipped.take(n as int) =~= zipped);
    }
    while i > 0
        invariant
            lkey_names@.len() == rkey_names@.len(),
            zipped == zipped_views(lkey_names@, rkey_names@),
            n == rkey_names@.len(),
            0 <= i <= n,
            spec_shared_key(zipped, name@) == spec_shared_key(zipped.take(i as int), name@),
        decreases i,
    {
        i = i - 1;
        proof {
            assert(zipped.take(i + 1 as int).last() == zipped[i as int]);
            assert(zipped.take(i + 1 as int).drop_last() =~= zipped.take(i as int));
            assert(zipped[i as int].1 == rkey_names@[i as int]@);
            assert(zipped[i as int].0 == lkey_names@[i as int]@);
        }
        if rkey_names[i].eq(name) {
            return lkey_names[i].eq(name);
        }
    }
    false
}

/// The evaluated "by" key columns of a table, as a matrix.
pub open spec fn by_matrix(t: Table, by: Seq<Expr>) -> Seq<Seq<Option<i128>>> {
    by.map(|_c: int, e: Expr| spec_eval_cells(t, e))
}

/// One left row and one right row form an as-of pair: their by-key tuples
/// are equal under null-aware equality, both comparison values are
/// non-null (an incomparable comparison is never a match), and the right
/// value lies at or strictly below the left one according to
/// `allow_exact_matches`.
pub open spec fn asof_pair_ok(
    lbm: Seq<Seq<Option<i128>>>,
    rbm: Seq<Seq<Option<i128>>>,
    lon: Seq<Option<i128>>,
    ron: Seq<Option<i128>>,
    l: int,
    rr: int,
    allow: bool,
) -> bool {
    &&& mrows_equal(lbm, l, rbm, rr)
    &&& lon[l] matches Some(lv) && ron[rr] matches Some(rv) && (if allow {
        rv <= lv
    } else {
        rv < lv
    })
}

pub open spec fn asof_has_match(
    lbm: Seq<Seq<Option<i128>>>,
    rbm: Seq<Seq<Option<i128>>>,
    lon: Seq<Option<i128>>,
    ron: Seq<Option<i128>>,
    l: int,
    rn: int,
    allow: bool,
) -> bool {
    exists|rr: int| 0 <= rr < rn && asof_pair_ok(lbm, rbm, lon, ron, l, rr, allow)
}

/// `rr` is the match of left row `l`: an eligible pair with no eligible
/// right row after it.
pub open spec fn asof_is_match(
    lbm: Seq<Seq<Option<i128>>>,
    rbm: Seq<Seq<Option<i128>>>,
    lon: Seq<Option<i128>>,
    ron: Seq<Option<i128>>,
    l: int,
    rr: int,
    rn: int,
    allow: bool,
) -> bool {
    &&& 0 <= rr < rn
    &&& asof_pair_ok(lbm, rbm, lon, ron, l, rr, allow)
    &&& forall|r2: int| rr < r2 < rn ==> !asof_pair_ok(lbm, rbm, lon, ron, l, r2, allow)
}

pub open spec fn li_covers(li: Seq<usize>, l: int) -> bool {
    exists|k: int| 0 <= k < li.len() && li[k] == l
}

/// The join's index pair: matched left rows in ascending order, each with
/// its nearest eligible right row, and exactly the left rows that have a
/// match (inner-style semantics: unmatched left rows are excluded).
pub open spec fn matched_rows_ok(
    lbm: Seq<Seq<Option<i128>>>,
    rbm: Seq<Seq<Option<i128>>>,
    lon: Seq<Option<i128>>,
    ron: Seq<Option<i128>>,
    ln: int,
    rn: int,
    allow: bool,
    li: Seq<usize>,
    ri: Seq<usize>,
) -> bool {
    &&& li.len() == ri.len()
    &&& forall|k: int| 0 <= k < li.len() ==> (#[trigger] li[k]) < ln
    &&& forall|k1: int, k2: int| 0 <= k1 < k2 < li.len() ==> #[trigger] li[k1] < #[trigger] li[k2]
    &&& forall|k: int|
        0 <= k < li.len() ==> asof_is_match(
            lbm,
            rbm,
            lon,
            ron,
            (#[trigger] li[k]) as int,
            (#[trigger] ri[k]) as int,
            rn,
            allow,
        )
    &&& forall|l: int|
        0 <= l < ln && asof_has_match(lbm, rbm, lon, ron, l, rn, allow) ==> li_covers(li, l)
}

/// Scans the grouping of the right key table for the class equal to one
/// left row's key tuple (a full equality check, never a bare hash).
fn find_key_class(
    left_keys: &Table,
    right_keys: &Table,
    gs: &crate::series::GroupIndices,
    l: usize,
) -> (res: Option<usize>)
    requires
        left_keys.wf(),
        right_keys.wf(),
        left_keys.columns@.len() > 0 ==> l < left_keys.spec_num_rows(),
        forall|g: int| 0 <= g < gs@.len() ==> (#[trigger] gs@[g])@.len() > 0,
        left_keys.columns@.len() > 0 ==> crate::groups::groups_below(
            gs@,
            right_keys.spec_num_rows(),
        ),
        left_keys.columns@.len() == 0 ==> right_keys.columns@.len() == 0,
    ensures
        res matches Some(gi) ==> gi < gs@.len() && rows_equal(
            *left_keys,
            l as int,
            *right_keys,
            gs@[gi as int]@[0] as int,
        ),
        res is None ==> forall|g: int|
            0 <= g < gs@.len() ==> !rows_equal(
                *left_keys,
                l as int,
                *right_keys,
                (#[trigger] gs@[g])@[0] as int,
            ),
{
    let n = gs.len();
    let mut gi: usize = 0;
    while gi < n
        invariant
            left_keys.wf(),
            right_keys.wf(),
            left_keys.columns@.len() > 0 ==> l < left_keys.spec_num_rows(),
            forall|g: int| 0 <= g < gs@.len() ==> (#[trigger] gs@[g])@.len() > 0,
            left_keys.columns@.len() > 0 ==> crate::groups::groups_below(
                gs@,
                right_keys.spec_num_rows(),
            ),
            left_keys.columns@.len() == 0 ==> right_keys.columns@.len() == 0,
            n == gs@.len(),
            0 <= gi <= n,
            forall|g: int|
                0 <= g < gi ==> !rows_equal(
                    *left_keys,
                    l as int,
                    *right_keys,
                    (#[trigger] gs@[g])@[0] as int,
                ),
        decreases n - gi,
    {
        let rep = gs[gi][0];
        if left_keys.columns.len() == 0 {
            proof {
                assert(crate::groups::row_key(*left_keys, l as int) =~= crate::groups::row_key(
                    *right_keys,
                    rep as int,
                ));
            }
            return Some(gi);
        }
        proof {
            assert(crate::groups::group_below(gs@[gi as int]@, right_keys.spec_num_rows()));
        }
        if rows_eq(left_keys, l, right_keys, rep) {
            return Some(gi);
        }
        gi = gi + 1;
    }
    None
}

/// For each left row, finds the nearest eligible right row: hash-style
/// equality partitioning of the right key table (each class confirmed by
/// full equality), then binary search within the matching class. Left
/// rows with no class or no eligible position are excluded.
#[verifier::rlimit(100)]
fn asof_match_indices(
    left_keys: &Table,
    right_keys: &Table,
    lon: &Vec<Option<i128>>,
    ron: &Vec<Option<i128>>,
    allow: bool,
) -> (r: (Vec<usize>, Vec<usize>))
    requires
        left_keys.wf(),
        right_keys.wf(),
        left_keys.columns@.len() == right_keys.columns@.len(),
        left_keys.columns@.len() > 0 ==> left_keys.spec_num_rows() == lon@.len()
            && right_keys.spec_num_rows() == ron@.len(),
        right_keys.columns@.len() == 0 ==> right_keys.spec_num_rows() == 0,
        forall|i: int| 0 <= i < ron@.len() ==> (#[trigger] ron@[i]) is Some,
        forall|i: int, j: int|
            0 <= i <= j < ron@.len() ==> unwrap_cell(#[trigger] ron@[i]) <= unwrap_cell(
                #[trigger] ron@[j],
            ),
    ensures
        matched_rows_ok(
            key_matrix(*left_keys),
            key_matrix(*right_keys),
            lon@,
            ron@,
            lon@.len() as int,
            ron@.len() as int,
            allow,
            r.0@,
            r.1@,
        ),
{
    let ghost lkm = key_matrix(*left_keys);
    let ghost rkm = key_matrix(*right_keys);
    let rn = ron.len();
    let ln = lon.len();
    let mut gs: crate::series::GroupIndices = Vec::new();
    if right_keys.columns.len() == 0 {
        if rn > 0 {
            let mut ident: Vec<usize> = Vec::new();
            let mut i: usize = 0;
            while i < rn
                invariant
                    0 <= i <= rn,
                    ident@.len() == i,
                    forall|p: int| 0 <= p < i ==> (#[trigger] ident@[p]) == p,
                decreases rn - i,
            {
                ident.push(i);
                i = i + 1;
            }
            gs.push(ident);
        }
        proof {
            assert forall|r2: int| 0 <= r2 < rn implies covered(gs@, r2) by {
                assert(gs@[0]@[r2] == r2);
            }
        }
    } else {
        let (_rkeys_table, gs0) = right_keys.make_groups();
        gs = gs0;
        proof {
            assert(right_keys.spec_num_rows() == ron@.len());
        }
    }
    proof {
        assert forall|g: int, k: int|
            #![trigger gs@[g]@[k]]
            0 <= g < gs@.len() && 0 <= k < gs@[g]@.len() implies mrows_equal(
            rkm,
            gs@[g]@[0] as int,
            rkm,
            gs@[g]@[k] as int,
        ) by {
            if right_keys.columns@.len() == 0 {
                assert(crate::groups::mrow_key(rkm, gs@[g]@[0] as int) =~= crate::groups::mrow_key(
                    rkm,
                    gs@[g]@[k] as int,
                ));
            } else {
                assert(crate::groups::m_group_same_key(rkm, gs@[g]@));
            }
        }
    }
    let mut li: Vec<usize> = Vec::new();
    let mut ri: Vec<usize> = Vec::new();
    let mut l: usize = 0;
    while l < ln
        invariant
            left_keys.wf(),
            right_keys.wf(),
            left_keys.columns@.len() == right_keys.columns@.len(),
            left_keys.columns@.len() > 0 ==> left_keys.spec_num_rows() == lon@.len()
                && right_keys.spec_num_rows() == ron@.len(),
            right_keys.columns@.len() == 0 ==> right_keys.spec_num_rows() == 0,
            forall|i: int| 0 <= i < ron@.len() ==> (#[trigger] ron@[i]) is Some,
            forall|i: int, j: int|
                0 <= i <= j < ron@.len() ==> unwrap_cell(#[trigger] ron@[i]) <= unwrap_cell(
                    #[trigger] ron@[j],
                ),
            lkm == key_matrix(*left_keys),
            rkm == key_matrix(*right_keys),
            rn == ron@.len(),
            ln == lon@.len(),
            0 <= l <= ln,
            forall|g: int| 0 <= g < gs@.len() ==> (#[trigger] gs@[g])@.len() > 0,
            crate::groups::groups_below(gs@, rn as int),
            forall|g: int| 0 <= g < gs@.len() ==> group_ascending((#[trigger] gs@[g])@),
            forall|r2: int| 0 <= r2 < rn ==> covered(gs@, r2),
            forall|g1: int, g2: int|
                0 <= g1 < g2 < gs@.len() ==> !mrows_equal(
                    rkm,
                    (#[trigger] gs@[g1])@[0] as int,
                    rkm,
                    (#[trigger] gs@[g2])@[0] as int,
                ),
            forall|g: int, k: int|
                #![trigger gs@[g]@[k]]
                0 <= g < gs@.len() && 0 <= k < gs@[g]@.len() ==> mrows_equal(
                    rkm,
                    gs@[g]@[0] as int,
                    rkm,
                    gs@[g]@[k] as int,
                ),
            li@.len() == ri@.len(),
            forall|k: int| 0 <= k < li@.len() ==> (#[trigger] li@[k]) < l,
            forall|k1: int, k2: int|
                0 <= k1 < k2 < li@.len() ==> #[trigger] li@[k1] < #[trigger] li@[k2],
            forall|k: int|
                0 <= k < li@.len() ==> asof_is_match(
                    lkm,
                    rkm,
                    lon@,
                    ron@,
                    (#[trigger] li@[k]) as int,
                    (#[trigger] ri@[k]) as int,
                    rn as int,
                    allow,
                ),
            forall|l2: int|
                0 <= l2 < l && asof_has_match(lkm, rkm, lon@, ron@, l2, rn as int, allow)
                    ==> li_covers(li@, l2),
        decreases ln - l,
    {
        let found = find_key_class(left_keys, right_keys, &gs, l);
        let ghost pre_li = li@;
        let ghost pre_ri = ri@;
        match found {
            None => {
                proof {
                    assert forall|rr: int|
                        0 <= rr < rn implies !asof_pair_ok(lkm, rkm, lon@, ron@, l as int, rr, allow) by {
                        if asof_pair_ok(lkm, rkm, lon@, ron@, l as int, rr, allow) {
                            assert(covered(gs@, rr));
                            let (g, k): (int, int) = choose|g: int, k: int|
                                0 <= g < gs@.len() && 0 <= k < gs@[g]@.len() && gs@[g]@[k] == rr;
                            assert(mrows_equal(rkm, gs@[g]@[0] as int, rkm, rr));
                            assert(mrows_equal(lkm, l as int, rkm, rr));
                            assert(rows_equal(*left_keys, l as int, *right_keys, gs@[g]@[0] as int));
                        }
                    }
                }
            },
            Some(gi) => {
                proof {
                    assert(crate::groups::group_below(gs@[gi as int]@, rn as int));
                    assert forall|k: int|
                        0 <= k < gs@[gi as int]@.len() implies ron@[(
                        #[trigger] gs@[gi as int]@[k]) as int] is Some by {}
                    assert forall|k1: int, k2: int|
                        0 <= k1 <= k2 < gs@[gi as int]@.len() implies #[trigger] crate::search::oval(
                        ron@,
                        gs@[gi as int]@,
                        k1,
                    ) <= #[trigger] crate::search::oval(ron@, gs@[gi as int]@, k2) by {
                        if k1 < k2 {
                            assert(gs@[gi as int]@[k1] < gs@[gi as int]@[k2]);
                            assert(unwrap_cell(ron@[gs@[gi as int]@[k1] as int]) <= unwrap_cell(
                                ron@[gs@[gi as int]@[k2] as int],
                            ));
                        }
                    }
                }
                let res = asof_search(&gs[gi], ron, lon[l], allow);
                match res {
                    Some(pos) => {
                        li.push(l);
                        ri.push(pos);
                        proof {
                            let arr = gs@[gi as int]@;
                            let lv = lon@[l as int]->Some_0;
                            let c = crate::search::asof_eligible_count(
                                ron@,
                                arr,
                                lv,
                                allow,
                                arr.len() as int,
                            );
                            crate::search::lemma_asof_count_range(
                                ron@,
                                arr,
                                lv,
                                allow,
                                arr.len() as int,
                            );
                            assert(pos == arr[c - 1]);
                            assert(asof_eligible(ron@, arr, c - 1, lv, allow));
                            // the found position pairs with the left row
                            assert(mrows_equal(rkm, arr[0] as int, rkm, arr[c - 1] as int));
                            assert(rows_equal(*left_keys, l as int, *right_keys, arr[0] as int));
                            assert(mrows_equal(lkm, l as int, rkm, pos as int));
                            assert(asof_pair_ok(lkm, rkm, lon@, ron@, l as int, pos as int, allow));
                            // and nothing after it does
                            assert forall|r2: int|
                                pos < r2 < rn implies !asof_pair_ok(
                                lkm,
                                rkm,
                                lon@,
                                ron@,
                                l as int,
                                r2,
                                allow,
                            ) by {
                                if asof_pair_ok(lkm, rkm, lon@, ron@, l as int, r2, allow) {
                                    assert(covered(gs@, r2));
                                    let (g, k): (int, int) = choose|g: int, k: int|
                                        0 <= g < gs@.len() && 0 <= k < gs@[g]@.len() && gs@[g]@[k]
                                            == r2;
                                    assert(mrows_equal(rkm, gs@[g]@[0] as int, rkm, r2));
                                    assert(mrows_equal(lkm, l as int, rkm, r2));
                                    assert(mrows_equal(lkm, l as int, rkm, gs@[g]@[0] as int));
                                    if g != gi {
                                        assert(mrows_equal(rkm, arr[0] as int, rkm, gs@[g]@[0] as int));
                                        assert(false);
                                    }
                                    // r2 sits in the same class after the found
                                    // position, where nothing is eligible
                                    assert(arr[k] == r2);
                                    if k <= c - 1 {
                                        assert(arr[k] <= arr[c - 1]);
                                        assert(false);
                                    }
                                    assert(!asof_eligible(ron@, arr, k, lv, allow));
                                }
                            }
                            assert(asof_is_match(
                                lkm,
                                rkm,
                                lon@,
                                ron@,
                                l as int,
                                pos as int,
                                rn as int,
                                allow,
                            ));
                            assert forall|l2: int|
                                0 <= l2 < l + 1 && asof_has_match(
                                lkm,
                                rkm,
                                lon@,
                                ron@,
                                l2,
                                rn as int,
                                allow,
                            ) implies li_covers(li@, l2) by {
                                if l2 == l {
                                    assert(li@[li@.len() - 1] == l);
                                } else {
                                    assert(li_covers(pre_li, l2));
                                    let k = choose|k: int|
                                        0 <= k < pre_li.len() && pre_li[k] == l2;
                                    assert(li@[k] == l2);
                                }
                            }
                            assert forall|k: int|
                                0 <= k < li@.len() implies asof_is_match(
                                lkm,
                                rkm,
                                lon@,
                                ron@,
                                (#[trigger] li@[k]) as int,
                                (#[trigger] ri@[k]) as int,
                                rn as int,
                                allow,
                            ) by {
                                if k < li@.len() - 1 {
                                    assert(li@[k] == pre_li[k]);
                                    assert(ri@[k] == pre_ri[k]);
                                }
                            }
                        }
                    },
                    None => {
                        proof {
                            let arr = gs@[gi as int]@;
                            assert forall|rr: int|
                                0 <= rr < rn implies !asof_pair_ok(
                                lkm,
                                rkm,
                                lon@,
                                ron@,
                                l as int,
                                rr,
                                allow,
                            ) by {
                                if asof_pair_ok(lkm, rkm, lon@, ron@, l as int, rr, allow) {
                                    assert(lon@[l as int] is Some);
                                    let lv = lon@[l as int]->Some_0;
                                    let c = crate::search::asof_eligible_count(
                                        ron@,
                                        arr,
                                        lv,
                                        allow,
                                        arr.len() as int,
                                    );
                                    crate::search::lemma_asof_count_range(
                                        ron@,
                                        arr,
                                        lv,
                                        allow,
                                        arr.len() as int,
                                    );
                                    assert(c == 0);
                                    assert(covered(gs@, rr));
                                    let (g, k): (int, int) = choose|g: int, k: int|
                                        0 <= g < gs@.len() && 0 <= k < gs@[g]@.len() && gs@[g]@[k]
                                            == rr;
                                    assert(mrows_equal(rkm, gs@[g]@[0] as int, rkm, rr));
                                    assert(mrows_equal(lkm, l as int, rkm, rr));
                                    assert(mrows_equal(lkm, l as int, rkm, gs@[g]@[0] as int));
                                    assert(rows_equal(*left_keys, l as int, *right_keys, arr[0] as int));
                                    if g != gi {
                                        assert(mrows_equal(rkm, arr[0] as int, rkm, gs@[g]@[0] as int));
                                        assert(false);
                                    }
                                    assert(arr[k] == rr);
                                    assert(!asof_eligible(ron@, arr, k, lv, allow));
                                }
                            }
                        }
                    },
                }
            },
        }
        l = l + 1;
    }
    (li, ri)
}

/// Column positions `0..n` that survive a keep-filter, in order.
pub open spec fn kept_upto(n: int, keep: spec_fn(int) -> bool) -> Seq<int>
    decreases n,
{
    if n <= 0 {
        Seq::empty()
    } else if keep(n - 1) {
        kept_upto(n - 1, keep).push(n - 1)
    } else {
        kept_upto(n - 1, keep)
    }
}

pub proof fn lemma_kept_upto_props(n: int, keep: spec_fn(int) -> bool)
    requires
        n >= 0,
    ensures
        forall|k: int|
            0 <= k < kept_upto(n, keep).len() ==> 0 <= #[trigger] kept_upto(n, keep)[k] < n && keep(
                kept_upto(n, keep)[k],
            ),
    decreases n,
{
    if n > 0 {
        lemma_kept_upto_props(n - 1, keep);
        assert forall|k: int|
            0 <= k < kept_upto(n, keep).len() implies 0 <= #[trigger] kept_upto(n, keep)[k] < n
            && keep(kept_upto(n, keep)[k]) by {
            if k < kept_upto(n - 1, keep).len() {
                assert(kept_upto(n, keep)[k] == kept_upto(n - 1, keep)[k]);
            }
        }
    }
}

/// The column names of a table, as views.
pub open spec fn col_names(t: Table) -> Seq<Seq<char>> {
    Seq::new(t.columns@.len(), |c: int| t.columns@[c].name@)
}

/// The zipped (left, right) join-key names.
pub open spec fn zipped_views(lnames: Seq<String>, rnames: Seq<String>) -> Seq<
    (Seq<char>, Seq<char>),
> {
    Seq::new(lnames.len(), |p: int| (lnames[p]@, rnames[p]@))
}

/// Whether the last join-key pair carrying this right-side name maps it
/// to an identically-named left key.
pub open spec fn spec_shared_key(zipped: Seq<(Seq<char>, Seq<char>)>, name: Seq<char>) -> bool
    decreases zipped.len(),
{
    if zipped.len() == 0 {
        false
    } else if zipped.last().1 == name {
        zipped.last().0 == name
    } else {
        spec_shared_key(zipped.drop_last(), name)
    }
}

/// The keep-filter of the left columns: everything not already placed as
/// a by-key column.
pub open spec fn left_keep(left: Table, by_names: Seq<Seq<char>>) -> spec_fn(int) -> bool {
    |c: int| !contains_str(by_names, left.columns@[c].name@)
}

/// The keep-filter of the right columns: everything that is not a shared
/// join key.
pub open spec fn right_keep(right: Table, zipped: Seq<(Seq<char>, Seq<char>)>) -> spec_fn(
    int,
) -> bool {
    |c: int| !spec_shared_key(zipped, right.columns@[c].name@)
}

/// The assembled join output: the left by-key columns first (gathered by
/// the left match positions), then the remaining left columns, then the
/// right columns that are not shared join keys (gathered by the right
/// match positions), renamed where their names collide with anything
/// already placed.
pub open spec fn asof_assembled(
    left: Table,
    right: Table,
    left_keys: Table,
    zipped: Seq<(Seq<char>, Seq<char>)>,
    li: Seq<usize>,
    ri: Seq<usize>,
    t: Table,
) -> bool {
    let nby = left_keys.columns@.len() as int;
    let keptl = kept_upto(left.columns@.len() as int, left_keep(left, col_names(left_keys)));
    let keptr = kept_upto(right.columns@.len() as int, right_keep(right, zipped));
    &&& t.wf()
    &&& t.columns@.len() == nby + keptl.len() + keptr.len()
    &&& forall|c: int|
        0 <= c < nby ==> (#[trigger] t.columns@[c]).values@ == li.map(
            |_k: int, row: usize| left_keys.columns@[c].values@[row as int],
        ) && t.columns@[c].name@ == left_keys.columns@[c].name@ && t.columns@[c].dtype
            == left_keys.columns@[c].dtype
    &&& forall|k: int|
        0 <= k < keptl.len() ==> (#[trigger] t.columns@[nby + k]).values@ == li.map(
            |_k2: int, row: usize| left.columns@[keptl[k]].values@[row as int],
        ) && t.columns@[nby + k].name@ == left.columns@[keptl[k]].name@ && t.columns@[nby
            + k].dtype == left.columns@[keptl[k]].dtype
    &&& forall|k: int|
        0 <= k < keptr.len() ==> (#[trigger] t.columns@[nby + keptl.len() + k]).values@ == ri.map(
            |_k2: int, row: usize| right.columns@[keptr[k]].values@[row as int],
        ) && t.columns@[nby + keptl.len() + k].dtype == right.columns@[keptr[k]].dtype
            && renamed_ok(
            crate::table_window::col_names_prefix(t.columns@, nby + keptl.len() + k),
            right.columns@[keptr[k]].name@,
            t.columns@[nby + keptl.len() + k].name@,
        )
}



/// The leading segments of the join output: the gathered by-key columns,
/// then the gathered remaining left columns.
pub open spec fn asof_prefix_ok(
    left: Table,
    left_keys: Table,
    li: Seq<usize>,
    cols: Seq<Series>,
) -> bool {
    let nby = left_keys.columns@.len() as int;
    let keptl = kept_upto(left.columns@.len() as int, left_keep(left, col_names(left_keys)));
    &&& nby + keptl.len() <= cols.len()
    &&& forall|c: int|
        0 <= c < nby ==> (#[trigger] cols[c]).values@ == li.map(
            |_k: int, row: usize| left_keys.columns@[c].values@[row as int],
        ) && cols[c].name@ == left_keys.columns@[c].name@ && cols[c].dtype
            == left_keys.columns@[c].dtype
    &&& forall|k: int|
        0 <= k < keptl.len() ==> (#[trigger] cols[nby + k]).values@ == li.map(
            |_k2: int, row: usize| left.columns@[keptl[k]].values@[row as int],
        ) && cols[nby + k].name@ == left.columns@[keptl[k]].name@ && cols[nby + k].dtype
            == left.columns@[keptl[k]].dtype
}

/// Appending a column beyond the leading segments leaves them intact.
proof fn lemma_asof_prefix_push(
    left: Table,
    left_keys: Table,
    li: Seq<usize>,
    pre_cols: Seq<Series>,
    snew: Series,
)
    requires
        asof_prefix_ok(left, left_keys, li, pre_cols),
    ensures
        asof_prefix_ok(left, left_keys, li, pre_cols.push(snew)),
{
    let nby = left_keys.columns@.len() as int;
    let keptl = kept_upto(left.columns@.len() as int, left_keep(left, col_names(left_keys)));
    let cols = pre_cols.push(snew);
    assert forall|c: int|
        0 <= c < nby implies (#[trigger] cols[c]).values@ == li.map(
        |_k: int, row: usize| left_keys.columns@[c].values@[row as int],
    ) && cols[c].name@ == left_keys.columns@[c].name@ && cols[c].dtype
        == left_keys.columns@[c].dtype by {
        assert(cols[c] == pre_cols[c]);
    }
    assert forall|k: int|
        0 <= k < keptl.len() implies (#[trigger] cols[nby + k]).values@ == li.map(
        |_k2: int, row: usize| left.columns@[keptl[k]].values@[row as int],
    ) && cols[nby + k].name@ == left.columns@[keptl[k]].name@ && cols[nby + k].dtype
        == left.columns@[keptl[k]].dtype by {
        assert(cols[nby + k] == pre_cols[nby + k]);
    }
}

/// Appending the next gathered-and-renamed right column extends the right
/// segment of the assembly.
proof fn lemma_asof_push_right(
    right: Table,
    rk: spec_fn(int) -> bool,
    li_len: int,
    ri: Seq<usize>,
    pre_cols: Seq<Series>,
    snew: Series,
    base: int,
    c3: int,
)
    requires
        0 <= base <= pre_cols.len(),
        0 <= c3 < right.columns@.len(),
        rk(c3),
        pre_cols.len() == base + kept_upto(c3, rk).len(),
        forall|a: int| 0 <= a < base ==> (#[trigger] pre_cols[a]).spec_len() == li_len,
        forall|a: int| base <= a < pre_cols.len() ==> (#[trigger] pre_cols[a]).spec_len() == ri.len(),
        forall|k: int|
            0 <= k < kept_upto(c3, rk).len() ==> (#[trigger] pre_cols[base
                + k]).values@ == ri.map(
                |_k2: int, row: usize| right.columns@[kept_upto(c3, rk)[k]].values@[row as int],
            ) && pre_cols[base + k].dtype == right.columns@[kept_upto(
                c3,
                rk,
            )[k]].dtype && renamed_ok(
                crate::table_window::col_names_prefix(pre_cols, base + k),
                right.columns@[kept_upto(c3, rk)[k]].name@,
                pre_cols[base + k].name@,
            ),
        snew.values@ == ri.map(|_k2: int, row: usize| right.columns@[c3].values@[row as int]),
        snew.dtype == right.columns@[c3].dtype,
        snew.spec_len() == ri.len(),
        renamed_ok(
            crate::table_window::col_names_prefix(pre_cols, pre_cols.len() as int),
            right.columns@[c3].name@,
            snew.name@,
        ),
    ensures
        pre_cols.push(snew).len() == base + kept_upto(c3 + 1, rk).len(),
        forall|a: int|
            0 <= a < base ==> (#[trigger] pre_cols.push(snew)[a]).spec_len() == li_len,
        forall|a: int|
            base <= a < pre_cols.push(snew).len() ==> (#[trigger] pre_cols.push(snew)[a]).spec_len()
                == ri.len(),
        forall|k: int|
            0 <= k < kept_upto(c3 + 1, rk).len() ==> (#[trigger] pre_cols.push(
                snew,
            )[base + k]).values@ == ri.map(
                |_k2: int, row: usize| right.columns@[kept_upto(c3 + 1, rk)[k]].values@[row as int],
            ) && pre_cols.push(snew)[base + k].dtype == right.columns@[kept_upto(
                c3 + 1,
                rk,
            )[k]].dtype && renamed_ok(
                crate::table_window::col_names_prefix(pre_cols.push(snew), base + k),
                right.columns@[kept_upto(c3 + 1, rk)[k]].name@,
                pre_cols.push(snew)[base + k].name@,
            ),
{
    let rkeep = rk;
    let cols = pre_cols.push(snew);
    assert(kept_upto(c3 + 1, rkeep) == kept_upto(c3, rkeep).push(c3));
    assert forall|a: int| 0 <= a < base implies (#[trigger] cols[a]).spec_len() == li_len by {
        assert(cols[a] == pre_cols[a]);
    }
    assert forall|a: int|
        base <= a < cols.len() implies (#[trigger] cols[a]).spec_len() == ri.len() by {
        if a < cols.len() - 1 {
            assert(cols[a] == pre_cols[a]);
        }
    }
    assert forall|k: int|
        0 <= k < kept_upto(c3 + 1, rkeep).len() implies (#[trigger] cols[base + k]).values@
        == ri.map(
        |_k2: int, row: usize| right.columns@[kept_upto(c3 + 1, rkeep)[k]].values@[row as int],
    ) && cols[base + k].dtype == right.columns@[kept_upto(c3 + 1, rkeep)[k]].dtype && renamed_ok(
        crate::table_window::col_names_prefix(cols, base + k),
        right.columns@[kept_upto(c3 + 1, rkeep)[k]].name@,
        cols[base + k].name@,
    ) by {
        if k < kept_upto(c3, rkeep).len() {
            assert(cols[base + k] == pre_cols[base + k]);
            assert(kept_upto(c3 + 1, rkeep)[k] == kept_upto(c3, rkeep)[k]);
            assert(crate::table_window::col_names_prefix(cols, base + k)
                =~= crate::table_window::col_names_prefix(pre_cols, base + k));
        } else {
            assert(kept_upto(c3 + 1, rkeep)[k] == c3);
            assert(base + k == pre_cols.len());
            assert(cols[base + k] == snew);
            assert(crate::table_window::col_names_prefix(cols, base + k)
                =~= crate::table_window::col_names_prefix(pre_cols, pre_cols.len() as int));
        }
    }
}

/// Builds the join output table from the match index pair.
#[verifier::rlimit(100)]
fn assemble_asof_output(
    left: &Table,
    right: &Table,
    left_keys: &Table,
    li: &Vec<usize>,
    ri: &Vec<usize>,
    lkey_names: &Vec<String>,
    rkey_names: &Vec<String>,
) -> (t: Table)
    requires
        left.wf(),
        right.wf(),
        left_keys.wf(),
        li@.len() == ri@.len(),
        forall|k: int| 0 <= k < li@.len() ==> (#[trigger] li@[k]) < left.spec_num_rows(),
        forall|k: int| 0 <= k < ri@.len() ==> (#[trigger] ri@[k]) < right.spec_num_rows(),
        left_keys.columns@.len() > 0 ==> left_keys.spec_num_rows() == left.spec_num_rows(),
        lkey_names@.len() == rkey_names@.len(),
    ensures
        asof_assembled(
            *left,
            *right,
            *left_keys,
            zipped_views(lkey_names@, rkey_names@),
            li@,
            ri@,
            t,
        ),
{
    let ghost by_names = col_names(*left_keys);
    let ghost zipped = zipped_views(lkey_names@, rkey_names@);
    let ghost lkeep = left_keep(*left, by_names);
    let ghost rkeep = right_keep(*right, zipped);
    let mut cols: Vec<Series> = Vec::new();
    let mut names: Vec<String> = Vec::new();
    let nby = left_keys.columns.len();
    let mut c: usize = 0;
    while c < nby
        invariant
            left_keys.wf(),
            li@.len() == ri@.len(),
            forall|k: int| 0 <= k < li@.len() ==> (#[trigger] li@[k]) < left.spec_num_rows(),
            left_keys.columns@.len() > 0 ==> left_keys.spec_num_rows() == left.spec_num_rows(),
            nby == left_keys.columns@.len(),
            0 <= c <= nby,
            cols@.len() == c,
            names@.len() == c,
            forall|a: int| 0 <= a < c ==> (#[trigger] names@[a])@ == cols@[a].name@,
            forall|a: int|
                0 <= a < c ==> (#[trigger] cols@[a]).values@ == li@.map(
                    |_k: int, row: usize| left_keys.columns@[a].values@[row as int],
                ) && cols@[a].name@ == left_keys.columns@[a].name@ && cols@[a].dtype
                    == left_keys.columns@[a].dtype && cols@[a].spec_len() == li@.len(),
            names_unique_series(cols@),
        decreases nby - c,
    {
        proof {
            assert forall|k: int|
                0 <= k < li@.len() implies (#[trigger] li@[k]) < left_keys.columns@[c as int].spec_len() by {}
        }
        let s = left_keys.columns[c].take(li);
        let ghost pre_cols = cols@;
        cols.push(s);
        names.push(cols[cols.len() - 1].name.clone());
        proof {
            assert forall|a: int, b: int|
                0 <= a < b < cols@.len() implies (#[trigger] cols@[a]).name@ != (
            #[trigger] cols@[b]).name@ by {
                if b == cols@.len() - 1 {
                    assert(cols@[a] == pre_cols[a]);
                    assert(cols@[a].name@ == left_keys.schema.fields@[a].name@);
                    assert(cols@[b].name@ == left_keys.schema.fields@[b].name@);
                }
            }
        }
        c = c + 1;
    }
    let nl = left.columns.len();
    let ghost seg1 = cols@;
    let mut c2: usize = 0;
    while c2 < nl
        invariant
            left.wf(),
            left_keys.wf(),
            li@.len() == ri@.len(),
            forall|k: int| 0 <= k < li@.len() ==> (#[trigger] li@[k]) < left.spec_num_rows(),
            by_names == col_names(*left_keys),
            lkeep == left_keep(*left, by_names),
            nby == left_keys.columns@.len(),
            nl == left.columns@.len(),
            0 <= c2 <= nl,
            seg1.len() == nby,
            forall|a: int| 0 <= a < nby ==> cols@[a] == seg1[a],
            forall|a: int|
                0 <= a < nby ==> (#[trigger] seg1[a]).name@ == left_keys.columns@[a].name@ && (
                #[trigger] seg1[a]).values@ == li@.map(
                    |_k: int, row: usize| left_keys.columns@[a].values@[row as int],
                ) && seg1[a].dtype == left_keys.columns@[a].dtype && seg1[a].spec_len()
                    == li@.len(),
            cols@.len() == nby + kept_upto(c2 as int, lkeep).len(),
            names@.len() == cols@.len(),
            forall|a: int| 0 <= a < names@.len() ==> (#[trigger] names@[a])@ == cols@[a].name@,
            names_unique_series(cols@),
            forall|k: int|
                0 <= k < kept_upto(c2 as int, lkeep).len() ==> (#[trigger] cols@[nby + k]).values@
                    == li@.map(
                    |_k2: int, row: usize| left.columns@[kept_upto(c2 as int, lkeep)[k]].values@[row as int],
                ) && cols@[nby + k].name@ == left.columns@[kept_upto(c2 as int, lkeep)[k]].name@
                    && cols@[nby + k].dtype == left.columns@[kept_upto(c2 as int, lkeep)[k]].dtype
                    && cols@[nby + k].spec_len() == li@.len(),
        decreases nl - c2,
    {
        let keep_col = !crate::names::names_contain_prefix(&names, nby, &left.columns[c2].name);
        proof {
            assert forall|a: int|
                0 <= a < nby implies views_of_prefix(names@, nby as int)[a] == by_names[a] by {
                assert(names@[a]@ == cols@[a].name@);
                assert(cols@[a] == seg1[a]);
                assert(seg1[a].name@ == left_keys.columns@[a].name@);
            }
            assert(views_of_prefix(names@, nby as int) =~= by_names);
            assert(keep_col == lkeep(c2 as int));
        }
        if keep_col {
            proof {
                assert forall|k: int|
                    0 <= k < li@.len() implies (#[trigger] li@[k])
                    < left.columns@[c2 as int].spec_len() by {}
            }
            let s = left.columns[c2].take(li);
            let ghost pre_cols = cols@;
            cols.push(s);
            names.push(cols[cols.len() - 1].name.clone());
            proof {
                assert(kept_upto(c2 + 1 as int, lkeep) == kept_upto(c2 as int, lkeep).push(
                    c2 as int,
                ));
                lemma_kept_upto_props(c2 as int, lkeep);
                assert forall|a: int, b: int|
                    0 <= a < b < cols@.len() implies (#[trigger] cols@[a]).name@ != (
                #[trigger] cols@[b]).name@ by {
                    if b == cols@.len() - 1 {
                        assert(cols@[a] == pre_cols[a]);
                        assert(cols@[b].name@ == left.columns@[c2 as int].name@);
                        if a < nby {
                            assert(contains_str(by_names, cols@[a].name@) || by_names[a]
                                == cols@[a].name@);
                            assert(by_names[a] == cols@[a].name@);
                            assert(!contains_str(by_names, cols@[b].name@));
                        } else {
                            let ak = a - nby;
                            assert(pre_cols[nby + ak] == cols@[a]);
                            assert(pre_cols[nby + ak].name@ == left.columns@[kept_upto(
                                c2 as int,
                                lkeep,
                            )[ak]].name@);
                            assert(kept_upto(c2 as int, lkeep)[ak] < c2);
                            assert(left.columns@[kept_upto(c2 as int, lkeep)[ak]].name@
                                == left.schema.fields@[kept_upto(c2 as int, lkeep)[ak]].name@);
                            assert(left.columns@[c2 as int].name@ == left.schema.fields@[c2 as int].name@);
                        }
                    }
                }
                assert forall|k: int|
                    0 <= k < kept_upto(c2 + 1 as int, lkeep).len() implies (
                #[trigger] cols@[nby + k]).values@ == li@.map(
                    |_k2: int, row: usize| left.columns@[kept_upto(c2 + 1 as int, lkeep)[k]].values@[row as int],
                ) && cols@[nby + k].name@ == left.columns@[kept_upto(c2 + 1 as int, lkeep)[k]].name@
                    && cols@[nby + k].dtype == left.columns@[kept_upto(c2 + 1 as int, lkeep)[k]].dtype
                    && cols@[nby + k].spec_len() == li@.len() by {
                    if k < kept_upto(c2 as int, lkeep).len() {
                        assert(cols@[nby + k] == pre_cols[nby + k]);
                        assert(kept_upto(c2 + 1 as int, lkeep)[k] == kept_upto(c2 as int, lkeep)[k]);
                    } else {
                        assert(kept_upto(c2 + 1 as int, lkeep)[k] == c2 as int);
                    }
                }
            }
        } else {
            proof {
                assert(kept_upto(c2 + 1 as int, lkeep) == kept_upto(c2 as int, lkeep));
            }
        }
        c2 = c2 + 1;
    }
    let ghost nkl = kept_upto(nl as int, lkeep).len() as int;
    proof {
        assert forall|a: int|
            0 <= a < nby + nkl implies (#[trigger] cols@[a]).spec_len() == li@.len() by {
            if a < nby {
                assert(cols@[a] == seg1[a]);
            } else {
                let ak = a - nby;
                assert(cols@[nby + ak].spec_len() == li@.len());
            }
        }
        assert forall|c: int|
            0 <= c < nby implies (#[trigger] cols@[c]).values@ == li@.map(
            |_k: int, row: usize| left_keys.columns@[c].values@[row as int],
        ) && cols@[c].name@ == left_keys.columns@[c].name@ && cols@[c].dtype
            == left_keys.columns@[c].dtype by {
            assert(cols@[c] == seg1[c]);
        }
        assert(by_names == col_names(*left_keys));
        assert(asof_prefix_ok(*left, *left_keys, li@, cols@));
    }
    let nr = right.columns.len();
    let mut c3: usize = 0;
    while c3 < nr
        invariant
            right.wf(),
            li@.len() == ri@.len(),
            forall|k: int| 0 <= k < ri@.len() ==> (#[trigger] ri@[k]) < right.spec_num_rows(),
            lkey_names@.len() == rkey_names@.len(),
            zipped == zipped_views(lkey_names@, rkey_names@),
            rkeep == right_keep(*right, zipped),
            nr == right.columns@.len(),
            0 <= c3 <= nr,
            0 <= nkl,
            nkl == kept_upto(left.columns@.len() as int, left_keep(*left, col_names(
                *left_keys,
            ))).len(),
            nby == left_keys.columns@.len(),
            asof_prefix_ok(*left, *left_keys, li@, cols@),
            cols@.len() == nby + nkl + kept_upto(c3 as int, rkeep).len(),
            nby + nkl <= cols@.len(),
            names@.len() == cols@.len(),
            forall|a: int| 0 <= a < names@.len() ==> (#[trigger] names@[a])@ == cols@[a].name@,
            names_unique_series(cols@),
            forall|a: int| 0 <= a < nby + nkl ==> (#[trigger] cols@[a]).spec_len() == li@.len(),
            forall|a: int|
                nby + nkl <= a < cols@.len() ==> (#[trigger] cols@[a]).spec_len() == ri@.len(),
            forall|k: int|
                0 <= k < kept_upto(c3 as int, rkeep).len() ==> (
                #[trigger] cols@[nby + nkl + k]).values@ == ri@.map(
                    |_k2: int, row: usize| right.columns@[kept_upto(c3 as int, rkeep)[k]].values@[row as int],
                ) && cols@[nby + nkl + k].dtype == right.columns@[kept_upto(c3 as int, rkeep)[k]].dtype
                    && renamed_ok(
                    crate::table_window::col_names_prefix(cols@, nby + nkl + k),
                    right.columns@[kept_upto(c3 as int, rkeep)[k]].name@,
                    cols@[nby + nkl + k].name@,
                ),
        decreases nr - c3,
    {
        let shared = shared_key_name(&lkey_names, &rkey_names, &right.columns[c3].name);
        proof {
            assert(shared == spec_shared_key(zipped, right.columns@[c3 as int].name@));
            assert(!shared == rkeep(c3 as int));
        }
        if !shared {
            proof {
                assert forall|k: int|
                    0 <= k < ri@.len() implies (#[trigger] ri@[k])
                    < right.columns@[c3 as int].spec_len() by {}
            }
            let resolved = resolve_name(&names, &right.columns[c3].name);
            proof {
                assert(views_of(names@) =~= crate::table_window::col_names_prefix(
                    cols@,
                    cols@.len() as int,
                ));
            }
            let s = right.columns[c3].rename(resolved).take(ri);
            let ghost snew = s;
            let ghost pre_cols = cols@;
            cols.push(s);
            names.push(cols[cols.len() - 1].name.clone());
            proof {
                assert(cols@ == pre_cols.push(snew));
                assert(snew.values@ == ri@.map(
                    |_k2: int, row: usize| right.columns@[c3 as int].values@[row as int],
                ));
                assert(renamed_ok(
                    crate::table_window::col_names_prefix(pre_cols, pre_cols.len() as int),
                    right.columns@[c3 as int].name@,
                    snew.name@,
                )) by {
                    assert(views_of(names@.drop_last()) =~= crate::table_window::col_names_prefix(
                        pre_cols,
                        pre_cols.len() as int,
                    ));
                }
                lemma_asof_prefix_push(*left, *left_keys, li@, pre_cols, snew);
                assert(rkeep(c3 as int));
                lemma_asof_push_right(
                    *right,
                    rkeep,
                    li@.len() as int,
                    ri@,
                    pre_cols,
                    snew,
                    nby + nkl,
                    c3 as int,
                );
                assert forall|a: int, b: int|
                    0 <= a < b < cols@.len() implies (#[trigger] cols@[a]).name@ != (
                #[trigger] cols@[b]).name@ by {
                    if b == cols@.len() - 1 {
                        assert(cols@[a] == pre_cols[a]);
                        assert(!contains_str(
                            crate::table_window::col_names_prefix(pre_cols, pre_cols.len() as int),
                            cols@[b].name@,
                        ));
                        assert(crate::table_window::col_names_prefix(
                            pre_cols,
                            pre_cols.len() as int,
                        )[a] == cols@[a].name@);
                    }
                }
                assert forall|a: int|
                    0 <= a < names@.len() implies (#[trigger] names@[a])@ == cols@[a].name@ by {
                    if a < names@.len() - 1 {
                        assert(names@[a] == names@.drop_last()[a]);
                        assert(cols@[a] == pre_cols[a]);
                    }
                }
            }
        } else {
            proof {
                assert(kept_upto(c3 + 1 as int, rkeep) == kept_upto(c3 as int, rkeep));
            }
        }
        c3 = c3 + 1;
    }
    proof {
        assert forall|a: int|
            0 <= a < cols@.len() implies (#[trigger] cols@[a]).spec_len() == cols@[0].spec_len() by {
            assert(li@.len() == ri@.len());
        }
        assert(equal_lengths(cols@));
    }
    let ghost final_cols = cols@;
    let t = match Table::from_columns(cols) {
        Ok(t) => t,
        Err(_) => {
            proof {
                assert(false);
            }
            vstd::pervasive::unreached()
        },
    };
    proof {
        assert(t.columns@ == final_cols);
        assert forall|k: int|
            0 <= k < kept_upto(nr as int, rkeep).len() implies renamed_ok(
            crate::table_window::col_names_prefix(t.columns@, nby + nkl + k),
            right.columns@[kept_upto(nr as int, rkeep)[k]].name@,
            (#[trigger] t.columns@[nby + nkl + k]).name@,
        ) by {
            assert(crate::table_window::col_names_prefix(t.columns@, nby + nkl + k)
                =~= crate::table_window::col_names_prefix(final_cols, nby + nkl + k));
        }
        assert(asof_assembled(
            *left,
            *right,
            *left_keys,
            zipped_views(lkey_names@, rkey_names@),
            li@,
            ri@,
            t,
        ));
    }
    t
}

/// The right comparison column evaluates to non-null, non-decreasing
/// values: the per-class binary search of the matcher assumes the right
/// side is sorted by its ordering column, and sortedness is only
/// meaningful over non-null values. This is the resolved decision for
/// incomparable (null-involving) comparisons: a null left value matches
/// nothing (stated in the match predicate), and null right ordering
/// values are excluded up front rather than silently ordered.
pub open spec fn asof_right_sorted(right: Table, right_on: Seq<Expr>) -> bool {
    spec_eval_ok(right, right_on[0]) ==> ({
        let oc = spec_eval_cells(right, right_on[0]);
        &&& forall|i: int| 0 <= i < oc.len() ==> (#[trigger] oc[i]) is Some
        &&& forall|i: int, j: int|
            0 <= i <= j < oc.len() ==> unwrap_cell(#[trigger] oc[i]) <= unwrap_cell(
                #[trigger] oc[j],
            )
    })
}

/// The zipped (left, right) names of the on-then-by join keys.
pub open spec fn spec_zipped_key_names(
    left_on: Seq<Expr>,
    right_on: Seq<Expr>,
    left_by: Seq<Expr>,
    right_by: Seq<Expr>,
) -> Seq<(Seq<char>, Seq<char>)> {
    Seq::new(
        (left_on.len() + left_by.len()) as nat,
        |p: int| if p < left_on.len() {
            (
                crate::expr::spec_expr_name(left_on[p])->Some_0,
                crate::expr::spec_expr_name(right_on[p])->Some_0,
            )
        } else {
            (
                crate::expr::spec_expr_name(left_by[p - left_on.len()])->Some_0,
                crate::expr::spec_expr_name(right_by[p - left_on.len()])->Some_0,
            )
        },
    )
}

/// Congruence helper: the match predicate transfers across equal
/// arguments.
proof fn lemma_matched_rewrite(
    lbm: Seq<Seq<Option<i128>>>,
    rbm: Seq<Seq<Option<i128>>>,
    lon: Seq<Option<i128>>,
    ron: Seq<Option<i128>>,
    ln: int,
    rn: int,
    allow: bool,
    li: Seq<usize>,
    ri: Seq<usize>,
    lbm2: Seq<Seq<Option<i128>>>,
    rbm2: Seq<Seq<Option<i128>>>,
    lon2: Seq<Option<i128>>,
    ron2: Seq<Option<i128>>,
    ln2: int,
    rn2: int,
)
    requires
        matched_rows_ok(lbm, rbm, lon, ron, ln, rn, allow, li, ri),
        lbm2 == lbm,
        rbm2 == rbm,
        lon2 == lon,
        ron2 == ron,
        ln2 == ln,
        rn2 == rn,
    ensures
        matched_rows_ok(lbm2, rbm2, lon2, ron2, ln2, rn2, allow, li, ri),
{
}

/// Everything the as-of join needs to succeed: schema inference inputs,
/// evaluable comparison and by-key expressions with common supertypes,
/// and distinctly-named by keys on each side.
pub open spec fn asof_join_inputs_ok(
    left: Table,
    right: Table,
    left_on: Seq<Expr>,
    right_on: Seq<Expr>,
    left_by: Seq<Expr>,
    right_by: Seq<Expr>,
) -> bool {
    &&& asof_schema_inputs_ok(
        left.schema.fields@,
        right.schema.fields@,
        left_on,
        right_on,
        left_by,
        right_by,
    )
    &&& spec_eval_ok(left, left_on[0])
    &&& spec_eval_ok(right, right_on[0])
    &&& spec_supertype(
        spec_eval_dtype(left, left_on[0]),
        spec_eval_dtype(right, right_on[0]),
    ) is Some
    &&& forall|c: int| 0 <= c < left_by.len() ==> spec_eval_ok(left, #[trigger] left_by[c])
    &&& forall|c: int| 0 <= c < right_by.len() ==> spec_eval_ok(right, #[trigger] right_by[c])
    &&& crate::table_window::distinct_eval_names(left, left_by)
    &&& crate::table_window::distinct_eval_names(right, right_by)
    &&& forall|c: int|
        0 <= c < left_by.len() ==> spec_supertype(
            spec_eval_dtype(left, #[trigger] left_by[c]),
            spec_eval_dtype(right, right_by[c]),
        ) is Some
}

/// The whole as-of join contract: some index pair lists exactly the left
/// rows with a match, each against its nearest eligible right row, and
/// the output is the assembled gather of both sides through those lists.
pub open spec fn asof_join_ok(
    left: Table,
    right: Table,
    left_on: Seq<Expr>,
    right_on: Seq<Expr>,
    left_by: Seq<Expr>,
    right_by: Seq<Expr>,
    allow: bool,
    t: Table,
) -> bool {
    exists|li: Seq<usize>, ri: Seq<usize>, left_keys: Table|
        #![trigger matched_rows_ok(
            by_matrix(left, left_by),
            by_matrix(right, right_by),
            spec_eval_cells(left, left_on[0]),
            spec_eval_cells(right, right_on[0]),
            left.spec_num_rows(),
            right.spec_num_rows(),
            allow,
            li,
            ri,
        ), asof_assembled(
            left,
            right,
            left_keys,
            spec_zipped_key_names(left_on, right_on, left_by, right_by),
            li,
            ri,
            t,
        )]
        {
            &&& left_keys.columns@.len() == left_by.len()
            &&& forall|c: int|
                0 <= c < left_by.len() ==> (#[trigger] left_keys.columns@[c]).values@
                    == spec_eval_cells(left, left_by[c]) && left_keys.columns@[c].name@
                    == spec_eval_name(left, left_by[c])
            &&& matched_rows_ok(
                by_matrix(left, left_by),
                by_matrix(right, right_by),
                spec_eval_cells(left, left_on[0]),
                spec_eval_cells(right, right_on[0]),
                left.spec_num_rows(),
                right.spec_num_rows(),
                allow,
                li,
                ri,
            )
            &&& asof_assembled(
                left,
                right,
                left_keys,
                spec_zipped_key_names(left_on, right_on, left_by, right_by),
                li,
                ri,
                t,
            )
        }
}

impl Table {
    /// The as-of join: for each left row, the nearest right row whose
    /// by-key tuple matches exactly and whose ordering value lies at or
    /// strictly below the left one. Left rows with no eligible right row
    /// are excluded; either side empty short-circuits to an empty result
    /// under the inferred schema.
    #[verifier::rlimit(100)]
    pub fn hash_asof_join(
        &self,
        right: &Table,
        left_on: &Vec<Expr>,
        right_on: &Vec<Expr>,
        left_by: &Vec<Expr>,
        right_by: &Vec<Expr>,
        allow_exact_matches: bool,
    ) -> (r: DaftResult<Table>)
        requires
            self.wf(),
            right.wf(),
            left_on@.len() >= 1,
            asof_right_sorted(*right, right_on@),
        ensures
            left_on@.len() != right_on@.len() ==> (r matches Err(e) && e is ValueError),
            r matches Ok(t) ==> t.wf(),
            self.spec_num_rows() == 0 || right.spec_num_rows() == 0 ==> (r matches Ok(t)
                ==> t.spec_num_rows() == 0 && asof_schema_ok(
                self.schema.fields@,
                right.schema.fields@,
                left_on@,
                right_on@,
                left_by@,
                right_by@,
                t.schema.fields@,
            )),
            self.spec_num_rows() > 0 && right.spec_num_rows() > 0 ==> (r matches Ok(t)
                ==> asof_join_ok(
                *self,
                *right,
                left_on@,
                right_on@,
                left_by@,
                right_by@,
                allow_exact_matches,
                t,
            )),
            asof_join_inputs_ok(*self, *right, left_on@, right_on@, left_by@, right_by@) ==> r
                is Ok,
            (self.spec_num_rows() == 0 || right.spec_num_rows() == 0) && asof_schema_inputs_ok(
                self.schema.fields@,
                right.schema.fields@,
                left_on@,
                right_on@,
                left_by@,
                right_by@,
            ) ==> r is Ok,
    {
        if left_on.len() != right_on.len() {
            let mut msg = String::from_str("Mismatch on join on clauses: left: ");
            let ln = crate::strfmt::int_to_string(left_on.len() as i128);
            msg.append(ln.as_str());
            msg.append(", right: ");
            let rn = crate::strfmt::int_to_string(right_on.len() as i128);
            msg.append(rn.as_str());
            return Err(DaftError::ValueError(msg));
        }
        let join_schema = infer_asof_schema(
            &self.schema,
            &right.schema,
            left_on,
            right_on,
            left_by,
            right_by,
        )?;
        if self.is_empty() || right.is_empty() {
            return Ok(Table::empty(join_schema));
        }
        let left_col = self.eval_expression(&left_on[0])?;
        let right_col = right.eval_expression(&right_on[0])?;
        if try_get_supertype(&left_col.data_type(), &right_col.data_type()).is_none() {
            return Err(
                DaftError::SchemaMismatch(
                    String::from_str("no common supertype for the comparison columns"),
                ),
            );
        }
        let left_index = self.eval_expression_list(left_by)?;
        let right_index = right.eval_expression_list(right_by)?;
        let pair = Table::match_types_for_tables(&left_index, &right_index)?;
        let (lk, rk) = pair;
        let (li, ri) = asof_match_indices(
            &lk,
            &rk,
            &left_col.values,
            &right_col.values,
            allow_exact_matches,
        );
        let mut lkey_names: Vec<String> = Vec::new();
        let mut rkey_names: Vec<String> = Vec::new();
        let nk = left_on.len();
        let mut p: usize = 0;
        while p < nk
            invariant
                0 <= p <= nk,
                nk == left_on@.len(),
                left_on@.len() == right_on@.len(),
                lkey_names@.len() == p,
                rkey_names@.len() == p,
                forall|a: int|
                    0 <= a < p ==> (#[trigger] lkey_names@[a])@ == crate::expr::spec_expr_name(
                        left_on@[a],
                    )->Some_0,
                forall|a: int|
                    0 <= a < p ==> (#[trigger] rkey_names@[a])@ == crate::expr::spec_expr_name(
                        right_on@[a],
                    )->Some_0,
            decreases nk - p,
        {
            let ln = left_on[p].name()?;
            let rn = right_on[p].name()?;
            let ghost pre_l = lkey_names@;
            let ghost pre_r = rkey_names@;
            lkey_names.push(ln);
            rkey_names.push(rn);
            proof {
                assert forall|a: int|
                    0 <= a < p + 1 implies (#[trigger] lkey_names@[a])@
                    == crate::expr::spec_expr_name(left_on@[a])->Some_0 by {
                    if a < p {
                        assert(lkey_names@[a] == pre_l[a]);
                    }
                }
                assert forall|a: int|
                    0 <= a < p + 1 implies (#[trigger] rkey_names@[a])@
                    == crate::expr::spec_expr_name(right_on@[a])->Some_0 by {
                    if a < p {
                        assert(rkey_names@[a] == pre_r[a]);
                    }
                }
            }
            p = p + 1;
        }
        let nb = left_by.len();
        let mut p2: usize = 0;
        while p2 < nb
            invariant
                0 <= p2 <= nb,
                nk == left_on@.len(),
                nb == left_by@.len(),
                left_by@.len() == right_by@.len(),
                lkey_names@.len() == nk + p2,
                rkey_names@.len() == nk + p2,
                forall|a: int|
                    0 <= a < nk ==> (#[trigger] lkey_names@[a])@ == crate::expr::spec_expr_name(
                        left_on@[a],
                    )->Some_0,
                forall|a: int|
                    0 <= a < nk ==> (#[trigger] rkey_names@[a])@ == crate::expr::spec_expr_name(
                        right_on@[a],
                    )->Some_0,
                forall|a: int|
                    nk <= a < nk + p2 ==> (#[trigger] lkey_names@[a])@
                        == crate::expr::spec_expr_name(left_by@[a - nk])->Some_0,
                forall|a: int|
                    nk <= a < nk + p2 ==> (#[trigger] rkey_names@[a])@
                        == crate::expr::spec_expr_name(right_by@[a - nk])->Some_0,
            decreases nb - p2,
        {
            let ln = left_by[p2].name()?;
            let rn = right_by[p2].name()?;
            let ghost pre_l = lkey_names@;
            let ghost pre_r = rkey_names@;
            lkey_names.push(ln);
            rkey_names.push(rn);
            proof {
                assert forall|a: int|
                    0 <= a < nk + p2 + 1 implies (#[trigger] lkey_names@[a])@ == (if a < nk {
                    crate::expr::spec_expr_name(left_on@[a])->Some_0
                } else {
                    crate::expr::spec_expr_name(left_by@[a - nk])->Some_0
                }) by {
                    if a < nk + p2 {
                        assert(lkey_names@[a] == pre_l[a]);
                    } else {
                        assert(lkey_names@[a] == ln);
                    }
                }
                assert forall|a: int|
                    0 <= a < nk + p2 + 1 implies (#[trigger] rkey_names@[a])@ == (if a < nk {
                    crate::expr::spec_expr_name(right_on@[a])->Some_0
                } else {
                    crate::expr::spec_expr_name(right_by@[a - nk])->Some_0
                }) by {
                    if a < nk + p2 {
                        assert(rkey_names@[a] == pre_r[a]);
                    } else {
                        assert(rkey_names@[a] == rn);
                    }
                }
            }
            p2 = p2 + 1;
        }
        proof {
            assert forall|k: int|
                0 <= k < li@.len() implies (#[trigger] li@[k]) < self.spec_num_rows() by {}
            assert forall|k: int|
                0 <= k < ri@.len() implies (#[trigger] ri@[k]) < right.spec_num_rows() by {
                assert(li@[k] < self.spec_num_rows());
                assert(asof_is_match(
                    key_matrix(lk),
                    key_matrix(rk),
                    left_col.values@,
                    right_col.values@,
                    li@[k] as int,
                    ri@[k] as int,
                    right_col.values@.len() as int,
                    allow_exact_matches,
                ));
            }
        }
        let out = assemble_asof_output(self, right, &lk, &li, &ri, &lkey_names, &rkey_names);
        proof {
            // the cast key tables carry exactly the evaluated by-key cells
            assert forall|c: int|
                0 <= c < left_by@.len() implies #[trigger] key_matrix(lk)[c] == by_matrix(
                *self,
                left_by@,
            )[c] by {
                assert(lk.columns@[c].values@ == left_index.columns@[c].values@);
                assert(left_index.columns@[c].values@ == spec_eval_cells(*self, left_by@[c]));
            }
            assert(key_matrix(lk) =~= by_matrix(*self, left_by@));
            assert forall|c: int|
                0 <= c < right_by@.len() implies #[trigger] key_matrix(rk)[c] == by_matrix(
                *right,
                right_by@,
            )[c] by {
                assert(lk.columns@[c].values@ == left_index.columns@[c].values@);
                assert(rk.columns@[c].values@ == right_index.columns@[c].values@);
                assert(right_index.columns@[c].values@ == spec_eval_cells(*right, right_by@[c]));
            }
            assert(key_matrix(rk) =~= by_matrix(*right, right_by@));
            assert(left_col.values@ == spec_eval_cells(*self, left_on@[0]));
            assert(right_col.values@ == spec_eval_cells(*right, right_on@[0]));
            assert(left_col.values@.len() == self.spec_num_rows());
            assert(right_col.values@.len() == right.spec_num_rows());
            lemma_matched_rewrite(
                key_matrix(lk),
                key_matrix(rk),
                left_col.values@,
                right_col.values@,
                left_col.values@.len() as int,
                right_col.values@.len() as int,
                allow_exact_matches,
                li@,
                ri@,
                by_matrix(*self, left_by@),
                by_matrix(*right, right_by@),
                spec_eval_cells(*self, left_on@[0]),
                spec_eval_cells(*right, right_on@[0]),
                self.spec_num_rows(),
                right.spec_num_rows(),
            );
            assert(matched_rows_ok(
                by_matrix(*self, left_by@),
                by_matrix(*right, right_by@),
                spec_eval_cells(*self, left_on@[0]),
                spec_eval_cells(*right, right_on@[0]),
                self.spec_num_rows(),
                right.spec_num_rows(),
                allow_exact_matches,
                li@,
                ri@,
            ));
            assert forall|a: int|
                0 <= a < zipped_views(lkey_names@, rkey_names@).len() implies #[trigger] zipped_views(
                lkey_names@,
                rkey_names@,
            )[a] == spec_zipped_key_names(left_on@, right_on@, left_by@, right_by@)[a] by {
                if a >= nk {
                    assert(lkey_names@[nk + (a - nk)]@ == crate::expr::spec_expr_name(
                        left_by@[a - nk],
                    )->Some_0);
                    assert(rkey_names@[nk + (a - nk)]@ == crate::expr::spec_expr_name(
                        right_by@[a - nk],
                    )->Some_0);
                }
            }
            assert(zipped_views(lkey_names@, rkey_names@) =~= spec_zipped_key_names(
                left_on@,
                right_on@,
                left_by@,
                right_by@,
            ));
            assert forall|c: int|
                0 <= c < left_by@.len() implies (#[trigger] lk.columns@[c]).values@
                == spec_eval_cells(*self, left_by@[c]) && lk.columns@[c].name@ == spec_eval_name(
                *self,
                left_by@[c],
            ) by {
                assert(lk.columns@[c].values@ == left_index.columns@[c].values@);
                assert(lk.columns@[c].name@ == left_index.columns@[c].name@);
                assert(left_index.columns@[c].name@ == spec_eval_name(*self, left_by@[c]));
            }
            assert(asof_assembled(
                *self,
                *right,
                lk,
                spec_zipped_key_names(left_on@, right_on@, left_by@, right_by@),
                li@,
                ri@,
                out,
            ));
            assert(asof_join_ok(
                *self,
                *right,
                left_on@,
                right_on@,
                left_by@,
                right_by@,
                allow_exact_matches,
                out,
            ));
        }
        Ok(out)
    }
}

} // verus!
