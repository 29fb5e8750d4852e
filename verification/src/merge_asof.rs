//! The logical as-of merge node: validates the join keys, infers the
//! output schema, and records which right-side columns the join renames.

use vstd::prelude::*;
use vstd::string::*;
use indexmap::IndexMap;
use std::collections::hash_map::RandomState;
use crate::dtype::DataType;
use crate::error::{DaftError, DaftResult};
use crate::expr::{Expr, spec_expr_name, spec_to_field};
use crate::indexmap_specs::{index_map_entries, entry_key_index, index_map_new, index_map_insert};
use crate::logical_ops::LogicalPlanRef;
use crate::names::{contains_str, views_of};
use crate::plan::JoinDirection;
use crate::schema::{Schema, Field, contains_name, names_unique, lemma_index_of_properties};

verus! {

/// The names of the left join keys (on, then by).
pub open spec fn spec_join_key_names(left_on: Seq<Expr>, left_by: Seq<Expr>) -> Seq<Seq<char>> {
    Seq::new(
        (left_on.len() + left_by.len()) as nat,
        |p: int| if p < left_on.len() {
            spec_expr_name(left_on[p])->Some_0
        } else {
            spec_expr_name(left_by[p - left_on.len()])->Some_0
        },
    )
}

/// The mapping entry one right field contributes: output name to original
/// name. A shared join key keeps its name (the left column serves as the
/// result), a name that collides with a left column is prefixed with
/// `right.`, anything else passes through.
pub open spec fn spec_merge_entry(
    left_fields: Seq<Field>,
    jks: Seq<Seq<char>>,
    rf: Field,
) -> (Seq<char>, Seq<char>) {
    if contains_str(jks, rf.name@) {
        (rf.name@, rf.name@)
    } else if contains_name(left_fields, rf.name@) {
        ("right."@ + rf.name@, rf.name@)
    } else {
        (rf.name@, rf.name@)
    }
}

/// The rename mapping after the first `n` right fields, with insert
/// semantics: an existing output name keeps its place and takes the new
/// original name, a new one is appended.
pub open spec fn spec_merge_mapping(
    left_fields: Seq<Field>,
    jks: Seq<Seq<char>>,
    right_fields: Seq<Field>,
    n: int,
) -> Seq<(Seq<char>, Seq<char>)>
    decreases n,
{
    if n <= 0 {
        Seq::empty()
    } else {
        let prev = spec_merge_mapping(left_fields, jks, right_fields, n - 1);
        let e = spec_merge_entry(left_fields, jks, right_fields[n - 1]);
        let i = entry_key_index(prev, e.0);
        if i >= 0 {
            prev.update(i, e)
        } else {
            prev.push(e)
        }
    }
}

/// Output field names and types after the first `n` right fields: every
/// left field, then each right field that is not a shared join key, under
/// its possibly-prefixed name.
pub open spec fn spec_merge_out_fields(
    left_fields: Seq<Field>,
    jks: Seq<Seq<char>>,
    right_fields: Seq<Field>,
    n: int,
) -> Seq<(Seq<char>, DataType)>
    decreases n,
{
    if n <= 0 {
        left_fields.map(|_i: int, f: Field| (f.name@, f.dtype))
    } else {
        let prev = spec_merge_out_fields(left_fields, jks, right_fields, n - 1);
        let rf = right_fields[n - 1];
        if contains_str(jks, rf.name@) {
            prev
        } else if contains_name(left_fields, rf.name@) {
            prev.push(("right."@ + rf.name@, rf.dtype))
        } else {
            prev.push((rf.name@, rf.dtype))
        }
    }
}

/// The key validation of the merge node: every on key resolves to a
/// non-null-typed field, every by key to a numeric or temporal one.
pub open spec fn merge_keys_ok(
    lfields: Seq<Field>,
    rfields: Seq<Field>,
    left_on: Seq<Expr>,
    right_on: Seq<Expr>,
    left_by: Seq<Expr>,
    right_by: Seq<Expr>,
) -> bool {
    &&& forall|p: int|
        0 <= p < left_on.len() ==> spec_to_field(#[trigger] left_on[p], lfields) is Some
            && spec_to_field(left_on[p], lfields)->Some_0.1 != DataType::Null
    &&& forall|p: int|
        0 <= p < right_on.len() ==> spec_to_field(#[trigger] right_on[p], rfields) is Some
            && spec_to_field(right_on[p], rfields)->Some_0.1 != DataType::Null
    &&& forall|p: int|
        0 <= p < left_by.len() ==> spec_to_field(#[trigger] left_by[p], lfields) is Some && (
        spec_to_field(left_by[p], lfields)->Some_0.1.is_numeric() || spec_to_field(
            left_by[p],
            lfields,
        )->Some_0.1.is_temporal())
    &&& forall|p: int|
        0 <= p < right_by.len() ==> spec_to_field(#[trigger] right_by[p], rfields) is Some && (
        spec_to_field(right_by[p], rfields)->Some_0.1.is_numeric() || spec_to_field(
            right_by[p],
            rfields,
        )->Some_0.1.is_temporal())
}

/// Every key expression resolves to a field on its own side.
pub open spec fn merge_keys_resolve(
    lfields: Seq<Field>,
    rfields: Seq<Field>,
    left_on: Seq<Expr>,
    right_on: Seq<Expr>,
    left_by: Seq<Expr>,
    right_by: Seq<Expr>,
) -> bool {
    &&& forall|p: int|
        0 <= p < left_on.len() ==> spec_to_field(#[trigger] left_on[p], lfields) is Some
    &&& forall|p: int|
        0 <= p < right_on.len() ==> spec_to_field(#[trigger] right_on[p], rfields) is Some
    &&& forall|p: int|
        0 <= p < left_by.len() ==> spec_to_field(#[trigger] left_by[p], lfields) is Some
    &&& forall|p: int|
        0 <= p < right_by.len() ==> spec_to_field(#[trigger] right_by[p], rfields) is Some
}

/// Pairwise-distinct output names.
pub open spec fn pairs_names_unique(fs: Seq<(Seq<char>, DataType)>) -> bool {
    forall|i: int, j: int| 0 <= i < j < fs.len() ==> (#[trigger] fs[i]).0 != (#[trigger] fs[j]).0
}

#[derive(Debug)]
pub struct MergeAsOf {
    pub left: LogicalPlanRef,
    pub right: LogicalPlanRef,
    pub left_on: Vec<Expr>,
    pub right_on: Vec<Expr>,
    pub left_by: Vec<Expr>,
    pub right_by: Vec<Expr>,
    pub join_direction: JoinDirection,
    pub allow_exact_matches: bool,
    pub output_schema: Schema,
    pub right_input_mapping: IndexMap<String, String, RandomState>,
}

impl MergeAsOf {
    /// Builds the merge node: the on keys must not be of null type, the
    /// by keys must be numeric or temporal, and the output schema is the
    /// left schema followed by the right columns that are not shared join
    /// keys, renamed with a `right.` prefix where they collide.
    pub fn try_new(
        left: LogicalPlanRef,
        right: LogicalPlanRef,
        left_on: Vec<Expr>,
        right_on: Vec<Expr>,
        left_by: Vec<Expr>,
        right_by: Vec<Expr>,
        join_direction: JoinDirection,
        allow_exact_matches: bool,
    ) -> (r: DaftResult<MergeAsOf>)
        requires
            left.schema.wf(),
            right.schema.wf(),
        ensures
            r matches Ok(m) ==> m.left_on == left_on && m.right_on == right_on && m.left_by
                == left_by && m.right_by == right_by && m.join_direction == join_direction
                && m.allow_exact_matches == allow_exact_matches && m.output_schema.wf()
                && m.output_schema.fields@.map(|_i: int, f: Field| (f.name@, f.dtype))
                == spec_merge_out_fields(
                left.schema.fields@,
                spec_join_key_names(left_on@, left_by@),
                right.schema.fields@,
                right.schema.fields@.len() as int,
            ) && index_map_entries(m.right_input_mapping) == spec_merge_mapping(
                left.schema.fields@,
                spec_join_key_names(left_on@, left_by@),
                right.schema.fields@,
                right.schema.fields@.len() as int,
            ),
            merge_keys_resolve(
                left.schema.fields@,
                right.schema.fields@,
                left_on@,
                right_on@,
                left_by@,
                right_by@,
            ) && !merge_keys_ok(
                left.schema.fields@,
                right.schema.fields@,
                left_on@,
                right_on@,
                left_by@,
                right_by@,
            ) ==> (r matches Err(e) && e is ValueError),
            merge_keys_ok(
                left.schema.fields@,
                right.schema.fields@,
                left_on@,
                right_on@,
                left_by@,
                right_by@,
            ) && (forall|p: int|
                0 <= p < left_on@.len() ==> spec_expr_name(#[trigger] left_on@[p]) is Some) && (
            forall|p: int|
                0 <= p < left_by@.len() ==> spec_expr_name(#[trigger] left_by@[p]) is Some)
                && pairs_names_unique(
                spec_merge_out_fields(
                    left.schema.fields@,
                    spec_join_key_names(left_on@, left_by@),
                    right.schema.fields@,
                    right.schema.fields@.len() as int,
                ),
            ) ==> r is Ok,
    {
        let _checked = Self::check_keys(&left, &right, &left_on, &right_on, &left_by, &right_by)?;
        let jk_names = Self::collect_key_names(&left_on, &left_by)?;
        let ghost jks = spec_join_key_names(left_on@, left_by@);
        proof {
            assert(views_of(jk_names@) =~= jks);
        }
        let mut mapping = index_map_new();
        let mut fields: Vec<Field> = Vec::new();
        let nl = left.schema.fields.len();
        let mut c: usize = 0;
        while c < nl
            invariant
                left.schema.wf(),
                nl == left.schema.fields@.len(),
                0 <= c <= nl,
                fields@ == left.schema.fields@.take(c as int),
            decreases nl - c,
        {
            fields.push(left.schema.fields[c].duplicate());
            proof {
                assert(fields@ =~= left.schema.fields@.take(c + 1 as int));
            }
            c = c + 1;
        }
        proof {
            assert(left.schema.fields@.take(nl as int) =~= left.schema.fields@);
            assert(fields@.map(|_i: int, f: Field| (f.name@, f.dtype)) =~= spec_merge_out_fields(
                left.schema.fields@,
                jks,
                right.schema.fields@,
                0,
            ));
        }
        let nr = right.schema.fields.len();
        let mut c2: usize = 0;
        while c2 < nr
            invariant
                left.schema.wf(),
                right.schema.wf(),
                jks == spec_join_key_names(left_on@, left_by@),
                views_of(jk_names@) == jks,
                nr == right.schema.fields@.len(),
                0 <= c2 <= nr,
                fields@.map(|_i: int, f: Field| (f.name@, f.dtype)) == spec_merge_out_fields(
                    left.schema.fields@,
                    jks,
                    right.schema.fields@,
                    c2 as int,
                ),
                index_map_entries(mapping) == spec_merge_mapping(
                    left.schema.fields@,
                    jks,
                    right.schema.fields@,
                    c2 as int,
                ),
            decreases nr - c2,
        {
            let rf = &right.schema.fields[c2];
            let ghost pre_fields = fields@;
            proof {
                lemma_index_of_properties(left.schema.fields@, rf.name@);
            }
            if crate::names::names_contain(&jk_names, &rf.name) {
                index_map_insert(&mut mapping, rf.name.clone(), rf.name.clone());
            } else if left_schema_contains(&left.schema, &rf.name) {
                let mut new_name = String::from_str("right.");
                new_name.append(rf.name.as_str());
                index_map_insert(&mut mapping, new_name.clone(), rf.name.clone());
                fields.push(rf.rename(new_name));
                proof {
                    assert(fields@.map(|_i: int, f: Field| (f.name@, f.dtype)) =~= pre_fields.map(
                        |_i: int, f: Field| (f.name@, f.dtype),
                    ).push(("right."@ + rf.name@, rf.dtype)));
                }
            } else {
                index_map_insert(&mut mapping, rf.name.clone(), rf.name.clone());
                fields.push(rf.duplicate());
                proof {
                    assert(fields@.map(|_i: int, f: Field| (f.name@, f.dtype)) =~= pre_fields.map(
                        |_i: int, f: Field| (f.name@, f.dtype),
                    ).push((rf.name@, rf.dtype)));
                }
            }
            c2 = c2 + 1;
        }
        proof {
            if pairs_names_unique(
                spec_merge_out_fields(
                    left.schema.fields@,
                    jks,
                    right.schema.fields@,
                    right.schema.fields@.len() as int,
                ),
            ) {
                let pairs = fields@.map(|_i: int, f: Field| (f.name@, f.dtype));
                let fold = spec_merge_out_fields(
                    left.schema.fields@,
                    jks,
                    right.schema.fields@,
                    right.schema.fields@.len() as int,
                );
                assert forall|a: int, b: int|
                    0 <= a < b < fields@.len() implies (#[trigger] fields@[a]).name@ != (
                #[trigger] fields@[b]).name@ by {
                    assert(pairs[a] == (fields@[a].name@, fields@[a].dtype));
                    assert(pairs[b] == (fields@[b].name@, fields@[b].dtype));
                    assert(fold[a].0 != fold[b].0);
                }
                assert(names_unique(fields@));
            }
        }
        let output_schema = Schema::new(fields)?;
        Ok(
            MergeAsOf {
                left,
                right,
                left_on,
                right_on,
                left_by,
                right_by,
                join_direction,
                allow_exact_matches,
                output_schema,
                right_input_mapping: mapping,
            },
        )
    }

    /// Validates the key expressions: on keys must not be of null type,
    /// by keys must be numeric or temporal. Succeeds exactly when the
    /// validation holds; a key that resolves but violates it is a value
    /// error.
    fn check_keys(
        left: &LogicalPlanRef,
        right: &LogicalPlanRef,
        left_on: &Vec<Expr>,
        right_on: &Vec<Expr>,
        left_by: &Vec<Expr>,
        right_by: &Vec<Expr>,
    ) -> (r: DaftResult<bool>)
        requires
            left.schema.wf(),
            right.schema.wf(),
        ensures
            merge_keys_ok(
                left.schema.fields@,
                right.schema.fields@,
                left_on@,
                right_on@,
                left_by@,
                right_by@,
            ) ==> r is Ok,
            merge_keys_resolve(
                left.schema.fields@,
                right.schema.fields@,
                left_on@,
                right_on@,
                left_by@,
                right_by@,
            ) && !merge_keys_ok(
                left.schema.fields@,
                right.schema.fields@,
                left_on@,
                right_on@,
                left_by@,
                right_by@,
            ) ==> (r matches Err(e) && e is ValueError),
    {
        let mut p: usize = 0;
        let n1 = left_on.len();
        while p < n1
            invariant
                left.schema.wf(),
                n1 == left_on@.len(),
                0 <= p <= n1,
                forall|a: int|
                    0 <= a < p ==> spec_to_field(#[trigger] left_on@[a], left.schema.fields@)
                        is Some && spec_to_field(left_on@[a], left.schema.fields@)->Some_0.1
                        != DataType::Null,
            decreases n1 - p,
        {
            let f = left_on[p].to_field(&left.schema)?;
            if matches!(f.dtype, DataType::Null) {
                return Err(
                    DaftError::ValueError(
                        String::from_str("Can't join on null type expressions"),
                    ),
                );
            }
            p = p + 1;
        }
        let mut p2: usize = 0;
        let n2 = right_on.len();
        while p2 < n2
            invariant
                right.schema.wf(),
                n2 == right_on@.len(),
                0 <= p2 <= n2,
                forall|a: int|
                    0 <= a < p2 ==> spec_to_field(#[trigger] right_on@[a], right.schema.fields@)
                        is Some && spec_to_field(right_on@[a], right.schema.fields@)->Some_0.1
                        != DataType::Null,
            decreases n2 - p2,
        {
            let f = right_on[p2].to_field(&right.schema)?;
            if matches!(f.dtype, DataType::Null) {
                return Err(
                    DaftError::ValueError(
                        String::from_str("Can't join on null type expressions"),
                    ),
                );
            }
            p2 = p2 + 1;
        }
        let mut p3: usize = 0;
        let n3 = left_by.len();
        while p3 < n3
            invariant
                left.schema.wf(),
                n3 == left_by@.len(),
                0 <= p3 <= n3,
                forall|a: int|
                    0 <= a < p3 ==> spec_to_field(#[trigger] left_by@[a], left.schema.fields@)
                        is Some && (spec_to_field(
                        left_by@[a],
                        left.schema.fields@,
                    )->Some_0.1.is_numeric() || spec_to_field(
                        left_by@[a],
                        left.schema.fields@,
                    )->Some_0.1.is_temporal()),
            decreases n3 - p3,
        {
            let f = left_by[p3].to_field(&left.schema)?;
            if !(f.dtype.exec_is_numeric() || f.dtype.exec_is_temporal()) {
                return Err(
                    DaftError::ValueError(
                        String::from_str("AsOf join can only join on numeric or temporal types"),
                    ),
                );
            }
            p3 = p3 + 1;
        }
        let mut p4: usize = 0;
        let n4 = right_by.len();
        while p4 < n4
            invariant
                right.schema.wf(),
                n4 == right_by@.len(),
                0 <= p4 <= n4,
                forall|a: int|
                    0 <= a < p4 ==> spec_to_field(#[trigger] right_by@[a], right.schema.fields@)
                        is Some && (spec_to_field(
                        right_by@[a],
                        right.schema.fields@,
                    )->Some_0.1.is_numeric() || spec_to_field(
                        right_by@[a],
                        right.schema.fields@,
                    )->Some_0.1.is_temporal()),
            decreases n4 - p4,
        {
            let f = right_by[p4].to_field(&right.schema)?;
            if !(f.dtype.exec_is_numeric() || f.dtype.exec_is_temporal()) {
                return Err(
                    DaftError::ValueError(
                        String::from_str("AsOf join can only join on numeric or temporal types"),
                    ),
                );
            }
            p4 = p4 + 1;
        }
        Ok(true)
    }

    /// Collects the names of the left join keys, on keys first.
    fn collect_key_names(left_on: &Vec<Expr>, left_by: &Vec<Expr>) -> (r: DaftResult<Vec<String>>)
        ensures
            r matches Ok(names) ==> names@.len() == left_on@.len() + left_by@.len() && (forall|
                a: int,
            |
                0 <= a < names@.len() ==> (#[trigger] names@[a])@ == spec_join_key_names(
                    left_on@,
                    left_by@,
                )[a]),
            (forall|p: int|
                0 <= p < left_on@.len() ==> spec_expr_name(#[trigger] left_on@[p]) is Some) && (
            forall|p: int|
                0 <= p < left_by@.len() ==> spec_expr_name(#[trigger] left_by@[p]) is Some) ==> r
                is Ok,
    {
        let mut names: Vec<String> = Vec::new();
        let n1 = left_on.len();
        let mut p: usize = 0;
        while p < n1
            invariant
                n1 == left_on@.len(),
                0 <= p <= n1,
                names@.len() == p,
                forall|a: int|
                    0 <= a < p ==> (#[trigger] names@[a])@ == spec_expr_name(
                        left_on@[a],
                    )->Some_0,
            decreases n1 - p,
        {
            let nm = left_on[p].name()?;
            let ghost pre = names@;
            names.push(nm);
            proof {
                assert forall|a: int|
                    0 <= a < p + 1 implies (#[trigger] names@[a])@ == spec_expr_name(
                    left_on@[a],
                )->Some_0 by {
                    if a < p {
                        assert(names@[a] == pre[a]);
                    }
                }
            }
            p = p + 1;
        }
        let n2 = left_by.len();
        let mut p2: usize = 0;
        while p2 < n2
            invariant
                n1 == left_on@.len(),
                n2 == left_by@.len(),
                0 <= p2 <= n2,
                names@.len() == n1 + p2,
                forall|a: int|
                    0 <= a < n1 ==> (#[trigger] names@[a])@ == spec_expr_name(
                        left_on@[a],
                    )->Some_0,
                forall|a: int|
                    n1 <= a < n1 + p2 ==> (#[trigger] names@[a])@ == spec_expr_name(
                        left_by@[a - n1],
                    )->Some_0,
            decreases n2 - p2,
        {
            let nm = left_by[p2].name()?;
            let ghost pre = names@;
            names.push(nm);
            proof {
                assert forall|a: int|
                    0 <= a < n1 + p2 + 1 implies (#[trigger] names@[a])@ == (if a < n1 {
                    spec_expr_name(left_on@[a])->Some_0
                } else {
                    spec_expr_name(left_by@[a - n1])->Some_0
                }) by {
                    if a < n1 + p2 {
                        assert(names@[a] == pre[a]);
                    } else {
                        assert(names@[a] == nm);
                    }
                }
            }
            p2 = p2 + 1;
        }
        Ok(names)
    }

    /// The operator's display block: the direction, then the on and by
    /// keys, then the output schema.
    pub fn multiline_display(&self) -> (r: Vec<String>)
        ensures
            crate::names::views_of(r@) == seq![
                "Join: Direction = "@ + self.join_direction.spec_display(),
            ] + crate::physical_ops::key_lines(
                "On = "@,
                "Left on = "@,
                "Right on = "@,
                self.left_on@,
                self.right_on@,
            ) + crate::physical_ops::key_lines(
                "By = "@,
                "Left by = "@,
                "Right by = "@,
                self.left_by@,
                self.right_by@,
            ) + seq![
                "Output schema = "@ + crate::schema::spec_short_string(self.output_schema.fields@),
            ],
    {
        let mut res: Vec<String> = Vec::new();
        let mut l0 = String::from_str("Join: Direction = ");
        let d = self.join_direction.display_string();
        l0.append(d.as_str());
        res.push(l0);
        crate::physical_ops::push_key_lines(&mut res, "On = ", "Left on = ", "Right on = ",
            &self.left_on, &self.right_on);
        crate::physical_ops::push_key_lines(&mut res, "By = ", "Left by = ", "Right by = ",
            &self.left_by, &self.right_by);
        let mut lz = String::from_str("Output schema = ");
        let s = self.output_schema.short_string();
        lz.append(s.as_str());
        let ghost before = crate::names::views_of(res@);
        let ghost pre = res@;
        let ghost lzv = lz@;
        res.push(lz);
        proof {
            assert forall|a: int|
                0 <= a < res@.len() implies #[trigger] crate::names::views_of(res@)[a]
                == before.push(lzv)[a] by {
                if a < res@.len() - 1 {
                    assert(res@[a] == pre[a]);
                    assert(before[a] == pre[a]@);
                }
            }
            assert(crate::names::views_of(res@) =~= before.push(lzv));
            assert(crate::names::views_of(res@) =~= seq![
                "Join: Direction = "@ + self.join_direction.spec_display(),
            ] + crate::physical_ops::key_lines(
                "On = "@,
                "Left on = "@,
                "Right on = "@,
                self.left_on@,
                self.right_on@,
            ) + crate::physical_ops::key_lines(
                "By = "@,
                "Left by = "@,
                "Right by = "@,
                self.left_by@,
                self.right_by@,
            ) + seq![
                "Output schema = "@ + crate::schema::spec_short_string(self.output_schema.fields@),
            ]);
        }
        res
    }
}

/// Whether the left schema carries a field of this name.
fn left_schema_contains(schema: &Schema, name: &String) -> (r: bool)
    ensures
        r == contains_name(schema.fields@, name@),
{
    match schema.index_of(name) {
        Some(_) => true,
        None => false,
    }
}

} // verus!
