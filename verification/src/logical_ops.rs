//! Logical plan nodes of this layer: the window operator.

use vstd::prelude::*;
use vstd::string::*;
use crate::error::DaftResult;
use crate::expr::{Expr, WindowSpec, spec_to_field, spec_joined_display, joined_display};
use crate::schema::{Schema, Field, contains_name, spec_index_of, names_unique,
    lemma_index_of_properties, spec_short_string};
use crate::strfmt::{dec_string, int_to_string};

verus! {

/// Coarse statistics of an upstream operator's output.
#[derive(Clone, Copy, Debug)]
pub struct PlanStats {
    pub num_rows: usize,
    pub size_bytes: usize,
}

impl PlanStats {
    pub open spec fn spec_display(self) -> Seq<char> {
        "{ num_rows = "@ + dec_string(self.num_rows as int) + ", size_bytes = "@ + dec_string(
            self.size_bytes as int,
        ) + " }"@
    }

    pub fn display_string(&self) -> (r: String)
        ensures
            r@ == self.spec_display(),
    {
        let mut out = String::from_str("{ num_rows = ");
        let n = int_to_string(self.num_rows as i128);
        out.append(n.as_str());
        out.append(", size_bytes = ");
        let m = int_to_string(self.size_bytes as i128);
        out.append(m.as_str());
        out.append(" }");
        proof {
            assert(out@ =~= self.spec_display());
        }
        out
    }
}

/// Whether an operator's statistics have been materialized yet.
#[derive(Clone, Copy, Debug)]
pub enum StatsState {
    NotMaterialized,
    Materialized(PlanStats),
}

/// Stand-in for an upstream logical operator: this layer reads only the
/// schema and the statistics its output carries.
#[derive(Debug)]
pub struct LogicalPlanRef {
    pub schema: Schema,
    pub stats: PlanStats,
}

/// The schema of a window operator's output: the upstream fields, with
/// one field per window function upserted under its output name (an
/// existing name is replaced in place, a new one is appended).
pub open spec fn spec_window_schema(
    base: Seq<Field>,
    fns: Seq<Expr>,
    names: Seq<String>,
    src_fields: Seq<Field>,
    n: int,
) -> Seq<Field>
    decreases n,
{
    if n <= 0 {
        base
    } else {
        let prev = spec_window_schema(base, fns, names, src_fields, n - 1);
        let f = Field {
            name: names[n - 1],
            dtype: spec_to_field(fns[n - 1], src_fields)->Some_0.1,
        };
        if contains_name(prev, f.name@) {
            prev.update(spec_index_of(prev, f.name@), f)
        } else {
            prev.push(f)
        }
    }
}

#[derive(Debug)]
pub struct Window {
    pub input: LogicalPlanRef,
    pub window_spec: WindowSpec,
    pub window_fns: Vec<Expr>,
    pub window_names: Vec<String>,
    pub output_schema: Schema,
    pub stats_state: StatsState,
}

impl Window {
    /// Builds the window operator, inferring its output schema from the
    /// upstream schema and the window functions' fields under their
    /// output names.
    pub fn try_new(
        input: LogicalPlanRef,
        window_spec: WindowSpec,
        window_fns: Vec<Expr>,
        window_names: Vec<String>,
    ) -> (r: DaftResult<Window>)
        requires
            input.schema.wf(),
        ensures
            r matches Ok(w) ==> w.window_spec == window_spec && w.window_fns == window_fns
                && w.window_names == window_names && w.stats_state is NotMaterialized
                && w.output_schema.wf() && w.output_schema.fields@ == spec_window_schema(
                input.schema.fields@,
                window_fns@,
                window_names@,
                input.schema.fields@,
                if window_fns@.len() <= window_names@.len() {
                    window_fns@.len() as int
                } else {
                    window_names@.len() as int
                },
            ),
            (forall|j: int|
                0 <= j < window_fns@.len() ==> spec_to_field(
                    #[trigger] window_fns@[j],
                    input.schema.fields@,
                ) is Some) ==> r is Ok,
    {
        let ghost src_fields = input.schema.fields@;
        let mut fields: Vec<Field> = Vec::new();
        let nb = input.schema.fields.len();
        let mut c: usize = 0;
        while c < nb
            invariant
                input.schema.wf(),
                nb == input.schema.fields@.len(),
                0 <= c <= nb,
                fields@ == input.schema.fields@.take(c as int),
            decreases nb - c,
        {
            fields.push(input.schema.fields[c].duplicate());
            proof {
                assert(fields@ =~= input.schema.fields@.take(c + 1 as int));
            }
            c = c + 1;
        }
        proof {
            assert(input.schema.fields@.take(nb as int) =~= input.schema.fields@);
        }
        let n = if window_fns.len() <= window_names.len() {
            window_fns.len()
        } else {
            window_names.len()
        };
        let mut i: usize = 0;
        while i < n
            invariant
                input.schema.wf(),
                src_fields == input.schema.fields@,
                n <= window_fns@.len(),
                n <= window_names@.len(),
                0 <= i <= n,
                names_unique(fields@),
                fields@ == spec_window_schema(
                    input.schema.fields@,
                    window_fns@,
                    window_names@,
                    src_fields,
                    i as int,
                ),
            decreases n - i,
        {
            let f = window_fns[i].to_field(&input.schema)?;
            let renamed = Field { name: window_names[i].clone(), dtype: f.dtype };
            proof {
                lemma_index_of_properties(fields@, renamed.name@);
            }
            let ghost pre_fields = fields@;
            match fields_index_of(&fields, &renamed.name) {
                Some(idx) => {
                    let ghost old_field = fields@[idx as int];
                    fields[idx] = renamed;
                    proof {
                        assert(fields@ == pre_fields.update(idx as int, fields@[idx as int]));
                        assert forall|a: int, b: int|
                            0 <= a < b < fields@.len() implies (#[trigger] fields@[a]).name@ != (
                        #[trigger] fields@[b]).name@ by {
                            if a != idx && b != idx {
                                assert(fields@[a] == pre_fields[a]);
                                assert(fields@[b] == pre_fields[b]);
                            } else if a == idx {
                                assert(fields@[a].name@ == pre_fields[a].name@);
                                assert(fields@[b] == pre_fields[b]);
                            } else {
                                assert(fields@[b].name@ == pre_fields[b].name@);
                                assert(fields@[a] == pre_fields[a]);
                            }
                        }
                    }
                },
                None => {
                    fields.push(renamed);
                    proof {
                        assert forall|a: int, b: int|
                            0 <= a < b < fields@.len() implies (#[trigger] fields@[a]).name@ != (
                        #[trigger] fields@[b]).name@ by {
                            if b == fields@.len() - 1 {
                                assert(fields@[a] == pre_fields[a]);
                            }
                        }
                    }
                },
            }
            i = i + 1;
        }
        let schema = match Schema::new(fields) {
            Ok(s) => s,
            Err(_) => {
                proof {
                    assert(false);
                }
                return vstd::pervasive::unreached();
            },
        };
        Ok(
            Window {
                input,
                window_spec,
                window_fns,
                window_names,
                output_schema: schema,
                stats_state: StatsState::NotMaterialized,
            },
        )
    }

    /// Materializes the operator's statistics from its upstream operator.
    pub fn with_materialized_stats(self) -> (r: Window)
        ensures
            r.input == self.input,
            r.window_spec == self.window_spec,
            r.window_fns == self.window_fns,
            r.window_names == self.window_names,
            r.output_schema == self.output_schema,
            r.stats_state == StatsState::Materialized(self.input.stats),
    {
        let stats = self.input.stats;
        Window { stats_state: StatsState::Materialized(stats), ..self }
    }

    /// The operator's display block: its name, its functions, its keys,
    /// its output schema, and the statistics when materialized.
    pub fn multiline_display(&self) -> (r: Vec<String>)
        ensures
            r@.len() == (if self.stats_state is Materialized {
                6int
            } else {
                5int
            }),
            r@[0]@ == "Window"@,
            r@[1]@ == "Functions: "@ + spec_joined_display(self.window_fns@),
            r@[2]@ == "Partition By: "@ + spec_joined_display(self.window_spec.partition_by@),
            r@[3]@ == "Order By: "@ + spec_joined_display(self.window_spec.order_by@),
            r@[4]@ == "Output Schema: "@ + spec_short_string(self.output_schema.fields@),
            self.stats_state matches StatsState::Materialized(st) ==> r@[5]@ == "Stats: "@
                + st.spec_display(),
    {
        let mut res: Vec<String> = Vec::new();
        res.push(String::from_str("Window"));
        let mut l1 = String::from_str("Functions: ");
        let j1 = joined_display(&self.window_fns);
        l1.append(j1.as_str());
        res.push(l1);
        let mut l2 = String::from_str("Partition By: ");
        let j2 = joined_display(&self.window_spec.partition_by);
        l2.append(j2.as_str());
        res.push(l2);
        let mut l3 = String::from_str("Order By: ");
        let j3 = joined_display(&self.window_spec.order_by);
        l3.append(j3.as_str());
        res.push(l3);
        let mut l4 = String::from_str("Output Schema: ");
        let s4 = self.output_schema.short_string();
        l4.append(s4.as_str());
        res.push(l4);
        match &self.stats_state {
            StatsState::Materialized(st) => {
                let mut l5 = String::from_str("Stats: ");
                let s5 = st.display_string();
                l5.append(s5.as_str());
                res.push(l5);
            },
            StatsState::NotMaterialized => {},
        }
        res
    }
}

/// Position of a field by name within a plain field list.
fn fields_index_of(fields: &Vec<Field>, name: &String) -> (r: Option<usize>)
    ensures
        contains_name(fields@, name@) ==> (r matches Some(i) && i == spec_index_of(
            fields@,
            name@,
        ) && i < fields@.len() && fields@[i as int].name@ == name@),
        !contains_name(fields@, name@) ==> r is None,
{
    proof {
        lemma_index_of_properties(fields@, name@);
    }
    let n = fields.len();
    let mut i: usize = 0;
    while i < n
        invariant
            n == fields@.len(),
            0 <= i <= n,
            forall|a: int| 0 <= a < i ==> (#[trigger] fields@[a]).name@ != name@,
        decreases n - i,
    {
        if fields[i].name.eq(name) {
            proof {
                crate::schema::lemma_index_of_unique(fields@, name@, i as int);
            }
            return Some(i);
        }
        i = i + 1;
    }
    None
}

} // verus!
