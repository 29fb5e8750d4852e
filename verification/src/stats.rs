//! Column-level summary statistics and the three-valued truth they give
//! to predicates: coarse feasibility pruning can rule a predicate out
//! without scanning either side.

use vstd::prelude::*;
use crate::expr::Expr;
use crate::schema::{Schema, contains_name, spec_index_of};

verus! {

/// Truth of a predicate judged from summaries alone.
#[derive(Clone, Copy, Debug, PartialEq, Eq, Structural)]
pub enum TruthValue {
    False,
    Maybe,
    True,
}

/// Value range of one column; an absent bound is unknown.
#[derive(Clone, Copy, Debug)]
pub struct ColumnStats {
    pub lower: Option<i128>,
    pub upper: Option<i128>,
}

/// The ranges are provably disjoint: no value of one column can equal a
/// value of the other.
pub open spec fn spec_ranges_disjoint(a: ColumnStats, b: ColumnStats) -> bool {
    ||| (a.upper matches Some(au) && b.lower matches Some(bl) && au < bl)
    ||| (b.upper matches Some(bu) && a.lower matches Some(al) && bu < al)
}

impl ColumnStats {
    /// Truth of "some value of this column equals some value of the
    /// other": false only when the ranges are provably disjoint.
    pub fn equal_truth(&self, other: &ColumnStats) -> (r: TruthValue)
        ensures
            r == (if spec_ranges_disjoint(*self, *other) {
                TruthValue::False
            } else {
                TruthValue::Maybe
            }),
    {
        let disjoint = match (self.upper, other.lower) {
            (Some(au), Some(bl)) => au < bl,
            _ => false,
        } || match (other.upper, self.lower) {
            (Some(bu), Some(al)) => bu < al,
            _ => false,
        };
        if disjoint {
            TruthValue::False
        } else {
            TruthValue::Maybe
        }
    }
}

/// Summary statistics of a table: one range per schema column.
#[derive(Debug)]
pub struct TableStats {
    pub columns: Vec<ColumnStats>,
}

/// The range the statistics give to an expression: a column's recorded
/// range, and an unknown range for anything else.
pub open spec fn spec_expr_stats(st: TableStats, schema: Schema, e: Expr) -> ColumnStats {
    match e {
        Expr::Column(name) => if contains_name(schema.fields@, name@) && 0 <= spec_index_of(
            schema.fields@,
            name@,
        ) < st.columns@.len() {
            st.columns@[spec_index_of(schema.fields@, name@)]
        } else {
            ColumnStats { lower: None, upper: None }
        },
        _ => ColumnStats { lower: None, upper: None },
    }
}

impl TableStats {
    /// The recorded range of an expression against a schema.
    pub fn expr_stats(&self, schema: &Schema, e: &Expr) -> (r: ColumnStats)
        ensures
            r == spec_expr_stats(*self, *schema, *e),
    {
        match e {
            Expr::Column(name) => match schema.index_of(name) {
                Some(i) => {
                    if i < self.columns.len() {
                        self.columns[i]
                    } else {
                        ColumnStats { lower: None, upper: None }
                    }
                },
                None => ColumnStats { lower: None, upper: None },
            },
            _ => ColumnStats { lower: None, upper: None },
        }
    }
}

} // verus!
