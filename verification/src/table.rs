//! Tables: an ordered set of uniquely-named, equal-length series together
//! with the schema describing them, plus expression evaluation against a
//! table.

use vstd::prelude::*;
use vstd::string::*;
use crate::dtype::DataType;
use crate::error::{DaftError, DaftResult};
use crate::expr::{Expr, LiteralValue, WindowExpr};
use crate::schema::{Field, Schema, contains_name, spec_index_of, names_unique,
    lemma_index_of_properties};
use crate::series::{Series, copy_cells};
use crate::sum::group_in_bounds;

verus! {

impl Field {
    /// A fresh copy equal to this field.
    pub fn duplicate(&self) -> (r: Field)
        ensures
            r == *self,
    {
        Field { name: self.name.clone(), dtype: self.dtype }
    }
}

impl Schema {
    /// A fresh copy of this schema.
    pub fn duplicate(&self) -> (r: Schema)
        ensures
            r.fields@ == self.fields@,
    {
        let mut fields: Vec<Field> = Vec::new();
        let n = self.fields.len();
        let mut i: usize = 0;
        while i < n
            invariant
                n == self.fields@.len(),
                0 <= i <= n,
                fields@ == self.fields@.take(i as int),
            decreases n - i,
        {
            fields.push(self.fields[i].duplicate());
            proof {
                assert(fields@ =~= self.fields@.take(i + 1 as int));
            }
            i = i + 1;
        }
        proof {
            assert(self.fields@.take(n as int) =~= self.fields@);
        }
        Schema { fields }
    }
}

impl Series {
    /// A fresh copy of this series.
    pub fn duplicate(&self) -> (r: Series)
        ensures
            r.name@ == self.name@,
            r.dtype == self.dtype,
            r.values@ == self.values@,
    {
        let r = Series {
            name: self.name.clone(),
            dtype: self.dtype,
            values: copy_cells(&self.values),
        };
        proof {
            assert(r.values@ =~= self.values@);
        }
        r
    }
}

#[derive(Debug)]
pub struct Table {
    pub schema: Schema,
    pub columns: Vec<Series>,
}

/// Columns agree with a schema: one column per field, same name and type
/// in order, and all columns of one shared length.
pub open spec fn columns_match(schema: Schema, columns: Seq<Series>) -> bool {
    &&& columns.len() == schema.fields@.len()
    &&& forall|i: int|
        0 <= i < columns.len() ==> (#[trigger] columns[i]).name@ == schema.fields@[i].name@
            && columns[i].dtype == schema.fields@[i].dtype
    &&& forall|i: int|
        0 <= i < columns.len() ==> (#[trigger] columns[i]).spec_len() == columns[0].spec_len()
}

impl Table {
    pub open spec fn wf(self) -> bool {
        &&& self.schema.wf()
        &&& columns_match(self.schema, self.columns@)
    }

    pub open spec fn spec_num_rows(self) -> int {
        if self.columns@.len() == 0 {
            0
        } else {
            self.columns@[0].spec_len()
        }
    }

    /// Builds a table from a schema and matching columns; a mismatch of
    /// arity, order, names, types or lengths is rejected.
    pub fn new(schema: Schema, columns: Vec<Series>) -> (r: DaftResult<Table>)
        requires
            schema.wf(),
        ensures
            columns_match(schema, columns@) ==> (r matches Ok(t) && t.schema == schema && t.columns
                == columns && t.wf()),
            !columns_match(schema, columns@) ==> (r matches Err(e) && e is SchemaMismatch),
    {
        if columns.len() != schema.fields.len() {
            return Err(
                DaftError::SchemaMismatch(String::from_str("column count does not match schema")),
            );
        }
        let n = columns.len();
        let mut i: usize = 0;
        while i < n
            invariant
                n == columns@.len(),
                n == schema.fields@.len(),
                0 <= i <= n,
                forall|a: int|
                    0 <= a < i ==> (#[trigger] columns@[a]).name@ == schema.fields@[a].name@
                        && columns@[a].dtype == schema.fields@[a].dtype && columns@[a].spec_len()
                        == columns@[0].spec_len(),
            decreases n - i,
        {
            if !columns[i].name.eq(&schema.fields[i].name) {
                return Err(
                    DaftError::SchemaMismatch(
                        String::from_str("column name does not match schema"),
                    ),
                );
            }
            if columns[i].data_type() != schema.fields[i].dtype {
                return Err(
                    DaftError::SchemaMismatch(
                        String::from_str("column type does not match schema"),
                    ),
                );
            }
            if columns[i].len() != columns[0].len() {
                return Err(
                    DaftError::SchemaMismatch(String::from_str("columns differ in length")),
                );
            }
            i = i + 1;
        }
        Ok(Table { schema, columns })
    }

    /// Builds a table from columns alone, deriving the schema from their
    /// names and types; duplicate names or ragged lengths are rejected.
    pub fn from_columns(columns: Vec<Series>) -> (r: DaftResult<Table>)
        ensures
            r matches Ok(t) ==> t.wf() && t.columns == columns,
            names_unique_series(columns@) && equal_lengths(columns@) ==> r is Ok,
            equal_lengths(columns@) && !names_unique_series(columns@) ==> (r matches Err(e) && e
                is ValueError),
    {
        let n = columns.len();
        let mut fields: Vec<Field> = Vec::new();
        let mut i: usize = 0;
        while i < n
            invariant
                n == columns@.len(),
                0 <= i <= n,
                fields@.len() == i,
                forall|a: int|
                    0 <= a < i ==> (#[trigger] fields@[a]).name@ == columns@[a].name@
                        && fields@[a].dtype == columns@[a].dtype,
            decreases n - i,
        {
            fields.push(Field { name: columns[i].name.clone(), dtype: columns[i].data_type() });
            i = i + 1;
        }
        let schema = match Schema::new(fields) {
            Ok(s) => s,
            Err(e) => {
                proof {
                    assert(!names_unique_series(columns@));
                }
                return Err(e);
            },
        };
        proof {
            assert forall|a: int, b: int|
                0 <= a < b < columns@.len() implies (#[trigger] columns@[a]).name@ != (
            #[trigger] columns@[b]).name@ by {
                assert(schema.fields@[a].name@ == columns@[a].name@);
                assert(schema.fields@[b].name@ == columns@[b].name@);
            }
            assert(names_unique_series(columns@));
        }
        Table::new(schema, columns)
    }

    pub fn num_rows(&self) -> (r: usize)
        requires
            self.wf(),
        ensures
            r == self.spec_num_rows(),
    {
        if self.columns.len() == 0 {
            0
        } else {
            self.columns[0].len()
        }
    }

    pub fn len(&self) -> (r: usize)
        requires
            self.wf(),
        ensures
            r == self.spec_num_rows(),
    {
        self.num_rows()
    }

    pub fn is_empty(&self) -> (r: bool)
        requires
            self.wf(),
        ensures
            r == (self.spec_num_rows() == 0),
    {
        self.num_rows() == 0
    }

    /// An empty table over the given schema.
    pub fn empty(schema: Schema) -> (r: Table)
        requires
            schema.wf(),
        ensures
            r.wf(),
            r.schema == schema,
            r.spec_num_rows() == 0,
    {
        let mut columns: Vec<Series> = Vec::new();
        let n = schema.fields.len();
        let mut i: usize = 0;
        while i < n
            invariant
                n == schema.fields@.len(),
                0 <= i <= n,
                columns@.len() == i,
                forall|a: int|
                    0 <= a < i ==> (#[trigger] columns@[a]).name@ == schema.fields@[a].name@
                        && columns@[a].dtype == schema.fields@[a].dtype && columns@[a].spec_len()
                        == 0,
            decreases n - i,
        {
            columns.push(
                Series {
                    name: schema.fields[i].name.clone(),
                    dtype: schema.fields[i].dtype,
                    values: Vec::new(),
                },
            );
            i = i + 1;
        }
        Table { schema, columns }
    }

    pub fn column_names(&self) -> (r: Vec<String>)
        ensures
            r@.len() == self.schema.fields@.len(),
            forall|i: int|
                0 <= i < r@.len() ==> (#[trigger] r@[i])@ == self.schema.fields@[i].name@,
    {
        let mut out: Vec<String> = Vec::new();
        let n = self.schema.fields.len();
        let mut i: usize = 0;
        while i < n
            invariant
                n == self.schema.fields@.len(),
                0 <= i <= n,
                out@.len() == i,
                forall|a: int|
                    0 <= a < i ==> (#[trigger] out@[a])@ == self.schema.fields@[a].name@,
            decreases n - i,
        {
            out.push(self.schema.fields[i].name.clone());
            i = i + 1;
        }
        out
    }

    /// The column of the given name.
    pub fn get_column(&self, name: &String) -> (r: DaftResult<&Series>)
        requires
            self.wf(),
        ensures
            contains_name(self.schema.fields@, name@) ==> (r matches Ok(s) && s == self.columns@[
                spec_index_of(self.schema.fields@, name@)]),
            !contains_name(self.schema.fields@, name@) ==> (r matches Err(e) && e is ValueError),
    {
        match self.schema.index_of(name) {
            Some(i) => Ok(&self.columns[i]),
            None => Err(DaftError::ValueError(String::from_str("column not found in table"))),
        }
    }

    /// Gather rows by position across all columns.
    pub fn take(&self, indices: &Vec<usize>) -> (r: Table)
        requires
            self.wf(),
            group_in_bounds(indices@, self.spec_num_rows()),
        ensures
            r.wf(),
            r.schema.fields@ == self.schema.fields@,
            r.columns@.len() == self.columns@.len(),
            forall|c: int|
                0 <= c < r.columns@.len() ==> (#[trigger] r.columns@[c]).values@ == indices@.map(
                    |_k: int, row: usize| self.columns@[c].values@[row as int],
                ) && r.columns@[c].name@ == self.columns@[c].name@ && r.columns@[c].dtype
                    == self.columns@[c].dtype,
            self.columns@.len() > 0 ==> r.spec_num_rows() == indices@.len(),
    {
        let mut columns: Vec<Series> = Vec::new();
        let n = self.columns.len();
        let mut c: usize = 0;
        while c < n
            invariant
                self.wf(),
                group_in_bounds(indices@, self.spec_num_rows()),
                n == self.columns@.len(),
                0 <= c <= n,
                columns@.len() == c,
                forall|a: int|
                    0 <= a < c ==> (#[trigger] columns@[a]).values@ == indices@.map(
                        |_k: int, row: usize| self.columns@[a].values@[row as int],
                    ) && columns@[a].name@ == self.columns@[a].name@ && columns@[a].dtype
                        == self.columns@[a].dtype,
            decreases n - c,
        {
            columns.push(self.columns[c].take(indices));
            c = c + 1;
        }
        let r = Table { schema: self.schema.duplicate(), columns };
        proof {
            assert forall|i: int| 0 <= i < r.columns@.len() implies (#[trigger] r.columns@[i]).spec_len()
                == r.columns@[0].spec_len() by {}
        }
        r
    }
}

impl Table {
    /// A fresh copy of this table.
    pub fn duplicate(&self) -> (r: Table)
        ensures
            r.schema.fields@ == self.schema.fields@,
            r.columns@.len() == self.columns@.len(),
            forall|c: int|
                0 <= c < r.columns@.len() ==> (#[trigger] r.columns@[c]).name@
                    == self.columns@[c].name@ && r.columns@[c].dtype == self.columns@[c].dtype
                    && r.columns@[c].values@ == self.columns@[c].values@,
    {
        let mut columns: Vec<Series> = Vec::new();
        let n = self.columns.len();
        let mut c: usize = 0;
        while c < n
            invariant
                n == self.columns@.len(),
                0 <= c <= n,
                columns@.len() == c,
                forall|a: int|
                    0 <= a < c ==> (#[trigger] columns@[a]).name@ == self.columns@[a].name@
                        && columns@[a].dtype == self.columns@[a].dtype && columns@[a].values@
                        == self.columns@[a].values@,
            decreases n - c,
        {
            columns.push(self.columns[c].duplicate());
            c = c + 1;
        }
        Table { schema: self.schema.duplicate(), columns }
    }
}

/// Unique names across a list of series.
pub open spec fn names_unique_series(columns: Seq<Series>) -> bool {
    forall|i: int, j: int|
        0 <= i < j < columns.len() ==> (#[trigger] columns[i]).name@ != (
        #[trigger] columns[j]).name@
}

/// All series share one length.
pub open spec fn equal_lengths(columns: Seq<Series>) -> bool {
    forall|i: int|
        0 <= i < columns.len() ==> (#[trigger] columns[i]).spec_len() == columns[0].spec_len()
}

/// Whether evaluating an expression against a table succeeds: a column
/// must exist in the schema, a literal always evaluates, and a window
/// expression cannot be evaluated directly.
pub open spec fn spec_eval_ok(t: Table, e: Expr) -> bool {
    match e {
        Expr::Column(name) => contains_name(t.schema.fields@, name@),
        Expr::Literal(_) => true,
        Expr::WindowExpression(_) => false,
    }
}

/// The cells an expression evaluates to: a column's cells, or a literal
/// broadcast to the table's row count.
pub open spec fn spec_eval_cells(t: Table, e: Expr) -> Seq<Option<i128>> {
    match e {
        Expr::Column(name) => t.columns@[spec_index_of(t.schema.fields@, name@)].values@,
        Expr::Literal(lv) => Seq::new(
            t.spec_num_rows() as nat,
            |_i: int| Some(lv.spec_value() as i128),
        ),
        Expr::WindowExpression(_) => Seq::empty(),
    }
}

/// The output name of an evaluated expression.
pub open spec fn spec_eval_name(t: Table, e: Expr) -> Seq<char> {
    match e {
        Expr::Column(name) => name@,
        Expr::Literal(_) => "literal"@,
        Expr::WindowExpression(_) => Seq::empty(),
    }
}

pub open spec fn spec_eval_dtype(t: Table, e: Expr) -> DataType {
    match e {
        Expr::Column(name) => t.schema.fields@[spec_index_of(t.schema.fields@, name@)].dtype,
        Expr::Literal(lv) => lv.spec_dtype(),
        Expr::WindowExpression(_) => DataType::Null,
    }
}

impl Table {
    /// Evaluates a column reference or literal against this table.
    pub fn eval_expression(&self, e: &Expr) -> (r: DaftResult<Series>)
        requires
            self.wf(),
        ensures
            spec_eval_ok(*self, *e) ==> (r matches Ok(s) && s.dtype == spec_eval_dtype(*self, *e)
                && s.name@ == spec_eval_name(*self, *e) && s.values@ == spec_eval_cells(*self, *e)
                && s.spec_len() == self.spec_num_rows()),
            !spec_eval_ok(*self, *e) ==> (r matches Err(err) && err is ValueError),
    {
        match e {
            Expr::Column(name) => {
                proof {
                    lemma_index_of_properties(self.schema.fields@, name@);
                }
                match self.get_column(name) {
                    Ok(s) => Ok(s.duplicate()),
                    Err(err) => Err(err),
                }
            },
            Expr::Literal(lv) => {
                let nrows = self.num_rows();
                let v = lv.value();
                let mut vals: Vec<Option<i128>> = Vec::new();
                let mut i: usize = 0;
                while i < nrows
                    invariant
                        0 <= i <= nrows,
                        vals@.len() == i,
                        forall|a: int| 0 <= a < i ==> vals@[a] == Some(v),
                    decreases nrows - i,
                {
                    vals.push(Some(v));
                    i = i + 1;
                }
                let s = Series { name: String::from_str("literal"), dtype: lv.dtype(), values: vals };
                proof {
                    assert(s.values@ =~= spec_eval_cells(*self, *e));
                }
                Ok(s)
            },
            Expr::WindowExpression(_) => Err(
                DaftError::ValueError(
                    String::from_str("window expressions cannot be evaluated directly"),
                ),
            ),
        }
    }

    /// Evaluates a list of expressions into a fresh table (used for the
    /// partition-key and join-key columns).
    pub fn eval_expression_list(&self, exprs: &Vec<Expr>) -> (r: DaftResult<Table>)
        requires
            self.wf(),
        ensures
            r matches Ok(t) ==> t.wf() && t.columns@.len() == exprs@.len() && (forall|i: int|
                0 <= i < exprs@.len() ==> spec_eval_ok(*self, exprs@[i]) && (
                #[trigger] t.columns@[i]).values@ == spec_eval_cells(*self, exprs@[i])
                    && t.columns@[i].dtype == spec_eval_dtype(*self, exprs@[i])
                    && t.columns@[i].name@ == spec_eval_name(*self, exprs@[i])) && (exprs@.len()
                > 0 ==> t.spec_num_rows() == self.spec_num_rows()),
            (forall|i: int| 0 <= i < exprs@.len() ==> spec_eval_ok(*self, #[trigger] exprs@[i]))
                && (forall|i: int, j: int|
                0 <= i < j < exprs@.len() ==> spec_eval_name(*self, #[trigger] exprs@[i])
                    != spec_eval_name(*self, #[trigger] exprs@[j])) ==> r is Ok,
            r matches Err(e) ==> e is ValueError,
    {
        let n = exprs.len();
        let mut columns: Vec<Series> = Vec::new();
        let mut i: usize = 0;
        while i < n
            invariant
                self.wf(),
                n == exprs@.len(),
                0 <= i <= n,
                columns@.len() == i,
                forall|a: int|
                    0 <= a < i ==> spec_eval_ok(*self, exprs@[a]) && (
                    #[trigger] columns@[a]).values@ == spec_eval_cells(*self, exprs@[a])
                        && columns@[a].dtype == spec_eval_dtype(*self, exprs@[a])
                        && columns@[a].name@ == spec_eval_name(*self, exprs@[a])
                        && columns@[a].spec_len() == self.spec_num_rows(),
            decreases n - i,
        {
            let s = match self.eval_expression(&exprs[i]) {
                Ok(s) => s,
                Err(e) => {
                    proof {
                        assert(!spec_eval_ok(*self, exprs@[i as int]));
                    }
                    return Err(e);
                },
            };
            columns.push(s);
            i = i + 1;
        }
        proof {
            assert forall|a: int|
                0 <= a < columns@.len() implies (#[trigger] columns@[a]).spec_len()
                == columns@[0].spec_len() by {
                assert(columns@[a].spec_len() == self.spec_num_rows());
                assert(columns@[0].spec_len() == self.spec_num_rows());
            }
            assert(equal_lengths(columns@));
            if (forall|a: int| 0 <= a < exprs@.len() ==> spec_eval_ok(*self, #[trigger] exprs@[a]))
                && (forall|a: int, b: int|
                0 <= a < b < exprs@.len() ==> spec_eval_name(*self, #[trigger] exprs@[a])
                    != spec_eval_name(*self, #[trigger] exprs@[b])) {
                assert forall|a: int, b: int|
                    0 <= a < b < columns@.len() implies (#[trigger] columns@[a]).name@ != (
                #[trigger] columns@[b]).name@ by {
                    assert(spec_eval_ok(*self, exprs@[a]));
                    assert(spec_eval_ok(*self, exprs@[b]));
                    assert(spec_eval_name(*self, exprs@[a]) != spec_eval_name(*self, exprs@[b]));
                }
                assert(names_unique_series(columns@));
                assert forall|a: int|
                    0 <= a < columns@.len() implies (#[trigger] columns@[a]).spec_len()
                    == columns@[0].spec_len() by {
                    assert(spec_eval_ok(*self, exprs@[a]));
                    assert(spec_eval_ok(*self, exprs@[0]));
                }
                assert(equal_lengths(columns@));
            }
        }
        Table::from_columns(columns)
    }
}

} // verus!
