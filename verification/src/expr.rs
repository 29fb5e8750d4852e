//! Expressions consumed by the window evaluator and the as-of join: column
//! references, typed literals, and windowed aggregate expressions, plus
//! the window specification itself.

use vstd::prelude::*;
use vstd::string::*;
use crate::dtype::DataType;
use crate::error::{DaftError, DaftResult};
use crate::schema::{Schema, contains_name, spec_index_of};
use crate::strfmt::{dec_string, int_to_string};

verus! {

/// A typed literal. Values are integers or day/instant counts; the
/// variants carry the storage widths the engine distinguishes.
#[derive(Clone, Copy, Debug, PartialEq, Eq, Structural)]
pub enum LiteralValue {
    Int32(i32),
    Int64(i64),
    UInt32(u32),
    UInt64(u64),
    Date(i32),
    Timestamp(i64),
    Duration(i64),
}

impl LiteralValue {
    pub open spec fn spec_value(self) -> int {
        match self {
            LiteralValue::Int32(v) => v as int,
            LiteralValue::Int64(v) => v as int,
            LiteralValue::UInt32(v) => v as int,
            LiteralValue::UInt64(v) => v as int,
            LiteralValue::Date(v) => v as int,
            LiteralValue::Timestamp(v) => v as int,
            LiteralValue::Duration(v) => v as int,
        }
    }

    pub open spec fn spec_dtype(self) -> DataType {
        match self {
            LiteralValue::Int32(_) => DataType::Int32,
            LiteralValue::Int64(_) => DataType::Int64,
            LiteralValue::UInt32(_) => DataType::UInt32,
            LiteralValue::UInt64(_) => DataType::UInt64,
            LiteralValue::Date(_) => DataType::Date,
            LiteralValue::Timestamp(_) => DataType::Timestamp,
            LiteralValue::Duration(_) => DataType::Duration,
        }
    }

    pub fn value(&self) -> (r: i128)
        ensures
            r as int == self.spec_value(),
    {
        match self {
            LiteralValue::Int32(v) => *v as i128,
            LiteralValue::Int64(v) => *v as i128,
            LiteralValue::UInt32(v) => *v as i128,
            LiteralValue::UInt64(v) => *v as i128,
            LiteralValue::Date(v) => *v as i128,
            LiteralValue::Timestamp(v) => *v as i128,
            LiteralValue::Duration(v) => *v as i128,
        }
    }

    pub fn dtype(&self) -> (r: DataType)
        ensures
            r == self.spec_dtype(),
    {
        match self {
            LiteralValue::Int32(_) => DataType::Int32,
            LiteralValue::Int64(_) => DataType::Int64,
            LiteralValue::UInt32(_) => DataType::UInt32,
            LiteralValue::UInt64(_) => DataType::UInt64,
            LiteralValue::Date(_) => DataType::Date,
            LiteralValue::Timestamp(_) => DataType::Timestamp,
            LiteralValue::Duration(_) => DataType::Duration,
        }
    }
}

/// A windowed aggregate expression over an inner expression.
#[derive(Debug)]
pub enum WindowExpr {
    Sum(Box<Expr>),
}

#[derive(Debug)]
pub enum Expr {
    Column(String),
    Literal(LiteralValue),
    WindowExpression(WindowExpr),
}

/// Name and type of an expression evaluated against a schema, when it has
/// them: a column takes its field, a literal is named `literal`, and a
/// windowed sum takes the inner field widened to the accumulation type.
pub open spec fn spec_to_field(e: Expr, fields: Seq<crate::schema::Field>) -> Option<
    (Seq<char>, DataType),
>
    decreases e,
{
    match e {
        Expr::Column(name) => if contains_name(fields, name@) {
            Some((name@, fields[spec_index_of(fields, name@)].dtype))
        } else {
            None
        },
        Expr::Literal(lv) => Some(("literal"@, lv.spec_dtype())),
        Expr::WindowExpression(WindowExpr::Sum(inner)) => match spec_to_field(*inner, fields) {
            Some((nm, dt)) => if dt.sum_supported() {
                Some((nm, dt.sum_accum_type()))
            } else {
                None
            },
            None => None,
        },
    }
}

/// The display rendering of an expression.
pub open spec fn spec_expr_display(e: Expr) -> Seq<char>
    decreases e,
{
    match e {
        Expr::Column(name) => "col("@ + name@ + ")"@,
        Expr::Literal(lv) => "lit("@ + dec_string(lv.spec_value()) + ")"@,
        Expr::WindowExpression(WindowExpr::Sum(inner)) => "sum("@ + spec_expr_display(*inner)
            + ")"@,
    }
}

/// The column name an expression resolves to, when it has one.
pub open spec fn spec_expr_name(e: Expr) -> Option<Seq<char>>
    decreases e,
{
    match e {
        Expr::Column(name) => Some(name@),
        Expr::Literal(_) => None,
        Expr::WindowExpression(WindowExpr::Sum(inner)) => spec_expr_name(*inner),
    }
}

impl Expr {
    /// Name and type of this expression against a schema; failure names
    /// the reason (an unknown column, or a sum over a type that has none).
    pub fn to_field(&self, schema: &Schema) -> (r: DaftResult<crate::schema::Field>)
        ensures
            spec_to_field(*self, schema.fields@) matches Some(nmdt) ==> (r matches Ok(f)
                && f.name@ == nmdt.0 && f.dtype == nmdt.1),
            spec_to_field(*self, schema.fields@) is None ==> r is Err,
        decreases *self,
    {
        match self {
            Expr::Column(name) => {
                proof {
                    crate::schema::lemma_index_of_properties(schema.fields@, name@);
                }
                match schema.get_field(name) {
                    Ok(f) => Ok(f.clone_field()),
                    Err(e) => Err(e),
                }
            },
            Expr::Literal(lv) => Ok(
                crate::schema::Field { name: String::from_str("literal"), dtype: lv.dtype() },
            ),
            Expr::WindowExpression(WindowExpr::Sum(inner)) => {
                let f = inner.to_field(schema)?;
                match f.dtype.try_sum_supertype() {
                    Some(accum) => Ok(crate::schema::Field { name: f.name, dtype: accum }),
                    None => {
                        let mut msg = String::from_str(
                            "Numeric sum is not implemented for type ",
                        );
                        let dt = f.dtype.display_string();
                        msg.append(dt.as_str());
                        Err(DaftError::TypeError(msg))
                    },
                }
            },
        }
    }

    /// The column name this expression resolves to; a bare literal has
    /// none.
    pub fn name(&self) -> (r: DaftResult<String>)
        ensures
            spec_expr_name(*self) matches Some(nm) ==> (r matches Ok(s) && s@ == nm),
            spec_expr_name(*self) is None ==> (r matches Err(e) && e is ValueError),
        decreases *self,
    {
        match self {
            Expr::Column(name) => Ok(name.clone()),
            Expr::Literal(_) => Err(
                DaftError::ValueError(String::from_str("literal expressions have no column name")),
            ),
            Expr::WindowExpression(WindowExpr::Sum(inner)) => inner.name(),
        }
    }

    /// The display rendering of this expression.
    pub fn to_display_string(&self) -> (r: String)
        ensures
            r@ == spec_expr_display(*self),
        decreases *self,
    {
        match self {
            Expr::Column(name) => {
                let mut out = String::from_str("col(");
                out.append(name.as_str());
                out.append(")");
                proof {
                    assert(out@ =~= spec_expr_display(*self));
                }
                out
            },
            Expr::Literal(lv) => {
                let mut out = String::from_str("lit(");
                let v = lv.value();
                let vs = int_to_string(v);
                out.append(vs.as_str());
                out.append(")");
                proof {
                    assert(out@ =~= spec_expr_display(*self));
                }
                out
            },
            Expr::WindowExpression(WindowExpr::Sum(inner)) => {
                let mut out = String::from_str("sum(");
                let is = inner.to_display_string();
                out.append(is.as_str());
                out.append(")");
                proof {
                    assert(out@ =~= spec_expr_display(*self));
                }
                out
            },
        }
    }
}

/// The frame of a window specification: row-count-bounded or
/// value-range-bounded, with optional bound expressions on either side
/// (absence means unbounded on that side).
#[derive(Debug)]
pub struct WindowFrame {
    pub is_range: bool,
    pub left_bound: Option<Expr>,
    pub right_bound: Option<Expr>,
}

/// A window specification: partition-by columns, order-by columns with
/// per-column descending flags, and an optional frame.
#[derive(Debug)]
pub struct WindowSpec {
    pub partition_by: Vec<Expr>,
    pub order_by: Vec<Expr>,
    pub descending: Vec<bool>,
    pub frame: Option<WindowFrame>,
}

impl WindowSpec {
    pub open spec fn spec_has_frame(self) -> bool {
        self.frame is Some
    }

    pub open spec fn spec_is_range(self) -> bool {
        self.frame matches Some(f) && f.is_range
    }

    pub fn has_frame(&self) -> (r: bool)
        ensures
            r == self.spec_has_frame(),
    {
        self.frame.is_some()
    }

    pub fn is_range(&self) -> (r: bool)
        ensures
            r == self.spec_is_range(),
    {
        match &self.frame {
            Some(f) => f.is_range,
            None => false,
        }
    }
}

/// Structural equality of expressions, over name views and literal
/// values.
pub open spec fn spec_expr_eq(a: Expr, b: Expr) -> bool
    decreases a,
{
    match (a, b) {
        (Expr::Column(n1), Expr::Column(n2)) => n1@ == n2@,
        (Expr::Literal(l1), Expr::Literal(l2)) => l1 == l2,
        (
            Expr::WindowExpression(WindowExpr::Sum(i1)),
            Expr::WindowExpression(WindowExpr::Sum(i2)),
        ) => spec_expr_eq(*i1, *i2),
        _ => false,
    }
}

pub open spec fn spec_exprs_equal(a: Seq<Expr>, b: Seq<Expr>) -> bool {
    a.len() == b.len() && forall|i: int| 0 <= i < a.len() ==> spec_expr_eq(#[trigger] a[i], b[i])
}

impl Expr {
    /// Structural comparison of two expressions.
    pub fn expr_eq(&self, other: &Expr) -> (r: bool)
        ensures
            r == spec_expr_eq(*self, *other),
        decreases *self,
    {
        match (self, other) {
            (Expr::Column(n1), Expr::Column(n2)) => n1.eq(n2),
            (Expr::Literal(l1), Expr::Literal(l2)) => l1 == l2,
            (
                Expr::WindowExpression(WindowExpr::Sum(i1)),
                Expr::WindowExpression(WindowExpr::Sum(i2)),
            ) => i1.expr_eq(i2),
            _ => false,
        }
    }
}

/// Structural comparison of two expression lists.
pub fn exprs_equal(a: &Vec<Expr>, b: &Vec<Expr>) -> (r: bool)
    ensures
        r == spec_exprs_equal(a@, b@),
{
    if a.len() != b.len() {
        return false;
    }
    let n = a.len();
    let mut i: usize = 0;
    while i < n
        invariant
            n == a@.len(),
            n == b@.len(),
            0 <= i <= n,
            forall|j: int| 0 <= j < i ==> spec_expr_eq(#[trigger] a@[j], b@[j]),
        decreases n - i,
    {
        if !a[i].expr_eq(&b[i]) {
            return false;
        }
        i = i + 1;
    }
    true
}

/// The display renderings of an expression list.
pub fn display_list(exprs: &Vec<Expr>) -> (r: Vec<String>)
    ensures
        crate::names::views_of(r@) == exprs@.map(|_i: int, e: Expr| spec_expr_display(e)),
{
    let mut out: Vec<String> = Vec::new();
    let n = exprs.len();
    let mut i: usize = 0;
    while i < n
        invariant
            n == exprs@.len(),
            0 <= i <= n,
            out@.len() == i,
            forall|a: int|
                0 <= a < i ==> (#[trigger] out@[a])@ == spec_expr_display(exprs@[a]),
        decreases n - i,
    {
        out.push(exprs[i].to_display_string());
        i = i + 1;
    }
    proof {
        assert(crate::names::views_of(out@) =~= exprs@.map(
            |_i: int, e: Expr| spec_expr_display(e),
        ));
    }
    out
}

/// The comma-joined display rendering of an expression list.
pub open spec fn spec_joined_display(exprs: Seq<Expr>) -> Seq<char> {
    crate::strjoin::join_with(exprs.map(|_i: int, e: Expr| spec_expr_display(e)), ", "@)
}

/// Joins the display renderings of an expression list with commas.
pub fn joined_display(exprs: &Vec<Expr>) -> (r: String)
    ensures
        r@ == spec_joined_display(exprs@),
{
    let items = display_list(exprs);
    crate::strjoin::join_strings(&items, ", ")
}

} // verus!
