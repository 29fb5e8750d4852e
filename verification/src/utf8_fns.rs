//! Field inference for the string function expressions of the surrounding
//! expression language. Only the type-level halves live here: evaluating
//! these functions runs a regex or trim kernel over string data, which
//! this layer's plain-value column model does not carry.

use vstd::prelude::*;
use vstd::string::*;
use crate::dtype::DataType;
use crate::error::{DaftError, DaftResult};
use crate::expr::{Expr, spec_to_field};
use crate::schema::{Field, Schema};

verus! {

/// A string function expression: extract-all with a capture-group index,
/// or left-strip.
#[derive(Clone, Copy, Debug)]
pub enum Utf8Expr {
    ExtractAll(usize),
    Lstrip,
}

/// A function expression of the expression language.
#[derive(Clone, Copy, Debug)]
pub enum FunctionExpr {
    Utf8(Utf8Expr),
}

pub struct ExtractAllEvaluator {}

impl ExtractAllEvaluator {
    pub fn fn_name(&self) -> (r: &'static str)
        ensures
            r@ == "extractall"@,
    {
        "extractall"
    }

    /// The output field of extract-all: the data column's name with a
    /// list type, provided both the data and the pattern are strings.
    pub fn to_field(&self, inputs: &Vec<Expr>, schema: &Schema, _e: &FunctionExpr) -> (r:
        DaftResult<Field>)
        ensures
            inputs@.len() != 2 ==> (r matches Err(e) && e is SchemaMismatch),
            inputs@.len() == 2 ==> ({
                let df = spec_to_field(inputs@[0], schema.fields@);
                let pf = spec_to_field(inputs@[1], schema.fields@);
                &&& (df is Some && pf is Some && df->Some_0.1 == DataType::Utf8 && pf->Some_0.1
                    == DataType::Utf8 ==> (r matches Ok(f) && f.name@ == df->Some_0.0 && f.dtype
                    == DataType::List))
                &&& (df is Some && pf is Some && !(df->Some_0.1 == DataType::Utf8 && pf->Some_0.1
                    == DataType::Utf8) ==> (r matches Err(e) && e is TypeError))
                &&& (df is None || pf is None ==> r is Err)
            }),
    {
        if inputs.len() != 2 {
            return Err(DaftError::SchemaMismatch(String::from_str("Expected 2 input args")));
        }
        let data_field = inputs[0].to_field(schema)?;
        let pattern_field = inputs[1].to_field(schema)?;
        match (data_field.dtype, pattern_field.dtype) {
            (DataType::Utf8, DataType::Utf8) => Ok(
                Field { name: data_field.name, dtype: DataType::List },
            ),
            _ => Err(
                DaftError::TypeError(
                    String::from_str("Expects inputs to extractAll to be utf8"),
                ),
            ),
        }
    }
}

pub struct LstripEvaluator {}

impl LstripEvaluator {
    pub fn fn_name(&self) -> (r: &'static str)
        ensures
            r@ == "lstrip"@,
    {
        "lstrip"
    }

    /// The output field of left-strip: the data column's own field,
    /// provided it is a string.
    pub fn to_field(&self, inputs: &Vec<Expr>, schema: &Schema, _e: &FunctionExpr) -> (r:
        DaftResult<Field>)
        ensures
            inputs@.len() != 1 ==> (r matches Err(e) && e is SchemaMismatch),
            inputs@.len() == 1 ==> ({
                let df = spec_to_field(inputs@[0], schema.fields@);
                &&& (df is Some && df->Some_0.1 == DataType::Utf8 ==> (r matches Ok(f) && f.name@
                    == df->Some_0.0 && f.dtype == DataType::Utf8))
                &&& (df is Some && df->Some_0.1 != DataType::Utf8 ==> (r matches Err(e) && e
                    is TypeError))
                &&& (df is None ==> r is Err)
            }),
    {
        if inputs.len() != 1 {
            return Err(DaftError::SchemaMismatch(String::from_str("Expected 1 input args")));
        }
        let data_field = inputs[0].to_field(schema)?;
        match data_field.dtype {
            DataType::Utf8 => Ok(Field { name: data_field.name, dtype: DataType::Utf8 }),
            _ => Err(
                DaftError::TypeError(String::from_str("Expects input to lstrip to be utf8")),
            ),
        }
    }
}

} // verus!
