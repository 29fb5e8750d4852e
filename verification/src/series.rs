//! A series: a named, typed, nullable sequence of scalar values. Cells are
//! carried as wide optional integers so that every supported storage width
//! shares one representation; `None` is the SQL null.

use vstd::prelude::*;
use crate::dtype::DataType;
use crate::sum::{all_fit_storage, group_in_bounds};

verus! {

/// An ordered collection of row groups: each group is an ordered sequence
/// of row positions into a table or series.
pub type GroupIndices = Vec<Vec<usize>>;

/// A fresh copy of a cell vector.
pub fn copy_cells(values: &Vec<Option<i128>>) -> (r: Vec<Option<i128>>)
    ensures
        r@ == values@,
{
    let mut out: Vec<Option<i128>> = Vec::new();
    let n = values.len();
    let mut k: usize = 0;
    while k < n
        invariant
            n == values@.len(),
            0 <= k <= n,
            out@ == values@.take(k as int),
        decreases n - k,
    {
        out.push(values[k]);
        proof {
            assert(out@ =~= values@.take(k + 1 as int));
        }
        k = k + 1;
    }
    proof {
        assert(values@.take(n as int) =~= values@);
    }
    out
}

#[derive(Debug)]
pub struct Series {
    pub name: String,
    pub dtype: DataType,
    pub values: Vec<Option<i128>>,
}

impl Series {
    pub open spec fn spec_len(self) -> int {
        self.values@.len() as int
    }

    /// Every non-null cell fits the 64-bit storage range; required by the
    /// sum kernels so that 128-bit accumulation cannot overflow.
    pub open spec fn fits_storage(self) -> bool {
        all_fit_storage(self.values@)
    }

    pub fn new(name: String, dtype: DataType, values: Vec<Option<i128>>) -> (r: Series)
        ensures
            r.name == name,
            r.dtype == dtype,
            r.values == values,
    {
        Series { name, dtype, values }
    }

    pub fn len(&self) -> (r: usize)
        ensures
            r == self.spec_len(),
    {
        self.values.len()
    }

    pub fn data_type(&self) -> (r: DataType)
        ensures
            r == self.dtype,
    {
        self.dtype
    }

    pub fn rename(&self, name: String) -> (r: Series)
        ensures
            r.name == name,
            r.dtype == self.dtype,
            r.values@ == self.values@,
    {
        Series { name, dtype: self.dtype, values: copy_cells(&self.values) }
    }

    /// The same cells under another type tag; used by the sum dispatch to
    /// widen a storage type to its accumulation type.
    pub fn with_dtype(&self, dtype: DataType) -> (r: Series)
        ensures
            r.name@ == self.name@,
            r.dtype == dtype,
            r.values@ == self.values@,
    {
        Series { name: self.name.clone(), dtype, values: copy_cells(&self.values) }
    }

    /// Gather rows by position: row `k` of the result is row `indices[k]`
    /// of `self`.
    pub fn take(&self, indices: &Vec<usize>) -> (r: Series)
        requires
            group_in_bounds(indices@, self.spec_len()),
        ensures
            r.name@ == self.name@,
            r.dtype == self.dtype,
            r.values@ == indices@.map(|_k: int, i: usize| self.values@[i as int]),
    {
        let mut vals: Vec<Option<i128>> = Vec::new();
        let n = indices.len();
        let mut k: usize = 0;
        while k < n
            invariant
                group_in_bounds(indices@, self.spec_len()),
                n == indices@.len(),
                0 <= k <= n,
                vals@ == indices@.take(k as int).map(|_k: int, i: usize| self.values@[i as int]),
            decreases n - k,
        {
            vals.push(self.values[indices[k]]);
            proof {
                assert(indices@.take(k + 1 as int) =~= indices@.take(k as int).push(
                    indices@[k as int],
                ));
                assert(vals@ =~= indices@.take(k + 1 as int).map(
                    |_k: int, i: usize| self.values@[i as int],
                ));
            }
            k = k + 1;
        }
        proof {
            assert(indices@.take(n as int) =~= indices@);
        }
        Series { name: self.name.clone(), dtype: self.dtype, values: vals }
    }
}

} // verus!
