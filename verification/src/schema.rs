//! Fields and schemas: a schema is an ordered set of uniquely-named typed
//! fields whose order defines display and output order.

use vstd::prelude::*;
use vstd::string::*;
use crate::dtype::DataType;
use crate::error::{DaftError, DaftResult};

verus! {

#[derive(Debug)]
pub struct Field {
    pub name: String,
    pub dtype: DataType,
}

impl Field {
    pub fn new(name: String, dtype: DataType) -> (r: Field)
        ensures
            r.name == name,
            r.dtype == dtype,
    {
        Field { name, dtype }
    }

    pub fn rename(&self, name: String) -> (r: Field)
        ensures
            r.name == name,
            r.dtype == self.dtype,
    {
        Field { name, dtype: self.dtype }
    }

    pub fn clone_field(&self) -> (r: Field)
        ensures
            r.name@ == self.name@,
            r.dtype == self.dtype,
    {
        Field { name: self.name.clone(), dtype: self.dtype }
    }
}

/// First position of `name` among `fields`, or `-1` when absent.
pub open spec fn spec_index_of(fields: Seq<Field>, name: Seq<char>) -> int
    decreases fields.len(),
{
    if fields.len() == 0 {
        -1
    } else if fields[0].name@ == name {
        0
    } else {
        let rest = spec_index_of(fields.drop_first(), name);
        if rest == -1 {
            -1
        } else {
            rest + 1
        }
    }
}

pub open spec fn contains_name(fields: Seq<Field>, name: Seq<char>) -> bool {
    exists|i: int| 0 <= i < fields.len() && (#[trigger] fields[i]).name@ == name
}

pub proof fn lemma_index_of_properties(fields: Seq<Field>, name: Seq<char>)
    ensures
        contains_name(fields, name) <==> spec_index_of(fields, name) >= 0,
        spec_index_of(fields, name) >= 0 ==> spec_index_of(fields, name) < fields.len()
            && fields[spec_index_of(fields, name)].name@ == name,
        spec_index_of(fields, name) >= 0 ==> forall|i: int|
            0 <= i < spec_index_of(fields, name) ==> (#[trigger] fields[i]).name@ != name,
        spec_index_of(fields, name) == -1 ==> forall|i: int|
            0 <= i < fields.len() ==> (#[trigger] fields[i]).name@ != name,
    decreases fields.len(),
{
    if fields.len() > 0 {
        lemma_index_of_properties(fields.drop_first(), name);
        assert forall|i: int| 1 <= i < fields.len() implies fields[i]
            == fields.drop_first()[i - 1] by {}
    }
}

/// Unique field names.
pub open spec fn names_unique(fields: Seq<Field>) -> bool {
    forall|i: int, j: int|
        0 <= i < j < fields.len() ==> (#[trigger] fields[i]).name@ != (#[trigger] fields[j]).name@
}

#[derive(Debug)]
pub struct Schema {
    pub fields: Vec<Field>,
}

impl Schema {
    pub open spec fn wf(self) -> bool {
        names_unique(self.fields@)
    }

    pub open spec fn spec_len(self) -> int {
        self.fields@.len() as int
    }

    /// Builds a schema, rejecting duplicate field names.
    pub fn new(fields: Vec<Field>) -> (r: DaftResult<Schema>)
        ensures
            names_unique(fields@) ==> (r matches Ok(s) && s.fields == fields),
            !names_unique(fields@) ==> (r matches Err(e) && e is ValueError),
    {
        let n = fields.len();
        let mut i: usize = 0;
        while i < n
            invariant
                n == fields@.len(),
                0 <= i <= n,
                forall|a: int, b: int|
                    0 <= a < b < fields@.len() && a < i ==> (#[trigger] fields@[a]).name@ != (
                    #[trigger] fields@[b]).name@,
            decreases n - i,
        {
            let mut j: usize = i + 1;
            while j < n
                invariant
                    n == fields@.len(),
                    0 <= i < j <= n,
                    forall|b: int| i < b < j ==> (#[trigger] fields@[b]).name@ != fields@[i as int].name@,
                decreases n - j,
            {
                if fields[j].name.eq(&fields[i].name) {
                    return Err(
                        DaftError::ValueError(String::from_str("duplicate field name in schema")),
                    );
                }
                j = j + 1;
            }
            i = i + 1;
        }
        Ok(Schema { fields })
    }

    pub fn len(&self) -> (r: usize)
        ensures
            r == self.spec_len(),
    {
        self.fields.len()
    }

    /// Position of a field by name.
    pub fn index_of(&self, name: &String) -> (r: Option<usize>)
        ensures
            contains_name(self.fields@, name@) ==> (r matches Some(i) && i == spec_index_of(
                self.fields@,
                name@,
            ) && i < self.fields@.len() && self.fields@[i as int].name@ == name@),
            !contains_name(self.fields@, name@) ==> r is None,
    {
        proof {
            lemma_index_of_properties(self.fields@, name@);
        }
        let n = self.fields.len();
        let mut i: usize = 0;
        while i < n
            invariant
                n == self.fields@.len(),
                0 <= i <= n,
                forall|a: int| 0 <= a < i ==> (#[trigger] self.fields@[a]).name@ != name@,
            decreases n - i,
        {
            if self.fields[i].name.eq(name) {
                proof {
                    assert(contains_name(self.fields@, name@));
                    assert forall|a: int|
                        0 <= a < i implies (#[trigger] self.fields@[a]).name@ != name@ by {}
                    assert(spec_index_of(self.fields@, name@) == i) by {
                        lemma_index_of_unique(self.fields@, name@, i as int);
                    }
                }
                return Some(i);
            }
            i = i + 1;
        }
        proof {
            assert(!contains_name(self.fields@, name@));
        }
        None
    }

    /// The field of the given name, or a value error naming the lookup that
    /// failed.
    pub fn get_field(&self, name: &String) -> (r: DaftResult<&Field>)
        ensures
            contains_name(self.fields@, name@) ==> (r matches Ok(f) && f == self.fields@[
                spec_index_of(self.fields@, name@)]),
            !contains_name(self.fields@, name@) ==> (r matches Err(e) && e is ValueError),
    {
        match self.index_of(name) {
            Some(i) => Ok(&self.fields[i]),
            None => Err(DaftError::ValueError(String::from_str("field not found in schema"))),
        }
    }

    /// A one-line rendering of the schema: each field as `name#type`,
    /// joined by commas.
    pub fn short_string(&self) -> (r: String)
        ensures
            r@ == spec_short_string(self.fields@),
    {
        let mut out = String::new();
        let n = self.fields.len();
        let mut i: usize = 0;
        while i < n
            invariant
                n == self.fields@.len(),
                0 <= i <= n,
                out@ == spec_short_string(self.fields@.take(i as int)),
            decreases n - i,
        {
            if i > 0 {
                out.append(", ");
            }
            out.append(self.fields[i].name.as_str());
            out.append("#");
            let dt = self.fields[i].dtype.display_string();
            out.append(dt.as_str());
            proof {
                assert(self.fields@.take(i + 1 as int).drop_last() =~= self.fields@.take(i as int));
                assert(self.fields@.take(i + 1 as int).last() == self.fields@[i as int]);
            }
            i = i + 1;
        }
        proof {
            assert(self.fields@.take(n as int) =~= self.fields@);
        }
        out
    }
}

/// The one-line rendering of a field list: `name#type` for each field,
/// joined by commas.
pub open spec fn spec_short_string(fields: Seq<Field>) -> Seq<char>
    decreases fields.len(),
{
    if fields.len() == 0 {
        Seq::empty()
    } else if fields.len() == 1 {
        fields[0].name@ + "#"@ + fields[0].dtype.spec_display()
    } else {
        spec_short_string(fields.drop_last()) + ", "@ + fields.last().name@ + "#"@
            + fields.last().dtype.spec_display()
    }
}

/// The position returned by a scan that found `name` at `i` with nothing
/// before it agrees with `spec_index_of`.
pub proof fn lemma_index_of_unique(fields: Seq<Field>, name: Seq<char>, i: int)
    requires
        0 <= i < fields.len(),
        fields[i].name@ == name,
        forall|a: int| 0 <= a < i ==> (#[trigger] fields[a]).name@ != name,
    ensures
        spec_index_of(fields, name) == i,
    decreases fields.len(),
{
    if i > 0 {
        lemma_index_of_unique(fields.drop_first(), name, i - 1);
        assert forall|a: int| 1 <= a < fields.len() implies fields[a]
            == fields.drop_first()[a - 1] by {}
    }
}

} // verus!
