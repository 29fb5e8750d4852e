//! Logical column types and the widening rules used by the aggregation
//! kernels.

use vstd::prelude::*;
use vstd::string::*;

verus! {

/// Logical type of a column. Cell contents are carried as wide integers
/// (`i128`), so a type here is a tag describing how those cells are to be
/// interpreted.
#[derive(Clone, Copy, Debug, PartialEq, Eq, Structural, Hash)]
pub enum DataType {
    Null,
    Boolean,
    Int8,
    Int16,
    Int32,
    Int64,
    UInt8,
    UInt16,
    UInt32,
    UInt64,
    Decimal128,
    Date,
    Timestamp,
    Duration,
    Utf8,
    List,
}

impl DataType {
    /// Signed integer widths, all of which widen to `Int64` for sums.
    pub open spec fn is_signed_integer(self) -> bool {
        self == DataType::Int8 || self == DataType::Int16 || self == DataType::Int32
            || self == DataType::Int64
    }

    /// Unsigned integer widths, all of which widen to `UInt64` for sums.
    pub open spec fn is_unsigned_integer(self) -> bool {
        self == DataType::UInt8 || self == DataType::UInt16 || self == DataType::UInt32
            || self == DataType::UInt64
    }

    pub open spec fn is_integer(self) -> bool {
        self.is_signed_integer() || self.is_unsigned_integer()
    }

    pub open spec fn is_numeric(self) -> bool {
        self.is_integer() || self == DataType::Decimal128
    }

    pub open spec fn is_temporal(self) -> bool {
        self == DataType::Date || self == DataType::Timestamp || self == DataType::Duration
    }

    pub open spec fn is_null(self) -> bool {
        self == DataType::Null
    }

    /// The accumulation type a sum over this type widens to, when one exists.
    pub open spec fn spec_sum_supertype(self) -> Option<DataType> {
        if self.is_signed_integer() {
            Some(DataType::Int64)
        } else if self.is_unsigned_integer() {
            Some(DataType::UInt64)
        } else if self == DataType::Decimal128 {
            Some(DataType::Decimal128)
        } else {
            None
        }
    }

    /// Whether the numeric sum kernels accept a column of this type.
    pub open spec fn sum_supported(self) -> bool {
        self.spec_sum_supertype() is Some
    }

    /// The accumulation type of a sum over this type; meaningful only when
    /// `sum_supported` holds.
    pub open spec fn sum_accum_type(self) -> DataType {
        if self.is_signed_integer() {
            DataType::Int64
        } else if self.is_unsigned_integer() {
            DataType::UInt64
        } else {
            DataType::Decimal128
        }
    }

    pub fn exec_is_numeric(&self) -> (r: bool)
        ensures
            r == self.is_numeric(),
    {
        matches!(
            self,
            DataType::Int8 | DataType::Int16 | DataType::Int32 | DataType::Int64
                | DataType::UInt8 | DataType::UInt16 | DataType::UInt32 | DataType::UInt64
                | DataType::Decimal128
        )
    }

    pub fn exec_is_temporal(&self) -> (r: bool)
        ensures
            r == self.is_temporal(),
    {
        matches!(self, DataType::Date | DataType::Timestamp | DataType::Duration)
    }

    /// Widening rule for sums: signed integers widen to `Int64`, unsigned to
    /// `UInt64`, decimals stay at their 128-bit representation. Everything
    /// else has no sum accumulation type.
    pub fn try_sum_supertype(&self) -> (r: Option<DataType>)
        ensures
            r == self.spec_sum_supertype(),
    {
        match self {
            DataType::Int8 | DataType::Int16 | DataType::Int32 | DataType::Int64 => {
                Some(DataType::Int64)
            },
            DataType::UInt8 | DataType::UInt16 | DataType::UInt32 | DataType::UInt64 => {
                Some(DataType::UInt64)
            },
            DataType::Decimal128 => Some(DataType::Decimal128),
            _ => None,
        }
    }
}

impl DataType {
    /// The display name of the type.
    pub open spec fn spec_display(self) -> Seq<char> {
        match self {
            DataType::Null => "Null"@,
            DataType::Boolean => "Boolean"@,
            DataType::Int8 => "Int8"@,
            DataType::Int16 => "Int16"@,
            DataType::Int32 => "Int32"@,
            DataType::Int64 => "Int64"@,
            DataType::UInt8 => "UInt8"@,
            DataType::UInt16 => "UInt16"@,
            DataType::UInt32 => "UInt32"@,
            DataType::UInt64 => "UInt64"@,
            DataType::Decimal128 => "Decimal128"@,
            DataType::Date => "Date"@,
            DataType::Timestamp => "Timestamp"@,
            DataType::Duration => "Duration"@,
            DataType::Utf8 => "Utf8"@,
            DataType::List => "List"@,
        }
    }

    pub fn display_string(&self) -> (r: String)
        ensures
            r@ == self.spec_display(),
    {
        match self {
            DataType::Null => String::from_str("Null"),
            DataType::Boolean => String::from_str("Boolean"),
            DataType::Int8 => String::from_str("Int8"),
            DataType::Int16 => String::from_str("Int16"),
            DataType::Int32 => String::from_str("Int32"),
            DataType::Int64 => String::from_str("Int64"),
            DataType::UInt8 => String::from_str("UInt8"),
            DataType::UInt16 => String::from_str("UInt16"),
            DataType::UInt32 => String::from_str("UInt32"),
            DataType::UInt64 => String::from_str("UInt64"),
            DataType::Decimal128 => String::from_str("Decimal128"),
            DataType::Date => String::from_str("Date"),
            DataType::Timestamp => String::from_str("Timestamp"),
            DataType::Duration => String::from_str("Duration"),
            DataType::Utf8 => String::from_str("Utf8"),
            DataType::List => String::from_str("List"),
        }
    }
}

/// The common supertype of two column types, when one exists: equal types
/// unify to themselves, and numeric types unify to the wider accumulation
/// family when both are integers of the same signedness.
pub open spec fn spec_supertype(a: DataType, b: DataType) -> Option<DataType> {
    if a == b {
        Some(a)
    } else if a.is_signed_integer() && b.is_signed_integer() {
        Some(DataType::Int64)
    } else if a.is_unsigned_integer() && b.is_unsigned_integer() {
        Some(DataType::UInt64)
    } else {
        None
    }
}

pub fn try_get_supertype(a: &DataType, b: &DataType) -> (r: Option<DataType>)
    ensures
        r == spec_supertype(*a, *b),
{
    if a == b {
        Some(*a)
    } else if matches!(a, DataType::Int8 | DataType::Int16 | DataType::Int32 | DataType::Int64)
        && matches!(b, DataType::Int8 | DataType::Int16 | DataType::Int32 | DataType::Int64) {
        Some(DataType::Int64)
    } else if matches!(a, DataType::UInt8 | DataType::UInt16 | DataType::UInt32 | DataType::UInt64)
        && matches!(b, DataType::UInt8 | DataType::UInt16 | DataType::UInt32 | DataType::UInt64) {
        Some(DataType::UInt64)
    } else {
        None
    }
}

} // verus!
