//! Columns: sequences of elements of one type, each element present or absent.

use vstd::prelude::*;

verus! {

/// The type of a column's elements.
#[derive(Clone, Copy, Debug, PartialEq, Eq, Structural)]
pub enum ElementType {
    Boolean,
    UInt8,
    UInt16,
    UInt32,
    UInt64,
    Int8,
    Int16,
    Int32,
    Int64,
    Float32,
    Float64,
    Text,
    /// Any type that is none of the above.
    Other,
}

impl ElementType {
    /// Whether the type is one of the eight integer types.
    pub open spec fn spec_is_integer(self) -> bool {
        self is UInt8 || self is UInt16 || self is UInt32 || self is UInt64 || self is Int8
            || self is Int16 || self is Int32 || self is Int64
    }

    /// Whether the type is one of the eight integer types.
    #[verifier::when_used_as_spec(spec_is_integer)]
    pub fn is_integer(self) -> (integer: bool)
        ensures
            integer == self.spec_is_integer(),
    {
        match self {
            ElementType::UInt8
            | ElementType::UInt16
            | ElementType::UInt32
            | ElementType::UInt64
            | ElementType::Int8
            | ElementType::Int16
            | ElementType::Int32
            | ElementType::Int64 => true,
            _ => false,
        }
    }
}

/// A column. `values` holds the elements of an integer column widened to 64
/// unsigned bits, `None` where an element is absent; the values of a column
/// of another type are never read.
#[derive(Clone, Debug, PartialEq, Eq)]
pub struct Column {
    pub dtype: ElementType,
    pub values: Vec<Option<u64>>,
}

impl View for Column {
    type V = Seq<Option<u64>>;

    /// The elements, in order.
    open spec fn view(&self) -> Seq<Option<u64>> {
        self.values@
    }
}

impl Column {
    /// A column of 64-bit unsigned integers.
    pub fn from_values(values: Vec<Option<u64>>) -> (column: Column)
        ensures
            column.dtype == ElementType::UInt64,
            column.values == values,
    {
        Column { dtype: ElementType::UInt64, values }
    }

    /// The number of elements, absent ones included.
    pub fn len(&self) -> (n: usize)
        ensures
            n == self@.len(),
    {
        self.values.len()
    }
}

} // verus!
