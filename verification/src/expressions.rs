//! Pairing and unpairing of whole columns, element by element.
//!
//! A call names its method, which is resolved once; it fails as a whole on an
//! unknown name or on a column that does not hold integers. An element that
//! is absent from an input is absent from the output, and the output is as
//! long as the input.

use vstd::prelude::*;
use crate::column::{Column, ElementType};
use crate::error::PairingError;
use crate::method::{lemma_round_trip, method_of_name, Method};

verus! {

/// The code at a position whose inputs are `l` and `r`: absent where either
/// is absent.
pub open spec fn pair_element(method: Method, l: Option<u64>, r: Option<u64>) -> Option<u64> {
    match (l, r) {
        (Some(a), Some(b)) => Some(method.spec_pair(a, b)),
        _ => None,
    }
}

/// The left number at a position whose input is `code`: absent where it is.
pub open spec fn unpair_left_element(method: Method, code: Option<u64>) -> Option<u64> {
    match code {
        Some(p) => Some(method.spec_unpair(p).0),
        None => None,
    }
}

/// The right number at a position whose input is `code`: absent where it is.
pub open spec fn unpair_right_element(method: Method, code: Option<u64>) -> Option<u64> {
    match code {
        Some(p) => Some(method.spec_unpair(p).1),
        None => None,
    }
}

/// The codes of two aligned sequences, position by position.
pub open spec fn pair_values(method: Method, left: Seq<Option<u64>>, right: Seq<Option<u64>>) -> Seq<
    Option<u64>,
> {
    Seq::new(left.len(), |i: int| pair_element(method, left[i], right[i]))
}

/// The left numbers of a sequence of codes, position by position.
pub open spec fn unpair_left_values(method: Method, codes: Seq<Option<u64>>) -> Seq<Option<u64>> {
    Seq::new(codes.len(), |i: int| unpair_left_element(method, codes[i]))
}

/// The right numbers of a sequence of codes, position by position.
pub open spec fn unpair_right_values(method: Method, codes: Seq<Option<u64>>) -> Seq<Option<u64>> {
    Seq::new(codes.len(), |i: int| unpair_right_element(method, codes[i]))
}

/// What `pair` returns: the name is judged first, then the types of both
/// columns, and only then are elements read.
pub open spec fn pair_outcome(method_name: Seq<char>, left: Column, right: Column) -> Result<
    Seq<Option<u64>>,
    PairingError,
> {
    match method_of_name(method_name) {
        None => Err(PairingError::UnsupportedMethod),
        Some(method) => if left.dtype.is_integer() && right.dtype.is_integer() {
            Ok(pair_values(method, left@, right@))
        } else {
            Err(PairingError::TypeMismatch)
        },
    }
}

/// What `unpair` returns, as the left and the right sequence: the name is
/// judged first, then the type of the column, and only then are elements read.
pub open spec fn unpair_outcome(method_name: Seq<char>, codes: Column) -> Result<
    (Seq<Option<u64>>, Seq<Option<u64>>),
    PairingError,
> {
    match method_of_name(method_name) {
        None => Err(PairingError::UnsupportedMethod),
        Some(method) => if codes.dtype.is_integer() {
            Ok((unpair_left_values(method, codes@), unpair_right_values(method, codes@)))
        } else {
            Err(PairingError::TypeMismatch)
        },
    }
}

/// The two columns that `unpair` returns: the record of a pair, field by field.
#[derive(Clone, Debug, PartialEq, Eq)]
pub struct PairColumns {
    pub left: Column,
    pub right: Column,
}

/// The static type of the record that `unpair` returns, whatever its input.
#[derive(Clone, Copy, Debug, PartialEq, Eq)]
pub struct PairSchema {
    pub name: &'static str,
    pub left_name: &'static str,
    pub left_type: ElementType,
    pub right_name: &'static str,
    pub right_type: ElementType,
}

/// The type of the record that `unpair` returns, whatever its input: a
/// `Pair` of a `Left` and a `Right` 64-bit unsigned integer.
pub fn pair_struct() -> (schema: PairSchema)
    ensures
        schema.name@ == "Pair"@,
        schema.left_name@ == "Left"@,
        schema.left_type == ElementType::UInt64,
        schema.right_name@ == "Right"@,
        schema.right_type == ElementType::UInt64,
{
    PairSchema {
        name: "Pair",
        left_name: "Left",
        left_type: ElementType::UInt64,
        right_name: "Right",
        right_type: ElementType::UInt64,
    }
}

/// Encodes two aligned columns into one column of codes by the method that
/// `method_name` names. The columns need be equally long only where their
/// elements are read: an unknown name or a column that does not hold
/// integers is refused whatever the lengths.
pub fn pair(method_name: &str, left: &Column, right: &Column) -> (codes: Result<
    Column,
    PairingError,
>)
    requires
        method_of_name(method_name@) is Some && left.dtype.is_integer() && right.dtype.is_integer()
            ==> left@.len() == right@.len(),
    ensures
        match codes {
            Ok(column) => column.dtype == ElementType::UInt64 && pair_outcome(
                method_name@,
                *left,
                *right,
            ) == Ok::<Seq<Option<u64>>, PairingError>(column@),
            Err(e) => pair_outcome(method_name@, *left, *right) == Err::<
                Seq<Option<u64>>,
                PairingError,
            >(e),
        },
        codes matches Ok(column) ==> column@.len() == left@.len(),
        codes matches Ok(column) ==> forall|i: int|
            0 <= i < left@.len() ==> (#[trigger] column@[i] is None <==> left@[i] is None
                || right@[i] is None),
{
    let method = match Method::from_name(method_name) {
        Ok(method) => method,
        Err(e) => {
            return Err(e);
        },
    };
    if !left.dtype.is_integer() || !right.dtype.is_integer() {
        return Err(PairingError::TypeMismatch);
    }
    let n = left.values.len();
    let mut values: Vec<Option<u64>> = Vec::with_capacity(n);
    let mut i: usize = 0;
    while i < n
        invariant
            i <= n,
            n == left@.len(),
            n == right@.len(),
            values@.len() == i,
            forall|j: int| 0 <= j < i ==> values@[j] == pair_element(method, left@[j], right@[j]),
        decreases n - i,
    {
        let code = match (left.values[i], right.values[i]) {
            (Some(l), Some(r)) => method.pair(l, r),
            _ => None,
        };
        values.push(code);
        i += 1;
    }
    assert(values@ =~= pair_values(method, left@, right@));
    Ok(Column { dtype: ElementType::UInt64, values })
}

/// Decodes a column of codes into the columns of their left and right
/// numbers by the method that `method_name` names.
pub fn unpair(method_name: &str, codes: &Column) -> (pairs: Result<PairColumns, PairingError>)
    ensures
        match pairs {
            Ok(columns) => columns.left.dtype == ElementType::UInt64 && columns.right.dtype
                == ElementType::UInt64 && unpair_outcome(method_name@, *codes) == Ok::<
                (Seq<Option<u64>>, Seq<Option<u64>>),
                PairingError,
            >((columns.left@, columns.right@)),
            Err(e) => unpair_outcome(method_name@, *codes) == Err::<
                (Seq<Option<u64>>, Seq<Option<u64>>),
                PairingError,
            >(e),
        },
        pairs matches Ok(columns) ==> columns.left@.len() == codes@.len() && columns.right@.len()
            == codes@.len(),
        pairs matches Ok(columns) ==> forall|i: int|
            0 <= i < codes@.len() ==> (#[trigger] codes@[i] is None <==> columns.left@[i] is None)
                && (codes@[i] is None <==> columns.right@[i] is None),
{
    let method = match Method::from_name(method_name) {
        Ok(method) => method,
        Err(e) => {
            return Err(e);
        },
    };
    if !codes.dtype.is_integer() {
        return Err(PairingError::TypeMismatch);
    }
    let n = codes.values.len();
    let mut left: Vec<Option<u64>> = Vec::with_capacity(n);
    let mut right: Vec<Option<u64>> = Vec::with_capacity(n);
    let mut i: usize = 0;
    while i < n
        invariant
            i <= n,
            n == codes@.len(),
            left@.len() == i,
            right@.len() == i,
            forall|j: int| 0 <= j < i ==> left@[j] == unpair_left_element(method, codes@[j]),
            forall|j: int| 0 <= j < i ==> right@[j] == unpair_right_element(method, codes@[j]),
        decreases n - i,
    {
        let pair = match codes.values[i] {
            Some(p) => method.unpair(p),
            None => None,
        };
        match pair {
            Some((l, r)) => {
                left.push(Some(l));
                right.push(Some(r));
            },
            None => {
                left.push(None);
                right.push(None);
            },
        }
        i += 1;
    }
    assert(left@ =~= unpair_left_values(method, codes@));
    assert(right@ =~= unpair_right_values(method, codes@));
    Ok(
        PairColumns {
            left: Column { dtype: ElementType::UInt64, values: left },
            right: Column { dtype: ElementType::UInt64, values: right },
        },
    )
}

/// Round trip of whole sequences: unpairing the codes of two aligned
/// sequences of numbers below `2¹⁶` gives both sequences back wherever both
/// hold a number, and an absent element wherever either lacks one.
pub proof fn lemma_unpair_pair_values(
    method: Method,
    left: Seq<Option<u64>>,
    right: Seq<Option<u64>>,
)
    requires
        left.len() == right.len(),
        forall|i: int| 0 <= i < left.len() && left[i] is Some ==> left[i]->Some_0 < 0x1_0000,
        forall|i: int| 0 <= i < right.len() && right[i] is Some ==> right[i]->Some_0 < 0x1_0000,
    ensures
        unpair_left_values(method, pair_values(method, left, right)).len() == left.len(),
        unpair_right_values(method, pair_values(method, left, right)).len() == left.len(),
        forall|i: int|
            0 <= i < left.len() ==> #[trigger] unpair_left_values(
                method,
                pair_values(method, left, right),
            )[i] == (if right[i] is Some {
                left[i]
            } else {
                None
            }),
        forall|i: int|
            0 <= i < left.len() ==> #[trigger] unpair_right_values(
                method,
                pair_values(method, left, right),
            )[i] == (if left[i] is Some {
                right[i]
            } else {
                None
            }),
{
    let codes = pair_values(method, left, right);
    assert forall|i: int| 0 <= i < left.len() implies #[trigger] unpair_left_values(method, codes)[i]
        == (if right[i] is Some {
        left[i]
    } else {
        None
    }) by {
        if left[i] is Some && right[i] is Some {
            lemma_round_trip(method, left[i]->Some_0, right[i]->Some_0);
        }
    }
    assert forall|i: int| 0 <= i < left.len() implies #[trigger] unpair_right_values(
        method,
        codes,
    )[i] == (if left[i] is Some {
        right[i]
    } else {
        None
    }) by {
        if left[i] is Some && right[i] is Some {
            lemma_round_trip(method, left[i]->Some_0, right[i]->Some_0);
        }
    }
}

} // verus!
