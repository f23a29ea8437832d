//! The ways in which a call can fail.

use vstd::prelude::*;

verus! {

/// Why a whole call was refused. Both are found before any element is read,
/// and no partial output is produced.
#[derive(Clone, Copy, Debug, PartialEq, Eq, Structural)]
pub enum PairingError {
    /// The method name is none of `hagen`, `szudzik` and `cantor`.
    UnsupportedMethod,
    /// An input column does not hold integers.
    TypeMismatch,
}

} // verus!
