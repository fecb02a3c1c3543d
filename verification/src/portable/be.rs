//! Big-endian portable numbers.
use crate::portable::{Float, Int};
use vstd::prelude::*;

verus! {

/// Big-endian unsigned integer of 2 bytes.
pub type U16 = Int<true, 2, false>;

/// Big-endian unsigned integer of 4 bytes.
pub type U32 = Int<true, 4, false>;

/// Big-endian unsigned integer of 8 bytes.
pub type U64 = Int<true, 8, false>;

/// Big-endian signed integer of 2 bytes.
pub type I16 = Int<true, 2, true>;

/// Big-endian signed integer of 4 bytes.
pub type I32 = Int<true, 4, true>;

/// Big-endian signed integer of 8 bytes.
pub type I64 = Int<true, 8, true>;

/// Big-endian floating-point number of 4 bytes.
pub type F32 = Float<true, 4>;

/// Big-endian floating-point number of 8 bytes.
pub type F64 = Float<true, 8>;

} // verus!
