//! Little-endian portable numbers.
use crate::portable::{Float, Int};
use vstd::prelude::*;

verus! {

/// Little-endian unsigned integer of 2 bytes.
pub type U16 = Int<false, 2, false>;

/// Little-endian unsigned integer of 4 bytes.
pub type U32 = Int<false, 4, false>;

/// Little-endian unsigned integer of 8 bytes.
pub type U64 = Int<false, 8, false>;

/// Little-endian signed integer of 2 bytes.
pub type I16 = Int<false, 2, true>;

/// Little-endian signed integer of 4 bytes.
pub type I32 = Int<false, 4, true>;

/// Little-endian signed integer of 8 bytes.
pub type I64 = Int<false, 8, true>;

/// Little-endian floating-point number of 4 bytes.
pub type F32 = Float<false, 4>;

/// Little-endian floating-point number of 8 bytes.
pub type F64 = Float<false, 8>;

} // verus!
