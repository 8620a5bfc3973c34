//! The private supertrait that keeps `field::Scalar` closed to the types listed there.

use vstd::prelude::*;

verus! {

/// Implemented only inside this crate, so no other crate can add a `field::Scalar` type.
pub trait Sealed {}

impl Sealed for u8 {}
impl Sealed for i8 {}
impl Sealed for u16 {}
impl Sealed for i16 {}
impl Sealed for u32 {}
impl Sealed for i32 {}
impl Sealed for u64 {}
impl Sealed for i64 {}
impl Sealed for usize {}
impl Sealed for isize {}
impl Sealed for crate::types::Guid {}
impl Sealed for crate::types::FileTime {}
impl Sealed for crate::types::SystemTime {}

} // verus!
