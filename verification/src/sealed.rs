use vstd::prelude::*;

verus! {

/// Closes the set of input types that the sanitizers accept.
pub trait Sealed {}

impl Sealed for &str {}

impl Sealed for &[u8] {}

impl<const N: usize> Sealed for &[u8; N] {}

impl Sealed for &String {}

} // verus!
