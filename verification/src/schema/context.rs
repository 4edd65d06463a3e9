//! What can be known beforehand when a value is read.
use vstd::prelude::*;

verus! {

/// The number of elements, which is not part of what is read.
#[derive(Debug, Clone, Copy, PartialEq, Eq)]
pub struct Len(pub usize);

} // verus!
