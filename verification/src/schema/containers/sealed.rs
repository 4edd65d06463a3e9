//! Keeps the choice of policies for repeated keys closed.
use vstd::prelude::*;

verus! {

/// Types that are a policy for repeated keys.
pub trait Sealed {

}

} // verus!
