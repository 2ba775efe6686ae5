//! Lists: arrays that hold values of any type.

use vstd::prelude::*;
use crate::array::Array;
use crate::safeptr::TaggedCellPtr;

verus! {

/// An array of tagged pointers.
pub type List = Array<TaggedCellPtr>;

} // verus!
