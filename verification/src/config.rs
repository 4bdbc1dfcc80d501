//! Sizes that the machine fixes.

use vstd::prelude::*;

verus! {

/// bytes of a page
pub const PAGE_SIZE: usize = 4096;

} // verus!
