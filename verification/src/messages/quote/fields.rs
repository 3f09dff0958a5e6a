//! Field indices for the quote presence bitmap

use vstd::prelude::*;

verus! {

/// Symbol field index
pub const SYMBOL: usize = 0;

} // verus!
