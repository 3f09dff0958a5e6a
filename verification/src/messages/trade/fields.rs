//! Field indices for the trade presence bitmap

use vstd::prelude::*;

verus! {

/// Symbol field index
pub const SYMBOL: usize = 0;

/// Note field index
pub const NOTE: usize = 1;

} // verus!
