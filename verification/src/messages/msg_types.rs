//! Message type constants

use vstd::prelude::*;

verus! {

/// Trade message v1
pub const TRADE_V1: u16 = 1;

/// Quote message v1
pub const QUOTE_V1: u16 = 2;

} // verus!
