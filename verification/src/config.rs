//! Configuration constants

use vstd::prelude::*;

verus! {

/// Max payload length for guessing game
pub const MAX_LEN: usize = 8;

} // verus!
