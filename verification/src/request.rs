use vstd::prelude::*;

verus! {

/// Asks the peer for its identity.
pub const ID: u16 = 0x0001;

} // verus!
