use vstd::prelude::*;

verus! {

/// The answer is still pending and will follow later.
pub const ASYNC: u16 = 0x0000;

/// The request was carried out.
pub const SUCCESS: u16 = 0x0001;

/// The peer does not know the request.
pub const UNKNOWN_REQUEST: u16 = 0xFFFE;

/// The frame that carried the request failed its checksum.
pub const CHECKSUM_ERROR: u16 = 0xFFFF;

} // verus!
