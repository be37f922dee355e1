use vstd::prelude::*;

verus! {

/// The outcome of an operation on a packet.
#[derive(Debug, Copy, Clone, PartialEq, Eq, Structural)]
pub enum Status {
    /// The operation went well.
    Okay,
    /// A whole frame has arrived and its checksum is right.
    PacketReceived,
    /// The byte went into place and the frame is not yet complete.
    PacketBuilding,
    /// Every byte of the packet has been handed out.
    GetByteFinished,
    /// A version does not have the length it should have.
    VersionLength,
    /// The payload does not fit, or a byte arrived after the end of the frame.
    PacketOverflow,
    /// The byte is not the header byte that a frame starts with.
    HeaderBytesNotFound,
    /// A byte could not be handed out.
    GetByteIssue,
    /// A whole frame has arrived and its checksum is wrong.
    ChecksumError,
    /// An error of no other kind.
    UnspecifiedError,
    /// The request is not known.
    UnrecognizedRequest,
    /// The length that the frame declares is more than the buffer holds.
    InvalidDataLengthDetected,
}

} // verus!
