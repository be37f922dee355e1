use vstd::prelude::*;
use crate::crc::crc16;
use crate::data_id::{DataIdView, FLEM_ID_SIZE};
use crate::endian::{le_bytes, u16_le};
use crate::status::Status;

verus! {

/// The number of bytes that precede the payload of a frame: header,
/// checksum, request, response and length, two bytes each.
pub const FLEM_HEADER_SIZE: usize = 10;

/// The value of the header field of every finished frame.
pub const FLEM_HEADER: u16 = 0x5555;

/// What a packet holds: its fields, the whole of its data buffer, and the
/// counters of the transfer that is under way.
pub struct PacketView {
    pub header: u16,
    pub checksum: u16,
    pub request: u16,
    pub response: u16,
    pub length: u16,
    pub data: Seq<u8>,
    pub internal_counter: u32,
    pub data_length_counter: usize,
    pub length_low: u8,
    pub status: Status,
}

impl PacketView {
    /// The invariant of a packet with a buffer of `capacity` bytes.
    pub open spec fn wf(self, capacity: nat) -> bool {
        &&& capacity < 0xFFFF
        &&& self.data.len() == capacity
        &&& self.length <= capacity
        &&& self.data_length_counter <= self.length
        &&& self.internal_counter <= FLEM_HEADER_SIZE + capacity
    }

    /// A packet that was just made: every field and every byte is zero.
    pub open spec fn blank(capacity: nat) -> PacketView {
        PacketView {
            header: 0,
            checksum: 0,
            request: 0,
            response: 0,
            length: 0,
            data: Seq::new(capacity, |i: int| 0u8),
            internal_counter: 0,
            data_length_counter: 0,
            length_low: 0,
            status: Status::Okay,
        }
    }

    /// The valid part of the data buffer.
    pub open spec fn payload(self) -> Seq<u8> {
        self.data.take(self.length as int)
    }

    /// The bytes that the checksum guards: request, response and length, low
    /// bytes first, then the payload.
    pub open spec fn guarded(self) -> Seq<u8> {
        le_bytes(self.request) + le_bytes(self.response) + le_bytes(self.length) + self.payload()
    }

    /// The packet as it travels: header and checksum, low bytes first, then
    /// the guarded bytes.
    pub open spec fn wire(self) -> Seq<u8> {
        le_bytes(self.header) + le_bytes(self.checksum) + self.guarded()
    }

    /// The checksum that the fields and the payload call for.
    pub open spec fn frame_crc(self) -> u16 {
        crc16(self.guarded())
    }

    /// The packet is ready to be sent: it carries the header value and the
    /// checksum of its contents.
    pub open spec fn finalized(self) -> bool {
        self.header == FLEM_HEADER && self.checksum == self.frame_crc()
    }

    /// The packet after a lazy reset: the buffer is kept, all else is as in
    /// a packet that was just made.
    pub open spec fn cleared(self) -> PacketView {
        PacketView { data: self.data, ..PacketView::blank(self.data.len()) }
    }

    /// The packet after an attempt to append `bytes` to its payload. Bytes
    /// that do not fit leave everything but the status as it was.
    pub open spec fn appended(self, bytes: Seq<u8>) -> PacketView {
        if bytes.len() + self.length > self.data.len() {
            PacketView { status: Status::PacketOverflow, ..self }
        } else {
            PacketView {
                data: self.payload() + bytes + self.data.skip(self.length + bytes.len()),
                length: (self.length + bytes.len()) as u16,
                status: Status::Okay,
                ..self
            }
        }
    }

    /// The packet after it was finalized.
    pub open spec fn packed(self) -> PacketView {
        PacketView { checksum: self.frame_crc(), header: FLEM_HEADER, ..self }
    }

    /// The packet after an attempt to answer `request` with `response` and
    /// the payload `data`. The packet is cleared first. While the payload is
    /// put in, the response field holds `early`. A payload that does not fit
    /// leaves the packet there, not finalized.
    pub open spec fn answered(self, request: u16, early: u16, response: u16, data: Seq<u8>)
        -> PacketView {
        let loaded = (PacketView { request, response: early, ..self.cleared() }).appended(data);
        if data.len() > self.data.len() {
            loaded
        } else {
            (PacketView { response, ..loaded }).packed()
        }
    }

    /// The number of bytes of a descriptor that go into a buffer too small
    /// for all of it, when the descriptor is put in field by field.
    pub open spec fn fitting_fields(capacity: nat) -> nat {
        if capacity >= 5 {
            5
        } else if capacity >= 3 {
            3
        } else {
            capacity
        }
    }

    /// The packet after an attempt to answer the request for the identity
    /// with the descriptor `id`. The packet is cleared first. With `ascii`
    /// the descriptor is put in field by field, so that in a buffer too
    /// small for it the leading fields that fit remain; without, it is put
    /// in as a whole or not at all.
    pub open spec fn identified(self, id: DataIdView, ascii: bool) -> PacketView {
        let start = PacketView {
            request: crate::request::ID,
            response: crate::response::SUCCESS,
            ..self.cleared()
        };
        if self.data.len() >= FLEM_ID_SIZE {
            start.appended(id.bytes()).packed()
        } else if ascii {
            PacketView {
                status: Status::PacketOverflow,
                ..start.appended(id.bytes().take(Self::fitting_fields(self.data.len()) as int))
            }
        } else {
            start.appended(id.bytes())
        }
    }

    /// The number of bytes of the packet on the wire.
    pub open spec fn wire_len(self) -> nat {
        (FLEM_HEADER_SIZE + self.length) as nat
    }

    /// The packet after one byte was handed out, or after the end of the
    /// packet was met, which puts the cursor back to the start.
    pub open spec fn emitted(self) -> PacketView {
        if self.internal_counter < self.wire_len() {
            PacketView {
                internal_counter: (self.internal_counter + 1) as u32,
                status: Status::Okay,
                ..self
            }
        } else {
            PacketView { internal_counter: 0, status: Status::GetByteFinished, ..self }
        }
    }

    /// The receiver after a byte that went into place without ending the frame.
    pub open spec fn advanced(self) -> PacketView {
        PacketView {
            internal_counter: (self.internal_counter + 1) as u32,
            status: Status::PacketBuilding,
            ..self
        }
    }

    /// The receiver after a byte that cannot start a frame.
    pub open spec fn header_missed(self) -> PacketView {
        PacketView { internal_counter: 0, status: Status::HeaderBytesNotFound, ..self }
    }

    /// The receiver after the last byte of a frame: the checksum it was sent
    /// is held against the one its contents call for.
    pub open spec fn validated(self) -> PacketView {
        PacketView {
            status: if self.checksum == self.frame_crc() {
                Status::PacketReceived
            } else {
                Status::ChecksumError
            },
            ..self
        }
    }

    /// The receiver with a buffer of `capacity` bytes after it took in `byte`.
    pub open spec fn constructed(self, capacity: nat, byte: u8) -> PacketView {
        let b = byte as u16;
        let at = self.internal_counter;
        if at == 0 {
            if byte != 0x55 {
                self.header_missed()
            } else {
                PacketView { header: b, ..self }.advanced()
            }
        } else if at == 1 {
            if byte != 0x55 {
                self.header_missed()
            } else {
                PacketView { header: self.header | (b << 8), ..self }.advanced()
            }
        } else if at == 2 {
            PacketView { checksum: b, ..self }.advanced()
        } else if at == 3 {
            PacketView { checksum: self.checksum | (b << 8), ..self }.advanced()
        } else if at == 4 {
            PacketView { request: b, ..self }.advanced()
        } else if at == 5 {
            PacketView { request: self.request | (b << 8), ..self }.advanced()
        } else if at == 6 {
            PacketView { response: b, ..self }.advanced()
        } else if at == 7 {
            PacketView { response: self.response | (b << 8), ..self }.advanced()
        } else if at == 8 {
            PacketView { length_low: byte, ..self }.advanced()
        } else if at == 9 {
            let length = u16_le(self.length_low, byte);
            if length == 0 {
                PacketView { length: 0, data_length_counter: 0, ..self }.validated()
            } else if length > capacity {
                PacketView {
                    data_length_counter: 0,
                    status: Status::InvalidDataLengthDetected,
                    ..self
                }
            } else {
                PacketView { length, data_length_counter: 0, ..self }.advanced()
            }
        } else if at < FLEM_HEADER_SIZE + capacity && self.data_length_counter < self.length {
            let filled = PacketView {
                data: self.data.update(self.data_length_counter as int, byte),
                data_length_counter: (self.data_length_counter + 1) as usize,
                ..self
            };
            if filled.data_length_counter == filled.length {
                filled.validated()
            } else {
                filled.advanced()
            }
        } else {
            PacketView { status: Status::PacketOverflow, ..self }
        }
    }

    /// The receiver with a buffer of `capacity` bytes after it took in
    /// `bytes`, one after the other.
    pub open spec fn received(self, capacity: nat, bytes: Seq<u8>) -> PacketView
        decreases bytes.len(),
    {
        if bytes.len() == 0 {
            self
        } else {
            self.received(capacity, bytes.drop_last()).constructed(capacity, bytes.last())
        }
    }
}

/// What a call that reports `status` returns: success for a received packet
/// alone, the status as the error otherwise.
pub open spec fn outcome(status: Status) -> Result<(), Status> {
    if status == Status::PacketReceived {
        Ok(())
    } else {
        Err(status)
    }
}

} // verus!
