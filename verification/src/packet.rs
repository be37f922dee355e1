use vstd::prelude::*;
use crate::crc::{crc16, crc16_step, lemma_crc16_push};
use crate::data_id::{DataId, FLEM_ID_NAME_SIZE, FLEM_ID_SIZE};
use crate::endian::{high, high_byte, join, le_bytes, low, low_byte};
use crate::frame::{outcome, PacketView, FLEM_HEADER, FLEM_HEADER_SIZE};
use crate::status::Status;

verus! {

/// A frame with a data buffer of `T` bytes, to be filled and sent or to be
/// put together from the bytes that arrive.
#[derive(Copy, Clone)]
pub struct Packet<const T: usize> {
    header: u16,
    checksum: u16,
    request: u16,
    response: u16,
    length: u16,
    data: [u8; T],
    internal_counter: u32,
    data_length_counter: usize,
    length_low: u8,
    status: Status,
}

impl<const T: usize> View for Packet<T> {
    type V = PacketView;

    closed spec fn view(&self) -> PacketView {
        PacketView {
            header: self.header,
            checksum: self.checksum,
            request: self.request,
            response: self.response,
            length: self.length,
            data: self.data@,
            internal_counter: self.internal_counter,
            data_length_counter: self.data_length_counter,
            length_low: self.length_low,
            status: self.status,
        }
    }
}

impl<const T: usize> Packet<T> {
    /// The invariant of a packet: its view is well formed for its capacity.
    pub open spec fn wf(&self) -> bool {
        self@.wf(T as nat)
    }

    /// Makes a packet whose fields and buffer are all zero.
    pub fn new() -> (packet: Self)
        requires
            T < u16::MAX,
        ensures
            packet.wf(),
            packet@ == PacketView::blank(T as nat),
    {
        let packet = Self {
            header: 0,
            checksum: 0,
            request: 0,
            response: 0,
            length: 0,
            data: [0u8;T],
            internal_counter: 0,
            data_length_counter: 0,
            length_low: 0,
            status: Status::Okay,
        };
        proof {
            assert(packet@.data =~= PacketView::blank(T as nat).data);
        }
        packet
    }

    /// Returns a copy of the whole data buffer.
    pub fn get_data(&self) -> (data: [u8; T])
        ensures
            data@ == self@.data,
    {
        self.data
    }

    /// Appends `data` to the payload if the buffer has room for all of it,
    /// and changes nothing but the status if it has not.
    pub fn add_data(&mut self, data: &[u8]) -> (r: Result<(), Status>)
        requires
            old(self).wf(),
        ensures
            final(self).wf(),
            final(self)@ == old(self)@.appended(data@),
            r == (if data@.len() + old(self)@.length > T {
                Err::<(), Status>(Status::PacketOverflow)
            } else {
                Ok(())
            }),
    {
        let length = self.length as usize;
        if data.len() > T - length {
            self.status = Status::PacketOverflow;
            Err(Status::PacketOverflow)
        } else {
            let mut i: usize = 0;
            while i < data.len()
                invariant
                    i <= data.len(),
                    length + data.len() <= T,
                    self.header == old(self).header,
                    self.checksum == old(self).checksum,
                    self.request == old(self).request,
                    self.response == old(self).response,
                    self.length == old(self).length,
                    self.internal_counter == old(self).internal_counter,
                    self.data_length_counter == old(self).data_length_counter,
                    self.length_low == old(self).length_low,
                    self.status == old(self).status,
                    length == old(self).length,
                    forall|k: int| 0 <= k < length ==> self.data@[k] == old(self).data@[k],
                    forall|k: int| length <= k < length + i ==> self.data@[k] == data@[k - length],
                    forall|k: int| length + i <= k < T ==> self.data@[k] == old(self).data@[k],
                decreases data.len() - i,
            {
                self.data[i + length] = data[i];
                i += 1;
            }
            self.length = (length + data.len()) as u16;
            self.status = Status::Okay;
            proof {
                assert(self@.data =~= old(self)@.appended(data@).data);
            }
            Ok(())
        }
    }

    /// Clears the packet and fills it with a successful answer to `request`
    /// that carries `data`, ready to be sent.
    pub fn pack_data(&mut self, request: u16, data: &[u8]) -> (r: Result<(), Status>)
        requires
            old(self).wf(),
        ensures
            final(self).wf(),
            final(self)@ == old(self)@.answered(request, 0, crate::response::SUCCESS, data@),
            r == (if data@.len() > T {
                Err::<(), Status>(Status::PacketOverflow)
            } else {
                Ok(())
            }),
    {
        self.reset_lazy();
        self.request = request;
        match self.add_data(data) {
            Ok(_) => {
                self.response = crate::response::SUCCESS;
                self.pack();
                Ok(())
            },
            Err(e) => Err(e),
        }
    }

    /// Clears the packet and fills it with the answer `error` to `request`
    /// that carries `data`, ready to be sent.
    pub fn pack_error(&mut self, request: u16, error: u16, data: &[u8]) -> (r: Result<(), Status>)
        requires
            old(self).wf(),
        ensures
            final(self).wf(),
            final(self)@ == old(self)@.answered(request, error, error, data@),
            r == (if data@.len() > T {
                Err::<(), Status>(Status::PacketOverflow)
            } else {
                Ok(())
            }),
    {
        self.reset_lazy();
        self.request = request;
        self.response = error;
        match self.add_data(data) {
            Ok(_) => {
                self.response = error;
                self.pack();
                Ok(())
            },
            Err(e) => Err(e),
        }
    }

    /// Clears the packet and fills it with the answer to the request for
    /// the identity, ready to be sent. With `ascii` the descriptor goes in
    /// field by field, the name as one byte for each character.
    pub fn pack_id(&mut self, id: &DataId, ascii: bool) -> (r: Result<(), Status>)
        requires
            old(self).wf(),
            id.wf(),
        ensures
            final(self).wf(),
            final(self)@ == old(self)@.identified(id@, ascii),
            r == (if T >= FLEM_ID_SIZE {
                Ok::<(), Status>(())
            } else {
                Err(Status::PacketOverflow)
            }),
    {
        self.reset_lazy();
        self.request = crate::request::ID;
        self.response = crate::response::SUCCESS;
        let ghost start = self@;
        if ascii {
            let major = [id.get_major()];
            if let Err(e) = self.add_data(&major) {
                proof {
                    assert(id@.bytes().take(0) =~= Seq::<u8>::empty());
                    assert(self@.data =~= start.appended(id@.bytes().take(0)).data);
                }
                return Err(e);
            }
            let minor = [id.get_minor()];
            if let Err(e) = self.add_data(&minor) {
                proof {
                    assert(self@.data =~= start.appended(id@.bytes().take(1)).data);
                }
                return Err(e);
            }
            let patch = [id.get_patch()];
            if let Err(e) = self.add_data(&patch) {
                proof {
                    assert(self@.data =~= start.appended(id@.bytes().take(2)).data);
                }
                return Err(e);
            }
            let size = [low(id.get_max_packet_size()), high(id.get_max_packet_size())];
            if let Err(e) = self.add_data(&size) {
                proof {
                    assert(self@.data =~= start.appended(id@.bytes().take(3)).data);
                }
                return Err(e);
            }
            let name = id.get_name();
            let mut char_array: [u8; FLEM_ID_NAME_SIZE] = [0;FLEM_ID_NAME_SIZE];
            let mut index: usize = 0;
            while index < FLEM_ID_NAME_SIZE
                invariant
                    index <= FLEM_ID_NAME_SIZE,
                    id.wf(),
                    forall|i: int| 0 <= i < FLEM_ID_NAME_SIZE ==> name@[i] as int == id@.name[i],
                    forall|i: int| 0 <= i < index ==> char_array@[i] == id@.name[i],
                decreases FLEM_ID_NAME_SIZE - index,
            {
                char_array[index] = name[index] as u8;
                index += 1;
            }
            proof {
                assert(char_array@ =~= id@.name);
                assert(self@.data =~= start.appended(id@.bytes().take(5)).data);
            }
            if let Err(e) = self.add_data(&char_array) {
                return Err(e);
            }
            proof {
                assert(self@.data =~= start.appended(id@.bytes()).data);
            }
        } else {
            let image = id.as_u8_array();
            if let Err(e) = self.add_data(&image) {
                return Err(e);
            }
        }
        self.pack();
        Ok(())
    }

    /// Computes the checksum that the fields and the payload call for, and
    /// stores it in the checksum field if `store` is set.
    pub fn checksum(&mut self, store: bool) -> (crc: u16)
        requires
            old(self).wf(),
        ensures
            final(self).wf(),
            crc == old(self)@.frame_crc(),
            final(self)@ == (if store {
                PacketView { checksum: crc, ..old(self)@ }
            } else {
                old(self)@
            }),
    {
        let ghost fields = le_bytes(self.request) + le_bytes(self.response) + le_bytes(self.length);
        let mut crc: u16 = 0;
        crc = crc16_step(crc, low(self.request));
        crc = crc16_step(crc, high(self.request));
        crc = crc16_step(crc, low(self.response));
        crc = crc16_step(crc, high(self.response));
        crc = crc16_step(crc, low(self.length));
        crc = crc16_step(crc, high(self.length));
        proof {
            let e = Seq::<u8>::empty();
            let s1 = e.push(low_byte(self.request));
            let s2 = s1.push(high_byte(self.request));
            let s3 = s2.push(low_byte(self.response));
            let s4 = s3.push(high_byte(self.response));
            let s5 = s4.push(low_byte(self.length));
            let s6 = s5.push(high_byte(self.length));
            lemma_crc16_push(e, low_byte(self.request));
            lemma_crc16_push(s1, high_byte(self.request));
            lemma_crc16_push(s2, low_byte(self.response));
            lemma_crc16_push(s3, high_byte(self.response));
            lemma_crc16_push(s4, low_byte(self.length));
            lemma_crc16_push(s5, high_byte(self.length));
            assert(s6 =~= fields);
            assert(fields + self.data@.take(0) =~= fields);
        }
        let length = self.length as usize;
        let mut i: usize = 0;
        while i < length
            invariant
                i <= length <= T,
                length == self.length,
                self@ == old(self)@,
                fields == le_bytes(self.request) + le_bytes(self.response) + le_bytes(self.length),
                crc == crc16(fields + self.data@.take(i as int)),
            decreases length - i,
        {
            proof {
                lemma_crc16_push(fields + self.data@.take(i as int), self.data@[i as int]);
                assert((fields + self.data@.take(i as int)).push(self.data@[i as int]) =~= fields
                    + self.data@.take(i + 1));
            }
            crc = crc16_step(crc, self.data[i]);
            i += 1;
        }
        if store {
            self.checksum = crc;
        }
        crc
    }

    /// Tells whether the checksum field holds the checksum that the fields
    /// and the payload call for.
    pub fn validate(&mut self) -> (valid: bool)
        requires
            old(self).wf(),
        ensures
            final(self)@ == old(self)@,
            valid == (old(self)@.checksum == old(self)@.frame_crc()),
    {
        let crc = self.checksum(false);
        crc == self.checksum
    }

    /// Finalizes the packet: stores the checksum of its contents, then
    /// writes the header value.
    pub fn pack(&mut self)
        requires
            old(self).wf(),
        ensures
            final(self).wf(),
            final(self)@ == old(self)@.packed(),
    {
        self.checksum(true);
        self.header = FLEM_HEADER;
    }

    /// The packet as it travels: the five fields, low bytes first, then the
    /// payload.
    pub fn bytes(&self) -> (stream: Vec<u8>)
        requires
            self.wf(),
        ensures
            stream@ == self@.wire(),
    {
        let mut stream: Vec<u8> = Vec::new();
        stream.push(low(self.header));
        stream.push(high(self.header));
        stream.push(low(self.checksum));
        stream.push(high(self.checksum));
        stream.push(low(self.request));
        stream.push(high(self.request));
        stream.push(low(self.response));
        stream.push(high(self.response));
        stream.push(low(self.length));
        stream.push(high(self.length));
        let ghost fields = stream@;
        proof {
            assert(fields =~= le_bytes(self.header) + le_bytes(self.checksum) + le_bytes(
                self.request,
            ) + le_bytes(self.response) + le_bytes(self.length));
        }
        let length = self.length as usize;
        let mut i: usize = 0;
        while i < length
            invariant
                i <= length <= T,
                length == self.length,
                stream@ =~= fields + self.data@.take(i as int),
            decreases length - i,
        {
            stream.push(self.data[i]);
            i += 1;
        }
        proof {
            assert(stream@ =~= self@.wire());
        }
        stream
    }

    /// Takes in the next byte of an arriving frame. The internal counter
    /// tells where in the frame the byte belongs: header, checksum, request,
    /// response and length, low bytes first, then the payload. The frame is
    /// checked as soon as its last byte is in.
    pub fn construct(&mut self, byte: u8) -> (r: Result<(), Status>)
        requires
            old(self).wf(),
        ensures
            final(self).wf(),
            final(self)@ == old(self)@.constructed(T as nat, byte),
            r == outcome(final(self)@.status),
    {
        let local_internal_counter = self.internal_counter;
        if local_internal_counter == 0 {
            if byte != 0x55 {
                self.internal_counter = 0;
                self.status = Status::HeaderBytesNotFound;
                return Err(self.status);
            }
            self.header = byte as u16;
        } else if local_internal_counter == 1 {
            if byte != 0x55 {
                self.internal_counter = 0;
                self.status = Status::HeaderBytesNotFound;
                return Err(self.status);
            }
            self.header |= (byte as u16) << 8;
        } else if local_internal_counter == 2 {
            self.checksum = byte as u16;
        } else if local_internal_counter == 3 {
            self.checksum |= (byte as u16) << 8;
        } else if local_internal_counter == 4 {
            self.request = byte as u16;
        } else if local_internal_counter == 5 {
            self.request |= (byte as u16) << 8;
        } else if local_internal_counter == 6 {
            self.response = byte as u16;
        } else if local_internal_counter == 7 {
            self.response |= (byte as u16) << 8;
        } else if local_internal_counter == 8 {
            self.length_low = byte;
        } else if local_internal_counter == 9 {
            let length = join(self.length_low, byte);
            self.data_length_counter = 0;
            if length == 0 {
                self.length = 0;
                if self.validate() {
                    self.status = Status::PacketReceived;
                    return Ok(());
                } else {
                    self.status = Status::ChecksumError;
                    return Err(self.status);
                }
            }
            if length as usize > T {
                self.status = Status::InvalidDataLengthDetected;
                return Err(self.status);
            }
            self.length = length;
        } else if (local_internal_counter as usize) < FLEM_HEADER_SIZE + T {
            if self.data_length_counter < self.length as usize {
                self.data[self.data_length_counter] = byte;
            } else {
                self.status = Status::PacketOverflow;
                return Err(self.status);
            }
            self.data_length_counter += 1;
            if self.length as usize == self.data_length_counter {
                if self.validate() {
                    self.status = Status::PacketReceived;
                    return Ok(());
                } else {
                    self.status = Status::ChecksumError;
                    return Err(self.status);
                }
            }
        } else {
            self.status = Status::PacketOverflow;
            return Err(self.status);
        }
        self.internal_counter += 1;
        self.status = Status::PacketBuilding;
        Err(self.status)
    }

    /// Hands out the bytes of the packet one at a time, from the header to
    /// the last payload byte. Past the end it reports `GetByteFinished` and
    /// starts over.
    pub fn get_byte(&mut self) -> (r: Result<u8, Status>)
        requires
            old(self).wf(),
        ensures
            final(self).wf(),
            final(self)@ == old(self)@.emitted(),
            r == (if old(self)@.internal_counter < old(self)@.wire_len() {
                Ok::<u8, Status>(old(self)@.wire()[old(self)@.internal_counter as int])
            } else {
                Err(Status::GetByteFinished)
            }),
    {
        let cnt = self.internal_counter;
        if (cnt as usize) < self.length() {
            let byte = if cnt == 0 {
                low(self.header)
            } else if cnt == 1 {
                high(self.header)
            } else if cnt == 2 {
                low(self.checksum)
            } else if cnt == 3 {
                high(self.checksum)
            } else if cnt == 4 {
                low(self.request)
            } else if cnt == 5 {
                high(self.request)
            } else if cnt == 6 {
                low(self.response)
            } else if cnt == 7 {
                high(self.response)
            } else if cnt == 8 {
                low(self.length)
            } else if cnt == 9 {
                high(self.length)
            } else {
                self.data[cnt as usize - FLEM_HEADER_SIZE]
            };
            self.internal_counter += 1;
            self.status = Status::Okay;
            Ok(byte)
        } else {
            self.internal_counter = 0;
            self.status = Status::GetByteFinished;
            Err(self.status)
        }
    }

    /// Sets the request field.
    pub fn set_request(&mut self, request: u16)
        ensures
            final(self)@ == (PacketView { request, ..old(self)@ }),
    {
        self.request = request;
    }

    /// The request field.
    pub fn get_request(&self) -> (request: u16)
        ensures
            request == self@.request,
    {
        self.request
    }

    /// The checksum field, as it was stored or received.
    pub fn get_checksum(&self) -> (checksum: u16)
        ensures
            checksum == self@.checksum,
    {
        self.checksum
    }

    /// Sets the response field.
    pub fn set_response(&mut self, response: u16)
        ensures
            final(self)@ == (PacketView { response, ..old(self)@ }),
    {
        self.response = response;
    }

    /// The response field.
    pub fn get_response(&self) -> (response: u16)
        ensures
            response == self@.response,
    {
        self.response
    }

    /// The outcome of the last operation on the packet.
    pub fn get_status(&mut self) -> (status: Status)
        ensures
            status == old(self)@.status,
            final(self)@ == old(self)@,
    {
        self.status
    }

    /// The header field.
    pub fn get_header(&self) -> (header: u16)
        ensures
            header == self@.header,
    {
        self.header
    }

    /// The number of payload bytes that have been received so far.
    pub fn get_data_length(&self) -> (count: usize)
        ensures
            count == self@.data_length_counter,
    {
        self.data_length_counter
    }

    /// Clears the fields and the counters and leaves the buffer as it is.
    pub fn reset_lazy(&mut self)
        requires
            old(self).wf(),
        ensures
            final(self).wf(),
            final(self)@ == old(self)@.cleared(),
    {
        self.header = 0;
        self.checksum = 0;
        self.request = 0;
        self.response = 0;
        self.length = 0;
        self.internal_counter = 0;
        self.status = Status::Okay;
        self.data_length_counter = 0;
        self.length_low = 0;
    }

    /// Clears the fields, the counters and the buffer.
    pub fn reset(&mut self)
        requires
            old(self).wf(),
        ensures
            final(self).wf(),
            final(self)@ == PacketView::blank(T as nat),
    {
        self.reset_lazy();
        let mut i: usize = 0;
        while i < T
            invariant
                i <= T,
                self.wf(),
                self@ == (PacketView { data: self@.data, ..PacketView::blank(T as nat) }),
                forall|k: int| 0 <= k < i ==> self.data@[k] == 0u8,
            decreases T - i,
        {
            self.data[i] = 0;
            i += 1;
        }
        self.data_length_counter = 0;
        proof {
            assert(self@.data =~= PacketView::blank(T as nat).data);
        }
    }

    /// The number of bytes of the packet on the wire, header and payload.
    pub fn length(&self) -> (len: usize)
        ensures
            len == self@.wire_len(),
    {
        let mut x: usize = FLEM_HEADER_SIZE;
        x += self.length as usize;
        x
    }
}

} // verus!
