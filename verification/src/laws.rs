use vstd::prelude::*;
use crate::crc::{crc16, lemma_crc16_detects_change};
use crate::endian::{
    high_byte, lemma_bytes_of_u16_le, lemma_or_shift_is_u16_le, lemma_u16_le_of_bytes, low_byte,
    u16_le,
};
use crate::frame::{PacketView, FLEM_HEADER, FLEM_HEADER_SIZE};
use crate::status::Status;

verus! {

/// A receiver that took in `first` and then `second` took in the two, one
/// behind the other.
pub proof fn lemma_received_concat(
    rx: PacketView,
    capacity: nat,
    first: Seq<u8>,
    second: Seq<u8>,
)
    ensures
        rx.received(capacity, first + second) == rx.received(capacity, first).received(
            capacity,
            second,
        ),
    decreases second.len(),
{
    if second.len() == 0 {
        assert(first + second == first);
    } else {
        lemma_received_concat(rx, capacity, first, second.drop_last());
        assert((first + second).drop_last() == first + second.drop_last());
    }
}

/// The sender `tx` holds a frame that the receiver `rx`, which waits for a
/// header, has room for.
pub open spec fn can_receive(tx: PacketView, rx: PacketView, capacity: nat) -> bool {
    &&& tx.header == FLEM_HEADER
    &&& tx.length <= tx.data.len()
    &&& tx.length <= capacity
    &&& rx.wf(capacity)
    &&& rx.internal_counter == 0
}

/// The receiver after the first nine bytes of the frame of `tx`.
pub open spec fn heading(tx: PacketView, rx: PacketView) -> PacketView {
    PacketView {
        header: FLEM_HEADER,
        checksum: tx.checksum,
        request: tx.request,
        response: tx.response,
        length_low: low_byte(tx.length),
        internal_counter: 9,
        status: Status::PacketBuilding,
        ..rx
    }
}

/// The receiver after the ten leading bytes of the frame of `tx` and the
/// first `count` bytes of its payload, where more are still to come.
pub open spec fn loading(tx: PacketView, rx: PacketView, count: int) -> PacketView {
    PacketView {
        length: tx.length,
        data: tx.data.take(count) + rx.data.skip(count),
        internal_counter: (FLEM_HEADER_SIZE + count) as u32,
        data_length_counter: count as usize,
        ..heading(tx, rx)
    }
}

/// The receiver after the whole frame of `tx`: it holds the fields and the
/// payload of `tx`, its counter stands at the last byte, and its status
/// tells whether the checksum that was sent is the one that the contents
/// call for.
pub open spec fn arrived(tx: PacketView, rx: PacketView) -> PacketView {
    PacketView {
        length: tx.length,
        data: tx.payload() + rx.data.skip(tx.length as int),
        internal_counter: (FLEM_HEADER_SIZE + tx.length - 1) as u32,
        data_length_counter: tx.length as usize,
        status: if tx.checksum == tx.frame_crc() {
            Status::PacketReceived
        } else {
            Status::ChecksumError
        },
        ..heading(tx, rx)
    }
}

/// The bytes of a packet on the wire, position by position.
proof fn lemma_wire_bytes(tx: PacketView)
    requires
        tx.length <= tx.data.len(),
    ensures
        tx.wire().len() == FLEM_HEADER_SIZE + tx.length,
        tx.wire()[0] == low_byte(tx.header),
        tx.wire()[1] == high_byte(tx.header),
        tx.wire()[2] == low_byte(tx.checksum),
        tx.wire()[3] == high_byte(tx.checksum),
        tx.wire()[4] == low_byte(tx.request),
        tx.wire()[5] == high_byte(tx.request),
        tx.wire()[6] == low_byte(tx.response),
        tx.wire()[7] == high_byte(tx.response),
        tx.wire()[8] == low_byte(tx.length),
        tx.wire()[9] == high_byte(tx.length),
        forall|i: int| 0 <= i < tx.length ==> #[trigger] tx.wire()[FLEM_HEADER_SIZE + i] == tx.data[i],
{
}

/// The first nine bytes of a frame fill the fields of a receiver that
/// waited for a header, up to the low byte of the length.
proof fn lemma_heading_received(tx: PacketView, rx: PacketView, capacity: nat)
    requires
        can_receive(tx, rx, capacity),
    ensures
        rx.received(capacity, tx.wire().take(9)) == heading(tx, rx),
        forall|n: int|
            1 <= n <= 9 ==> (#[trigger] rx.received(capacity, tx.wire().take(n))).status
                == Status::PacketBuilding,
{
    let w = tx.wire();
    lemma_wire_bytes(tx);
    let s0 = rx.received(capacity, w.take(0));
    assert(s0 == rx);
    let s1 = rx.received(capacity, w.take(1));
    let s2 = rx.received(capacity, w.take(2));
    let s3 = rx.received(capacity, w.take(3));
    let s4 = rx.received(capacity, w.take(4));
    let s5 = rx.received(capacity, w.take(5));
    let s6 = rx.received(capacity, w.take(6));
    let s7 = rx.received(capacity, w.take(7));
    let s8 = rx.received(capacity, w.take(8));
    let s9 = rx.received(capacity, w.take(9));
    assert(w.take(1).drop_last() == w.take(0));
    assert(w.take(2).drop_last() == w.take(1));
    assert(w.take(3).drop_last() == w.take(2));
    assert(w.take(4).drop_last() == w.take(3));
    assert(w.take(5).drop_last() == w.take(4));
    assert(w.take(6).drop_last() == w.take(5));
    assert(w.take(7).drop_last() == w.take(6));
    assert(w.take(8).drop_last() == w.take(7));
    assert(w.take(9).drop_last() == w.take(8));
    lemma_or_shift_is_u16_le(0x55, 0x55);
    lemma_or_shift_is_u16_le(low_byte(tx.checksum), high_byte(tx.checksum));
    lemma_or_shift_is_u16_le(low_byte(tx.request), high_byte(tx.request));
    lemma_or_shift_is_u16_le(low_byte(tx.response), high_byte(tx.response));
    lemma_u16_le_of_bytes(tx.checksum);
    lemma_u16_le_of_bytes(tx.request);
    lemma_u16_le_of_bytes(tx.response);
    assert(s1 == PacketView { header: 0x55, ..rx }.advanced());
    assert(s2 == PacketView { header: FLEM_HEADER, ..s1 }.advanced());
    assert(s3 == PacketView { checksum: low_byte(tx.checksum) as u16, ..s2 }.advanced());
    assert(s4 == PacketView { checksum: tx.checksum, ..s3 }.advanced());
    assert(s5 == PacketView { request: low_byte(tx.request) as u16, ..s4 }.advanced());
    assert(s6 == PacketView { request: tx.request, ..s5 }.advanced());
    assert(s7 == PacketView { response: low_byte(tx.response) as u16, ..s6 }.advanced());
    assert(s8 == PacketView { response: tx.response, ..s7 }.advanced());
    assert(s9 == PacketView { length_low: low_byte(tx.length), ..s8 }.advanced());
}

/// The leading bytes of a frame and the first `count` bytes of its payload
/// leave the receiver with those payload bytes at the start of its buffer.
proof fn lemma_payload_received(tx: PacketView, rx: PacketView, capacity: nat, count: int)
    requires
        can_receive(tx, rx, capacity),
        0 <= count < tx.length,
    ensures
        rx.received(capacity, tx.wire().take(FLEM_HEADER_SIZE + count)) == loading(tx, rx, count),
    decreases count,
{
    let w = tx.wire();
    lemma_wire_bytes(tx);
    let n = FLEM_HEADER_SIZE + count;
    assert(w.take(n).drop_last() == w.take(n - 1));
    if count == 0 {
        lemma_heading_received(tx, rx, capacity);
        lemma_u16_le_of_bytes(tx.length);
        assert(loading(tx, rx, 0).data =~= rx.data);
    } else {
        lemma_payload_received(tx, rx, capacity, count - 1);
        let before = loading(tx, rx, count - 1);
        assert(w[n - 1] == tx.data[count - 1]);
        assert(before.data.update(count - 1, tx.data[count - 1]) =~= loading(tx, rx, count).data);
    }
}

/// A receiver that waits for a header and takes in a whole frame ends with
/// the fields and the payload of the frame, and reports `PacketReceived` if
/// the checksum in the frame is the checksum of its contents, `ChecksumError`
/// if not. Until the last byte of the frame it reports `PacketBuilding`.
pub proof fn law_frame_received(tx: PacketView, rx: PacketView, capacity: nat)
    requires
        can_receive(tx, rx, capacity),
    ensures
        rx.received(capacity, tx.wire()) == arrived(tx, rx),
        arrived(tx, rx).wf(capacity),
        arrived(tx, rx).payload() == tx.payload(),
        arrived(tx, rx).wire() == tx.wire(),
        forall|n: int|
            1 <= n < tx.wire().len() ==> (#[trigger] rx.received(capacity, tx.wire().take(n))).status
                == Status::PacketBuilding,
{
    let w = tx.wire();
    lemma_wire_bytes(tx);
    let end = FLEM_HEADER_SIZE + tx.length;
    assert(w.take(end as int) == w);
    assert(w.drop_last() == w.take(end - 1));
    lemma_heading_received(tx, rx, capacity);
    lemma_u16_le_of_bytes(tx.length);
    assert(arrived(tx, rx).payload() =~= tx.payload());
    assert(arrived(tx, rx).guarded() == tx.guarded());
    if tx.length == 0 {
        let last = PacketView { length: 0, data_length_counter: 0, ..heading(tx, rx) };
        assert(last.payload() =~= tx.payload());
        assert(last.guarded() == tx.guarded());
        assert(arrived(tx, rx).data =~= rx.data);
    } else {
        lemma_payload_received(tx, rx, capacity, tx.length - 1);
        let before = loading(tx, rx, tx.length - 1);
        let filled = PacketView {
            data: before.data.update(tx.length - 1, tx.data[tx.length - 1]),
            data_length_counter: tx.length as usize,
            ..before
        };
        assert(filled.data =~= arrived(tx, rx).data);
        assert(filled.payload() =~= tx.payload());
        assert(filled.guarded() == tx.guarded());
    }
    assert forall|n: int| 1 <= n < w.len() implies (#[trigger] rx.received(
        capacity,
        w.take(n),
    )).status == Status::PacketBuilding by {
        if n >= FLEM_HEADER_SIZE {
            lemma_payload_received(tx, rx, capacity, n - FLEM_HEADER_SIZE);
        }
    }
}

/// Whatever a finalized packet carries, a receiver that waits for a header
/// and has room for the payload receives it: fed the bytes of the packet, it
/// reports `PacketReceived` at the last of them and `PacketBuilding` before,
/// and then holds the payload, the request, the response and the length of
/// the packet.
pub proof fn law_round_trip(tx: PacketView, rx: PacketView, capacity: nat)
    requires
        tx.finalized(),
        tx.length <= tx.data.len(),
        tx.length <= capacity,
        rx.wf(capacity),
        rx.internal_counter == 0,
    ensures
        rx.received(capacity, tx.wire()).status == Status::PacketReceived,
        rx.received(capacity, tx.wire()).payload() == tx.payload(),
        rx.received(capacity, tx.wire()).length == tx.length,
        rx.received(capacity, tx.wire()).request == tx.request,
        rx.received(capacity, tx.wire()).response == tx.response,
        rx.received(capacity, tx.wire()).checksum == tx.checksum,
        rx.received(capacity, tx.wire()).data_length_counter == tx.length,
        forall|n: int|
            1 <= n < tx.wire().len() ==> (#[trigger] rx.received(capacity, tx.wire().take(n))).status
                == Status::PacketBuilding,
{
    law_frame_received(tx, rx, capacity);
}

/// The packet `tx` with the byte at position `at` of its bytes on the wire
/// replaced by `byte`, for a position in the request, in the response or in
/// the payload.
pub open spec fn tampered(tx: PacketView, at: int, byte: u8) -> PacketView {
    if at == 4 {
        PacketView { request: u16_le(byte, high_byte(tx.request)), ..tx }
    } else if at == 5 {
        PacketView { request: u16_le(low_byte(tx.request), byte), ..tx }
    } else if at == 6 {
        PacketView { response: u16_le(byte, high_byte(tx.response)), ..tx }
    } else if at == 7 {
        PacketView { response: u16_le(low_byte(tx.response), byte), ..tx }
    } else {
        PacketView { data: tx.data.update(at - FLEM_HEADER_SIZE, byte), ..tx }
    }
}

/// A change of one byte of the request, of the response or of the payload
/// on the way is found out: the receiver reports `ChecksumError` at the
/// last byte of the frame, whatever the byte was changed to.
pub proof fn law_corruption_detected(
    tx: PacketView,
    rx: PacketView,
    capacity: nat,
    at: int,
    byte: u8,
)
    requires
        tx.finalized(),
        tx.length <= tx.data.len(),
        tx.length <= capacity,
        rx.wf(capacity),
        rx.internal_counter == 0,
        4 <= at < 8 || FLEM_HEADER_SIZE <= at < tx.wire().len(),
        byte != tx.wire()[at],
    ensures
        rx.received(capacity, tx.wire().update(at, byte)).status == Status::ChecksumError,
        forall|n: int|
            1 <= n < tx.wire().len() ==> (#[trigger] rx.received(
                capacity,
                tx.wire().update(at, byte).take(n),
            )).status == Status::PacketBuilding,
{
    let bad = tampered(tx, at, byte);
    lemma_wire_bytes(tx);
    lemma_wire_bytes(bad);
    lemma_bytes_of_u16_le(byte, high_byte(tx.request));
    lemma_bytes_of_u16_le(low_byte(tx.request), byte);
    lemma_bytes_of_u16_le(byte, high_byte(tx.response));
    lemma_bytes_of_u16_le(low_byte(tx.response), byte);
    assert(bad.payload() =~= if at >= FLEM_HEADER_SIZE {
        tx.payload().update(at - FLEM_HEADER_SIZE, byte)
    } else {
        tx.payload()
    });
    assert(bad.guarded() =~= tx.guarded().update(at - 4, byte));
    assert(bad.wire() =~= tx.wire().update(at, byte));
    assert(tx.guarded()[at - 4] == tx.wire()[at]);
    lemma_crc16_detects_change(tx.guarded(), at - 4, byte);
    law_frame_received(bad, rx, capacity);
}

/// No two neighbours in `bytes` are both the header byte.
pub open spec fn no_header_in(bytes: Seq<u8>) -> bool {
    forall|i: int| 0 <= i < bytes.len() - 1 ==> !(#[trigger] bytes[i] == 0x55 && bytes[i + 1] == 0x55)
}

/// A receiver that waits for a header goes on waiting as long as no two
/// header bytes arrive in a row. It reports `HeaderBytesNotFound` for every
/// byte but a header byte that may be the first of two, never
/// `PacketReceived`, and nothing in it changes but the header field, the
/// counter and the status. It stands at the start unless the last byte
/// was a header byte.
pub proof fn law_garbage_keeps_hunting(rx: PacketView, capacity: nat, bytes: Seq<u8>)
    requires
        rx.wf(capacity),
        rx.internal_counter == 0,
        no_header_in(bytes),
    ensures
        ({
            let now = rx.received(capacity, bytes);
            &&& now.wf(capacity)
            &&& now == PacketView {
                header: now.header,
                internal_counter: now.internal_counter,
                status: now.status,
                ..rx
            }
            &&& now.internal_counter == (if bytes.len() > 0 && bytes.last() == 0x55 {
                1u32
            } else {
                0u32
            })
            &&& bytes.len() > 0 ==> now.status == (if bytes.last() == 0x55 {
                Status::PacketBuilding
            } else {
                Status::HeaderBytesNotFound
            })
        }),
        forall|n: int|
            1 <= n <= bytes.len() ==> (#[trigger] rx.received(capacity, bytes.take(n))).status
                != Status::PacketReceived,
    decreases bytes.len(),
{
    if bytes.len() > 0 {
        let front = bytes.drop_last();
        assert(no_header_in(front)) by {
            assert forall|i: int| 0 <= i < front.len() - 1 implies !(#[trigger] front[i] == 0x55
                && front[i + 1] == 0x55) by {
                assert(!(bytes[i] == 0x55 && bytes[i + 1] == 0x55));
            }
        }
        law_garbage_keeps_hunting(rx, capacity, front);
        if front.len() > 0 {
            assert(!(bytes[front.len() - 1] == 0x55 && bytes[front.len() - 1 + 1] == 0x55));
        }
        assert forall|n: int| 1 <= n <= bytes.len() implies (#[trigger] rx.received(
            capacity,
            bytes.take(n),
        )).status != Status::PacketReceived by {
            if n == bytes.len() {
                assert(bytes.take(n) == bytes);
            } else {
                assert(bytes.take(n) == front.take(n));
            }
        }
    }
}

/// Taking in a byte keeps a receiver well formed.
pub proof fn lemma_constructed_wf(rx: PacketView, capacity: nat, byte: u8)
    requires
        rx.wf(capacity),
    ensures
        rx.constructed(capacity, byte).wf(capacity),
{
}

/// Taking in bytes keeps a receiver well formed.
pub proof fn lemma_received_wf(rx: PacketView, capacity: nat, bytes: Seq<u8>)
    requires
        rx.wf(capacity),
    ensures
        rx.received(capacity, bytes).wf(capacity),
    decreases bytes.len(),
{
    if bytes.len() > 0 {
        lemma_received_wf(rx, capacity, bytes.drop_last());
        lemma_constructed_wf(rx.received(capacity, bytes.drop_last()), capacity, bytes.last());
    }
}

/// Whatever came before, a receiver that stands at the start when a
/// finalized packet begins to arrive receives that packet. So it does after
/// any bytes without two header bytes in a row that do not end in a header
/// byte.
pub proof fn law_resynchronizes(tx: PacketView, rx: PacketView, capacity: nat, noise: Seq<u8>)
    requires
        tx.finalized(),
        tx.length <= tx.data.len(),
        tx.length <= capacity,
        rx.wf(capacity),
        rx.received(capacity, noise).internal_counter == 0 || (rx.internal_counter == 0
            && no_header_in(noise) && (noise.len() == 0 || noise.last() != 0x55)),
    ensures
        rx.received(capacity, noise + tx.wire()).status == Status::PacketReceived,
        rx.received(capacity, noise + tx.wire()).payload() == tx.payload(),
        rx.received(capacity, noise + tx.wire()).length == tx.length,
        rx.received(capacity, noise + tx.wire()).request == tx.request,
        rx.received(capacity, noise + tx.wire()).response == tx.response,
{
    if rx.internal_counter == 0 && no_header_in(noise) {
        law_garbage_keeps_hunting(rx, capacity, noise);
    }
    lemma_received_wf(rx, capacity, noise);
    lemma_received_concat(rx, capacity, noise, tx.wire());
    law_round_trip(tx, rx.received(capacity, noise), capacity);
}

/// Bytes that fit are appended whenever they are offered, up to the last
/// byte of the buffer: the payload grows by them and nothing else changes
/// but the status. A full buffer takes no further byte: the attempt fails
/// with `PacketOverflow` and leaves the length and the payload as they were.
pub proof fn law_append_until_full(packet: PacketView, bytes: Seq<u8>, extra: Seq<u8>)
    requires
        packet.length <= packet.data.len() < 0xFFFF,
        packet.length + bytes.len() <= packet.data.len(),
        extra.len() > 0,
    ensures
        packet.appended(bytes).status == Status::Okay,
        packet.appended(bytes).length == packet.length + bytes.len(),
        packet.appended(bytes).payload() == packet.payload() + bytes,
        packet.appended(bytes).data.len() == packet.data.len(),
        packet.appended(bytes) == (PacketView {
            status: Status::Okay,
            length: packet.appended(bytes).length,
            data: packet.appended(bytes).data,
            ..packet
        }),
        packet.length + bytes.len() == packet.data.len() ==> packet.appended(bytes).appended(extra)
            == (PacketView { status: Status::PacketOverflow, ..packet.appended(bytes) }),
{
    assert(packet.appended(bytes).payload() =~= packet.payload() + bytes);
}

/// Two packets hold the same in every field and counter; their buffers are
/// of one size and may differ in what they hold.
pub open spec fn same_but_buffer(a: PacketView, b: PacketView) -> bool {
    a == (PacketView { data: a.data, ..b }) && a.data.len() == b.data.len()
}

/// Two packets that differ at most in the bytes of their buffers that no
/// payload byte has been received into.
pub open spec fn same_as_receivers(a: PacketView, b: PacketView) -> bool {
    same_but_buffer(a, b) && a.data.take(a.data_length_counter as int) == b.data.take(
        b.data_length_counter as int,
    )
}

/// Two packets that differ at most in the bytes of their buffers beyond
/// the payload.
pub open spec fn same_as_senders(a: PacketView, b: PacketView) -> bool {
    same_but_buffer(a, b) && a.payload() == b.payload()
}

/// What lies in the buffer beyond the bytes received so far has no part in
/// what a receiver does with the next byte.
pub proof fn lemma_constructed_alike(a: PacketView, b: PacketView, capacity: nat, byte: u8)
    requires
        a.wf(capacity),
        b.wf(capacity),
        same_as_receivers(a, b),
    ensures
        same_as_receivers(a.constructed(capacity, byte), b.constructed(capacity, byte)),
{
    let at = a.internal_counter;
    let count = a.data_length_counter as int;
    if at == 9 {
        let a0 = PacketView { length: 0, data_length_counter: 0, ..a };
        let b0 = PacketView { length: 0, data_length_counter: 0, ..b };
        assert(a0.payload() =~= b0.payload());
        assert(a.data.take(0) =~= b.data.take(0));
    } else if at > 9 && at < FLEM_HEADER_SIZE + capacity && count < a.length {
        let af = PacketView {
            data: a.data.update(count, byte),
            data_length_counter: (count + 1) as usize,
            ..a
        };
        let bf = PacketView {
            data: b.data.update(count, byte),
            data_length_counter: (count + 1) as usize,
            ..b
        };
        assert(af.data.take(count + 1) =~= a.data.take(count).push(byte));
        assert(bf.data.take(count + 1) =~= b.data.take(count).push(byte));
        if count + 1 == a.length {
            assert(af.payload() == bf.payload());
        }
    }
}

/// What lies in the buffer beyond the bytes received so far has no part in
/// what a receiver does with the bytes that arrive.
pub proof fn lemma_received_alike(a: PacketView, b: PacketView, capacity: nat, bytes: Seq<u8>)
    requires
        a.wf(capacity),
        b.wf(capacity),
        same_as_receivers(a, b),
    ensures
        same_as_receivers(a.received(capacity, bytes), b.received(capacity, bytes)),
    decreases bytes.len(),
{
    if bytes.len() > 0 {
        let front = bytes.drop_last();
        lemma_received_alike(a, b, capacity, front);
        lemma_received_wf(a, capacity, front);
        lemma_received_wf(b, capacity, front);
        lemma_constructed_alike(
            a.received(capacity, front),
            b.received(capacity, front),
            capacity,
            bytes.last(),
        );
    }
}

/// What lies in the buffer beyond the payload has no part in what is
/// appended, in what finalizing stores, or in the bytes that are sent.
pub proof fn lemma_sent_alike(a: PacketView, b: PacketView, bytes: Seq<u8>)
    requires
        a.length <= a.data.len() < 0xFFFF,
        same_as_senders(a, b),
    ensures
        a.appended(bytes).length <= a.appended(bytes).data.len() < 0xFFFF,
        same_as_senders(a.appended(bytes), b.appended(bytes)),
        same_as_senders(a.packed(), b.packed()),
        a.wire() == b.wire(),
{
    if bytes.len() + a.length <= a.data.len() {
        assert(a.appended(bytes).payload() =~= a.payload() + bytes);
        assert(b.appended(bytes).payload() =~= b.payload() + bytes);
    }
}

/// A lazy reset leaves no trace of the message before it. Every field and
/// counter is as in a packet that was just made. Filled and finalized alike,
/// the two send the same bytes; fed the same bytes, whatever they are, the
/// two report the same, count the same and hold the same received bytes.
pub proof fn law_lazy_reset_leaves_no_trace(
    used: PacketView,
    capacity: nat,
    request: u16,
    response: u16,
    payload: Seq<u8>,
    stream: Seq<u8>,
)
    requires
        used.wf(capacity),
    ensures
        ({
            let reset = used.cleared();
            let fresh = PacketView::blank(capacity);
            let sent_reset = (PacketView { request, response, ..reset }).appended(payload).packed();
            let sent_fresh = (PacketView { request, response, ..fresh }).appended(payload).packed();
            let got_reset = reset.received(capacity, stream);
            let got_fresh = fresh.received(capacity, stream);
            &&& reset.wf(capacity)
            &&& same_but_buffer(reset, fresh)
            &&& same_as_senders(sent_reset, sent_fresh)
            &&& sent_reset.wire() == sent_fresh.wire()
            &&& same_as_receivers(got_reset, got_fresh)
            &&& got_reset.status == Status::PacketReceived ==> got_reset.payload()
                == got_fresh.payload()
        }),
{
    let reset = used.cleared();
    let fresh = PacketView::blank(capacity);
    let load_reset = PacketView { request, response, ..reset };
    let load_fresh = PacketView { request, response, ..fresh };
    assert(load_reset.payload() =~= load_fresh.payload());
    lemma_sent_alike(load_reset, load_fresh, payload);
    lemma_sent_alike(load_reset.appended(payload), load_fresh.appended(payload), payload);
    lemma_sent_alike(
        load_reset.appended(payload).packed(),
        load_fresh.appended(payload).packed(),
        payload,
    );
    assert(reset.data.take(0) =~= fresh.data.take(0));
    lemma_received_alike(reset, fresh, capacity, stream);
    lemma_received_complete(reset, capacity, stream);
}

/// A receiver that reports `PacketReceived` after bytes that it took in
/// from its start has received as many payload bytes as the length field
/// tells.
pub proof fn lemma_received_complete(rx: PacketView, capacity: nat, bytes: Seq<u8>)
    requires
        rx.wf(capacity),
        rx.status != Status::PacketReceived,
    ensures
        rx.received(capacity, bytes).status == Status::PacketReceived ==> rx.received(
            capacity,
            bytes,
        ).data_length_counter == rx.received(capacity, bytes).length,
    decreases bytes.len(),
{
    if bytes.len() > 0 {
        lemma_received_complete(rx, capacity, bytes.drop_last());
    }
}

/// The bytes of `stream` from position `from` up to position `to` are a
/// frame for a buffer of `capacity` bytes: two header bytes, the checksum
/// of what follows it, request and response, and a length that is the
/// number of the bytes after it and no more than the capacity.
pub open spec fn frame_at(stream: Seq<u8>, from: int, to: int, capacity: nat) -> bool {
    &&& 0 <= from
    &&& from + FLEM_HEADER_SIZE <= to <= stream.len()
    &&& stream[from] == 0x55
    &&& stream[from + 1] == 0x55
    &&& u16_le(stream[from + 2], stream[from + 3]) == crc16(stream.subrange(from + 4, to))
    &&& u16_le(stream[from + 8], stream[from + 9]) <= capacity
    &&& to == from + FLEM_HEADER_SIZE + u16_le(stream[from + 8], stream[from + 9])
}

/// The receiver goes on with the frame or with its wait for a header.
pub open spec fn unfinished(status: Status) -> bool {
    status == Status::PacketBuilding || status == Status::HeaderBytesNotFound
}

/// The receiver `rx` has taken in the first `taken` bytes of `stream`, and
/// what it holds is what the last of them, as many as its counter tells,
/// have brought: the beginning of a frame.
pub open spec fn tracking(rx: PacketView, stream: Seq<u8>, taken: int) -> bool {
    let at = rx.internal_counter as int;
    let from = taken - at;
    &&& 0 <= from
    &&& at >= 1 ==> stream[from] == 0x55
    &&& at == 1 ==> rx.header == 0x55
    &&& at >= 2 ==> stream[from + 1] == 0x55 && rx.header == FLEM_HEADER
    &&& at == 3 ==> rx.checksum == stream[from + 2] as u16
    &&& at >= 4 ==> rx.checksum == u16_le(stream[from + 2], stream[from + 3])
    &&& at == 5 ==> rx.request == stream[from + 4] as u16
    &&& at >= 6 ==> rx.request == u16_le(stream[from + 4], stream[from + 5])
    &&& at == 7 ==> rx.response == stream[from + 6] as u16
    &&& at >= 8 ==> rx.response == u16_le(stream[from + 6], stream[from + 7])
    &&& at >= 9 ==> rx.length_low == stream[from + 8]
    &&& at >= 10 ==> {
        &&& rx.length == u16_le(stream[from + 8], stream[from + 9])
        &&& rx.data_length_counter == at - FLEM_HEADER_SIZE
        &&& rx.data_length_counter < rx.length
        &&& rx.data.take(rx.data_length_counter as int) == stream.subrange(
            from + FLEM_HEADER_SIZE,
            taken,
        )
    }
}

/// The receiver that has taken in a whole frame holds what the frame that
/// began at position `from` of `stream` and ended with its last byte carried.
pub open spec fn holds_frame(rx: PacketView, stream: Seq<u8>, from: int) -> bool {
    &&& rx.header == FLEM_HEADER
    &&& rx.checksum == u16_le(stream[from + 2], stream[from + 3])
    &&& rx.request == u16_le(stream[from + 4], stream[from + 5])
    &&& rx.response == u16_le(stream[from + 6], stream[from + 7])
    &&& rx.length == u16_le(stream[from + 8], stream[from + 9])
    &&& rx.payload() == stream.subrange(from + FLEM_HEADER_SIZE, stream.len() as int)
    &&& rx.wire() == stream.skip(from)
}

/// A receiver that holds the beginning of a frame still does after a byte
/// that does not end the frame, and holds a whole frame after a byte for
/// which it reports `PacketReceived`.
proof fn lemma_tracking_step(rx: PacketView, capacity: nat, stream: Seq<u8>, taken: int)
    requires
        rx.wf(capacity),
        0 <= taken < stream.len(),
        tracking(rx, stream, taken),
    ensures
        ({
            let next = rx.constructed(capacity, stream[taken]);
            let from = taken - rx.internal_counter;
            &&& unfinished(next.status) ==> tracking(next, stream, taken + 1)
            &&& next.status == Status::PacketReceived ==> {
                &&& frame_at(stream.take(taken + 1), from, taken + 1, capacity)
                &&& holds_frame(next, stream.take(taken + 1), from)
            }
        }),
{
    let byte = stream[taken];
    let next = rx.constructed(capacity, byte);
    let at = rx.internal_counter as int;
    let from = taken - at;
    let upto = stream.take(taken + 1);
    if at == 1 {
        lemma_or_shift_is_u16_le(0x55, 0x55);
    } else if at == 3 {
        lemma_or_shift_is_u16_le(stream[from + 2], byte);
    } else if at == 5 {
        lemma_or_shift_is_u16_le(stream[from + 4], byte);
    } else if at == 7 {
        lemma_or_shift_is_u16_le(stream[from + 6], byte);
    } else if at == 9 {
        if next.status == Status::PacketBuilding {
            assert(next.data.take(0) =~= stream.subrange(from + FLEM_HEADER_SIZE, taken + 1));
        }
        if next.status == Status::PacketReceived {
            assert(next.payload() =~= upto.subrange(from + FLEM_HEADER_SIZE, taken + 1));
            lemma_frame_bytes(next, upto, from);
        }
    } else if at >= 10 {
        let count = rx.data_length_counter as int;
        assert(rx.data.update(count, byte).take(count + 1) =~= rx.data.take(count).push(byte));
        assert(stream.subrange(from + FLEM_HEADER_SIZE, taken + 1) =~= stream.subrange(
            from + FLEM_HEADER_SIZE,
            taken,
        ).push(byte));
        if next.status == Status::PacketReceived {
            assert(upto.subrange(from + FLEM_HEADER_SIZE, taken + 1) =~= stream.subrange(
                from + FLEM_HEADER_SIZE,
                taken + 1,
            ));
            assert(next.payload() =~= next.data.take(count + 1));
            lemma_frame_bytes(next, upto, from);
        }
    }
}

/// A packet whose fields and payload are the bytes of `stream` from
/// position `from` to the end has those bytes as its bytes on the wire.
proof fn lemma_frame_bytes(rx: PacketView, stream: Seq<u8>, from: int)
    requires
        0 <= from,
        from + FLEM_HEADER_SIZE + rx.length == stream.len(),
        rx.length <= rx.data.len(),
        stream[from] == 0x55,
        stream[from + 1] == 0x55,
        rx.header == FLEM_HEADER,
        rx.checksum == u16_le(stream[from + 2], stream[from + 3]),
        rx.request == u16_le(stream[from + 4], stream[from + 5]),
        rx.response == u16_le(stream[from + 6], stream[from + 7]),
        rx.length == u16_le(stream[from + 8], stream[from + 9]),
        rx.payload() == stream.subrange(from + FLEM_HEADER_SIZE, stream.len() as int),
    ensures
        rx.wire() == stream.skip(from),
        rx.guarded() == stream.subrange(from + 4, stream.len() as int),
{
    lemma_bytes_of_u16_le(stream[from + 2], stream[from + 3]);
    lemma_bytes_of_u16_le(stream[from + 4], stream[from + 5]);
    lemma_bytes_of_u16_le(stream[from + 6], stream[from + 7]);
    lemma_bytes_of_u16_le(stream[from + 8], stream[from + 9]);
    lemma_u16_le_of_bytes(FLEM_HEADER);
    assert(rx.guarded() =~= stream.subrange(from + 4, stream.len() as int));
    assert(rx.wire() =~= stream.skip(from));
}

/// As long as a receiver that waited for a header has reported nothing but
/// progress and missing headers, it holds the beginning of a frame.
proof fn lemma_tracking(rx: PacketView, capacity: nat, stream: Seq<u8>, taken: int)
    requires
        rx.wf(capacity),
        rx.internal_counter == 0,
        0 <= taken <= stream.len(),
        forall|n: int|
            1 <= n <= taken ==> unfinished(
                (#[trigger] rx.received(capacity, stream.take(n))).status,
            ),
    ensures
        tracking(rx.received(capacity, stream.take(taken)), stream, taken),
        rx.received(capacity, stream.take(taken)).wf(capacity),
    decreases taken,
{
    lemma_received_wf(rx, capacity, stream.take(taken));
    if taken > 0 {
        lemma_tracking(rx, capacity, stream, taken - 1);
        assert(stream.take(taken).drop_last() == stream.take(taken - 1));
        lemma_tracking_step(rx.received(capacity, stream.take(taken - 1)), capacity, stream, taken - 1);
    }
}

/// The position in `stream` at which the frame began that the receiver was
/// taking in when the last byte of `stream` arrived.
pub open spec fn frame_start(rx: PacketView, capacity: nat, stream: Seq<u8>) -> int {
    stream.len() - 1 - rx.received(capacity, stream.drop_last()).internal_counter
}

/// A receiver reports `PacketReceived` for a frame alone. If a receiver that
/// waited for a header, and has since gone on without an error other than
/// `HeaderBytesNotFound`, reports `PacketReceived`, then the last bytes that
/// it took in are a frame: two header bytes, the checksum of the rest,
/// request, response, length and as many payload bytes as the length tells.
/// The receiver holds the fields and the payload of that frame. So no
/// reception rests on two first bytes that are not both header bytes.
pub proof fn law_reception_is_sound(rx: PacketView, capacity: nat, stream: Seq<u8>)
    requires
        rx.wf(capacity),
        rx.internal_counter == 0,
        stream.len() > 0,
        forall|n: int|
            1 <= n < stream.len() ==> unfinished(
                (#[trigger] rx.received(capacity, stream.take(n))).status,
            ),
        rx.received(capacity, stream).status == Status::PacketReceived,
    ensures
        frame_at(stream, frame_start(rx, capacity, stream), stream.len() as int, capacity),
        holds_frame(
            rx.received(capacity, stream),
            stream,
            frame_start(rx, capacity, stream),
        ),
        !(stream[0] == 0x55 && stream[1] == 0x55) ==> frame_start(rx, capacity, stream) > 0,
{
    let last = stream.len() - 1;
    lemma_tracking(rx, capacity, stream, last);
    assert(stream.take(last) == stream.drop_last());
    assert(stream.take(last + 1) == stream);
    lemma_tracking_step(rx.received(capacity, stream.drop_last()), capacity, stream, last);
}

} // verus!
