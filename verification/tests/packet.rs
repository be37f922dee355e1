use flem::{DataId, Packet, Status, FLEM_HEADER, FLEM_HEADER_SIZE};

/// Feeds every byte to the receiver and returns what the last call returned.
fn feed<const T: usize>(rx: &mut Packet<T>, bytes: &[u8]) -> Result<(), Status> {
    let mut last = Err(Status::PacketBuilding);
    for b in bytes {
        last = rx.construct(*b);
    }
    last
}

#[test]
fn new_packet_is_blank() {
    let mut p = Packet::<100>::new();
    assert_eq!(p.get_header(), 0);
    assert_eq!(p.get_checksum(), 0);
    assert_eq!(p.get_request(), 0);
    assert_eq!(p.get_response(), 0);
    assert_eq!(p.length(), FLEM_HEADER_SIZE);
    assert_eq!(p.get_data_length(), 0);
    assert_eq!(p.get_status(), Status::Okay);
    assert_eq!(p.get_data(), [0u8; 100]);
}

#[test]
fn length_counts_header_and_payload() {
    let mut tx = Packet::<100>::new();
    assert_eq!(tx.length(), 10);
    let data = [0u8; 100];
    assert_eq!(tx.add_data(&data), Ok(()));
    assert_eq!(tx.length(), 110);
}

#[test]
fn pack_writes_header_and_checksum() {
    let mut tx = Packet::<64>::new();
    tx.add_data(&[1, 2, 3]).unwrap();
    tx.set_request(0x000F);
    tx.set_response(1);
    assert_ne!(tx.get_header(), 0x5555);
    tx.pack();
    assert_eq!(tx.get_header(), FLEM_HEADER);
    assert_eq!(tx.get_checksum(), 0x9105);
    assert_eq!(
        tx.bytes(),
        vec![0x55, 0x55, 0x05, 0x91, 0x0F, 0x00, 0x01, 0x00, 0x03, 0x00, 1, 2, 3]
    );
}

#[test]
fn checksum_is_stored_only_on_demand() {
    let mut p = Packet::<8>::new();
    p.set_request(0x1234);
    p.set_response(0xFFFE);
    assert_eq!(p.checksum(false), 0xAFBD);
    assert_eq!(p.get_checksum(), 0);
    assert!(!p.validate());
    assert_eq!(p.checksum(true), 0xAFBD);
    assert_eq!(p.get_checksum(), 0xAFBD);
    assert!(p.validate());
    assert_eq!(p.get_header(), 0);
}

#[test]
fn checksum_covers_the_payload() {
    let mut p = Packet::<8>::new();
    p.set_request(7);
    p.set_response(1);
    p.add_data(&[0xAA, 0xBB]).unwrap();
    assert_eq!(p.checksum(false), 0x5C7F);
}

#[test]
fn round_trip_of_a_full_payload() {
    let mut tx = Packet::<64>::new();
    let mut rx = Packet::<64>::new();
    let mut data = [0u8; 64];
    for i in 0..64 {
        data[i] = (i * 3 + 1) as u8;
    }
    tx.add_data(&data).unwrap();
    tx.set_request(0xF);
    tx.pack();
    let stream = tx.bytes();
    assert_eq!(stream.len(), 74);
    for (i, b) in stream.iter().enumerate() {
        let r = rx.construct(*b);
        if i + 1 < stream.len() {
            assert_eq!(r, Err(Status::PacketBuilding));
        } else {
            assert_eq!(r, Ok(()));
        }
    }
    assert_eq!(rx.get_status(), Status::PacketReceived);
    assert_eq!(rx.get_data(), data);
    assert_eq!(rx.get_request(), 0xF);
    assert_eq!(rx.get_response(), 0);
    assert_eq!(rx.get_checksum(), tx.get_checksum());
    assert_eq!(rx.get_header(), 0x5555);
    assert_eq!(rx.length(), 74);
    assert_eq!(rx.get_data_length(), 64);
    assert_eq!(rx.bytes(), stream);
}

#[test]
fn round_trip_of_a_short_payload() {
    let mut tx = Packet::<16>::new();
    let mut rx = Packet::<32>::new();
    tx.pack_data(0x0A0B, &[9, 8, 7]).unwrap();
    assert_eq!(feed(&mut rx, &tx.bytes()), Ok(()));
    assert_eq!(rx.get_request(), 0x0A0B);
    assert_eq!(rx.get_response(), flem::response::SUCCESS);
    assert_eq!(rx.length(), 13);
    assert_eq!(&rx.get_data()[..3], &[9, 8, 7]);
}

#[test]
fn zero_length_packet_round_trips() {
    let mut tx = Packet::<8>::new();
    let mut rx = Packet::<8>::new();
    tx.pack();
    let stream = tx.bytes();
    assert_eq!(stream, vec![0x55, 0x55, 0, 0, 0, 0, 0, 0, 0, 0]);
    assert_eq!(feed(&mut rx, &stream), Ok(()));
    assert_eq!(rx.get_status(), Status::PacketReceived);
    assert_eq!(rx.length(), FLEM_HEADER_SIZE);
    assert_eq!(rx.get_data_length(), 0);
}

#[test]
fn zero_length_packet_with_request() {
    let mut tx = Packet::<0>::new();
    let mut rx = Packet::<0>::new();
    tx.set_request(flem::request::ID);
    tx.pack();
    assert_eq!(feed(&mut rx, &tx.bytes()), Ok(()));
    assert_eq!(rx.get_request(), 1);
    assert_eq!(rx.length(), 10);
}

#[test]
fn changed_byte_gives_checksum_error() {
    let mut tx = Packet::<16>::new();
    tx.pack_data(0x0102, &[10, 20, 30, 40]).unwrap();
    let stream = tx.bytes();
    for k in [4usize, 5, 6, 7, 10, 11, 12, 13] {
        for bit in 0..8 {
            let mut bad = stream.clone();
            bad[k] ^= 1 << bit;
            let mut rx = Packet::<16>::new();
            assert_eq!(feed(&mut rx, &bad), Err(Status::ChecksumError));
            assert_eq!(rx.get_status(), Status::ChecksumError);
        }
    }
}

#[test]
fn changed_checksum_gives_checksum_error() {
    let mut tx = Packet::<16>::new();
    tx.pack_data(3, &[1]).unwrap();
    let mut bad = tx.bytes();
    bad[2] ^= 0x10;
    let mut rx = Packet::<16>::new();
    assert_eq!(feed(&mut rx, &bad), Err(Status::ChecksumError));
}

#[test]
fn grown_length_field_keeps_the_receiver_waiting() {
    let mut tx = Packet::<16>::new();
    tx.pack();
    let mut bad = tx.bytes();
    bad[8] = 1;
    let mut rx = Packet::<16>::new();
    assert_eq!(feed(&mut rx, &bad), Err(Status::PacketBuilding));
}

#[test]
fn wrong_first_byte_is_no_header() {
    let mut rx = Packet::<8>::new();
    assert_eq!(rx.construct(0x00), Err(Status::HeaderBytesNotFound));
    assert_eq!(rx.get_status(), Status::HeaderBytesNotFound);
    assert_eq!(rx.construct(0x54), Err(Status::HeaderBytesNotFound));
}

#[test]
fn wrong_second_byte_is_no_header() {
    let mut rx = Packet::<8>::new();
    assert_eq!(rx.construct(0x55), Err(Status::PacketBuilding));
    assert_eq!(rx.construct(0x00), Err(Status::HeaderBytesNotFound));
    assert_eq!(rx.construct(0x55), Err(Status::PacketBuilding));
    assert_eq!(rx.construct(0x55), Err(Status::PacketBuilding));
    assert_eq!(rx.get_header(), 0x5555);
}

#[test]
fn receiver_finds_the_frame_after_noise() {
    let mut tx = Packet::<8>::new();
    tx.pack_data(5, &[1, 2, 3]).unwrap();
    let mut rx = Packet::<8>::new();
    for b in [0x00u8, 0x12, 0x55, 0x99, 0xFF, 0x54] {
        let r = rx.construct(b);
        assert!(r == Err(Status::HeaderBytesNotFound) || r == Err(Status::PacketBuilding));
        assert_ne!(rx.get_status(), Status::PacketReceived);
    }
    assert_eq!(feed(&mut rx, &tx.bytes()), Ok(()));
    assert_eq!(rx.get_request(), 5);
    assert_eq!(&rx.get_data()[..3], &[1, 2, 3]);
}

#[test]
fn add_data_fills_the_buffer_and_then_overflows() {
    let mut p = Packet::<10>::new();
    for i in 0..10u8 {
        assert_eq!(p.add_data(&[i]), Ok(()));
        assert_eq!(p.get_status(), Status::Okay);
        assert_eq!(p.length(), 11 + i as usize);
    }
    assert_eq!(p.add_data(&[0xFF]), Err(Status::PacketOverflow));
    assert_eq!(p.get_status(), Status::PacketOverflow);
    assert_eq!(p.length(), 20);
    assert_eq!(p.get_data(), [0, 1, 2, 3, 4, 5, 6, 7, 8, 9]);
    assert_eq!(p.add_data(&[]), Ok(()));
    assert_eq!(p.get_status(), Status::Okay);
}

#[test]
fn add_data_that_does_not_fit_writes_nothing() {
    let mut p = Packet::<4>::new();
    p.add_data(&[1, 2]).unwrap();
    assert_eq!(p.add_data(&[3, 4, 5]), Err(Status::PacketOverflow));
    assert_eq!(p.length(), 12);
    assert_eq!(p.get_data(), [1, 2, 0, 0]);
    assert_eq!(p.add_data(&[3, 4]), Ok(()));
    assert_eq!(p.get_data(), [1, 2, 3, 4]);
}

#[test]
fn declared_length_beyond_capacity_is_refused() {
    let mut rx = Packet::<4>::new();
    let head = [0x55u8, 0x55, 0, 0, 1, 0, 1, 0, 5];
    assert_eq!(feed(&mut rx, &head), Err(Status::PacketBuilding));
    assert_eq!(rx.construct(0), Err(Status::InvalidDataLengthDetected));
    assert_eq!(rx.get_status(), Status::InvalidDataLengthDetected);
    assert_eq!(rx.length(), 10);
    assert_eq!(rx.get_data(), [0u8; 4]);
}

#[test]
fn declared_length_with_high_byte_is_refused() {
    let mut rx = Packet::<200>::new();
    let head = [0x55u8, 0x55, 0, 0, 0, 0, 0, 0, 0x10];
    assert_eq!(feed(&mut rx, &head), Err(Status::PacketBuilding));
    assert_eq!(rx.construct(1), Err(Status::InvalidDataLengthDetected));
}

#[test]
fn bytes_after_a_finished_frame_overflow() {
    let mut tx = Packet::<4>::new();
    tx.pack_data(1, &[1, 2]).unwrap();
    let mut rx = Packet::<4>::new();
    assert_eq!(feed(&mut rx, &tx.bytes()), Ok(()));
    assert_eq!(rx.construct(0), Err(Status::PacketOverflow));
    assert_eq!(rx.get_status(), Status::PacketOverflow);
}

#[test]
fn get_byte_walks_the_frame() {
    let mut tx = Packet::<8>::new();
    tx.pack_data(0x0201, &[7, 8, 9]).unwrap();
    let stream = tx.bytes();
    tx.reset_lazy();
    tx.pack_data(0x0201, &[7, 8, 9]).unwrap();
    let mut got = Vec::new();
    for _ in 0..tx.length() {
        got.push(tx.get_byte().unwrap());
        assert_eq!(tx.get_status(), Status::Okay);
    }
    assert_eq!(got, stream);
    assert_eq!(tx.get_byte(), Err(Status::GetByteFinished));
    assert_eq!(tx.get_status(), Status::GetByteFinished);
    assert_eq!(tx.get_byte(), Ok(0x55));
}

#[test]
fn get_byte_feeds_a_receiver() {
    let mut host_tx = Packet::<100>::new();
    let mut client_rx = Packet::<100>::new();
    host_tx.reset();
    host_tx.set_request(flem::request::ID);
    host_tx.pack();
    let mut received = false;
    for _ in 0..host_tx.length() {
        let byte = host_tx.get_byte().unwrap();
        if client_rx.construct(byte).is_ok() {
            received = true;
        }
    }
    assert!(received);
    assert_eq!(client_rx.get_request(), flem::request::ID);
}

#[test]
fn pack_data_sets_success() {
    let mut p = Packet::<8>::new();
    p.set_response(77);
    assert_eq!(p.pack_data(10, &[1, 2, 3, 4]), Ok(()));
    assert_eq!(p.get_request(), 10);
    assert_eq!(p.get_response(), flem::response::SUCCESS);
    assert_eq!(p.get_header(), 0x5555);
    assert_eq!(p.length(), 14);
    assert!(p.validate());
}

#[test]
fn pack_data_overflow_leaves_packet_unfinished() {
    let mut p = Packet::<2>::new();
    assert_eq!(p.pack_data(10, &[1, 2, 3]), Err(Status::PacketOverflow));
    assert_eq!(p.get_status(), Status::PacketOverflow);
    assert_eq!(p.get_request(), 10);
    assert_eq!(p.get_response(), 0);
    assert_eq!(p.get_header(), 0);
    assert_eq!(p.length(), 10);
}

#[test]
fn pack_error_carries_the_error_code() {
    let mut p = Packet::<8>::new();
    assert_eq!(p.pack_error(0x0033, flem::response::UNKNOWN_REQUEST, &[]), Ok(()));
    assert_eq!(p.get_request(), 0x0033);
    assert_eq!(p.get_response(), 0xFFFE);
    assert_eq!(p.length(), 10);
    assert_eq!(p.get_header(), 0x5555);
    assert_eq!(p.pack_error(1, flem::response::CHECKSUM_ERROR, &[0; 9]), Err(Status::PacketOverflow));
    assert_eq!(p.get_response(), 0xFFFF);
    assert_eq!(p.get_header(), 0);
}

#[test]
fn pack_id_carries_the_descriptor() {
    let id = DataId::new("abc", 1, 2, 3, 64);
    for ascii in [true, false] {
        let mut tx = Packet::<64>::new();
        assert_eq!(tx.pack_id(&id, ascii), Ok(()));
        assert_eq!(tx.get_request(), flem::request::ID);
        assert_eq!(tx.get_response(), flem::response::SUCCESS);
        assert_eq!(tx.length(), 40);
        assert_eq!(tx.get_checksum(), 0x4BF7);
        let mut rx = Packet::<64>::new();
        assert_eq!(feed(&mut rx, &tx.bytes()), Ok(()));
        let back = DataId::from(&rx.get_data()).unwrap();
        assert_eq!(back.get_major(), 1);
        assert_eq!(back.get_minor(), 2);
        assert_eq!(back.get_patch(), 3);
        assert_eq!(back.get_max_packet_size(), 64);
        let name: String = back.get_name().iter().collect();
        assert_eq!(name.trim_end_matches('\0'), "abc");
    }
}

#[test]
fn pack_id_needs_room_for_the_descriptor() {
    let id = DataId::new("abc", 1, 2, 3, 64);
    let mut p = Packet::<29>::new();
    assert_eq!(p.pack_id(&id, false), Err(Status::PacketOverflow));
    assert_eq!(p.length(), 10);
    assert_eq!(p.get_header(), 0);
    assert_eq!(p.pack_id(&id, true), Err(Status::PacketOverflow));
    assert_eq!(p.length(), 15);
    assert_eq!(&p.get_data()[..5], &[1, 2, 3, 64, 0]);
    assert_eq!(p.get_header(), 0);
    let mut q = Packet::<4>::new();
    assert_eq!(q.pack_id(&id, true), Err(Status::PacketOverflow));
    assert_eq!(q.length(), 13);
    let mut r = Packet::<2>::new();
    assert_eq!(r.pack_id(&id, true), Err(Status::PacketOverflow));
    assert_eq!(r.length(), 12);
    let mut s = Packet::<30>::new();
    assert_eq!(s.pack_id(&id, true), Ok(()));
    assert_eq!(s.length(), 40);
}

#[test]
fn reset_lazy_keeps_the_buffer() {
    let mut p = Packet::<4>::new();
    p.pack_data(9, &[1, 2, 3]).unwrap();
    p.get_byte().unwrap();
    p.reset_lazy();
    assert_eq!(p.get_header(), 0);
    assert_eq!(p.get_checksum(), 0);
    assert_eq!(p.get_request(), 0);
    assert_eq!(p.get_response(), 0);
    assert_eq!(p.length(), 10);
    assert_eq!(p.get_data_length(), 0);
    assert_eq!(p.get_status(), Status::Okay);
    assert_eq!(p.get_data(), [1, 2, 3, 0]);
    assert_eq!(p.get_byte(), Ok(0));
}

#[test]
fn reset_clears_the_buffer() {
    let mut p = Packet::<4>::new();
    p.pack_data(9, &[1, 2, 3]).unwrap();
    p.reset();
    assert_eq!(p.get_data(), [0u8; 4]);
    assert_eq!(p.length(), 10);
    assert_eq!(p.get_status(), Status::Okay);
    assert_eq!(p.get_header(), 0);
}

#[test]
fn lazily_reset_packet_behaves_as_a_new_one() {
    let mut used_tx = Packet::<16>::new();
    let mut used_rx = Packet::<16>::new();
    used_tx.pack_data(0x7777, &[0xEE; 16]).unwrap();
    assert_eq!(feed(&mut used_rx, &used_tx.bytes()), Ok(()));
    used_tx.reset_lazy();
    used_rx.reset_lazy();

    let mut new_tx = Packet::<16>::new();
    let mut new_rx = Packet::<16>::new();
    for tx in [&mut used_tx, &mut new_tx] {
        tx.add_data(&[1, 2, 3]).unwrap();
        tx.pack();
    }
    assert_eq!(used_tx.bytes(), new_tx.bytes());
    assert_eq!(used_tx.length(), new_tx.length());
    assert_eq!(used_tx.get_status(), new_tx.get_status());

    let stream = new_tx.bytes();
    for b in stream.iter() {
        assert_eq!(used_rx.construct(*b), new_rx.construct(*b));
        assert_eq!(used_rx.get_status(), new_rx.get_status());
        assert_eq!(used_rx.length(), new_rx.length());
        assert_eq!(used_rx.get_data_length(), new_rx.get_data_length());
    }
    assert_eq!(used_rx.get_status(), Status::PacketReceived);
    assert_eq!(used_rx.bytes(), new_rx.bytes());
}

#[test]
fn receiver_has_a_frame_only_after_its_last_byte() {
    let mut tx = Packet::<8>::new();
    tx.pack_data(2, &[5, 6, 7, 8]).unwrap();
    let stream = tx.bytes();
    let mut rx = Packet::<8>::new();
    for b in &stream[..stream.len() - 1] {
        assert_eq!(rx.construct(*b), Err(Status::PacketBuilding));
    }
    assert_eq!(rx.get_data_length(), 3);
    assert_eq!(rx.construct(stream[stream.len() - 1]), Ok(()));
    assert_eq!(rx.get_data_length(), 4);
}

#[test]
fn packets_are_copied_by_value() {
    let mut a = Packet::<4>::new();
    a.add_data(&[1]).unwrap();
    let mut b = a;
    b.add_data(&[2]).unwrap();
    assert_eq!(a.length(), 11);
    assert_eq!(b.length(), 12);
}

#[test]
fn lone_header_byte_before_a_frame_misleads_the_receiver() {
    let mut tx = Packet::<8>::new();
    tx.pack_data(5, &[1, 2, 3]).unwrap();
    let mut rx = Packet::<8>::new();
    assert_eq!(rx.construct(0x55), Err(Status::PacketBuilding));
    let mut seen = false;
    for b in tx.bytes() {
        if rx.construct(b).is_ok() {
            seen = true;
        }
    }
    assert!(!seen);
    assert_ne!(rx.get_status(), Status::PacketReceived);
}

#[test]
fn frame_behind_wrong_first_bytes_is_received() {
    let mut tx = Packet::<8>::new();
    tx.pack_data(5, &[1, 2, 3]).unwrap();
    let mut stream = vec![0x00u8];
    stream.extend(tx.bytes());
    let mut rx = Packet::<8>::new();
    assert_eq!(feed(&mut rx, &stream[..stream.len() - 1]), Err(Status::PacketBuilding));
    assert_eq!(rx.construct(stream[stream.len() - 1]), Ok(()));
    assert_eq!(rx.bytes(), &stream[1..]);
}

#[test]
fn received_packet_holds_the_frame_that_arrived() {
    let frame = [0x55u8, 0x55, 0x05, 0x91, 0x0F, 0x00, 0x01, 0x00, 0x03, 0x00, 1, 2, 3];
    let mut rx = Packet::<3>::new();
    assert_eq!(feed(&mut rx, &frame), Ok(()));
    assert_eq!(rx.get_header(), 0x5555);
    assert_eq!(rx.get_checksum(), 0x9105);
    assert_eq!(rx.get_request(), 0x000F);
    assert_eq!(rx.get_response(), 0x0001);
    assert_eq!(rx.length(), 13);
    assert_eq!(rx.get_data(), [1, 2, 3]);
    assert_eq!(rx.bytes(), frame);
}

#[test]
fn length_is_kept_within_capacity_while_a_frame_arrives() {
    let mut rx = Packet::<4>::new();
    let head = [0x55u8, 0x55, 0, 0, 0, 0, 0, 0, 0xC8];
    assert_eq!(feed(&mut rx, &head), Err(Status::PacketBuilding));
    assert_eq!(rx.length(), 10);
    assert_eq!(rx.construct(0x00), Err(Status::InvalidDataLengthDetected));
    assert_eq!(rx.length(), 10);
    assert_eq!(rx.bytes().len(), 10);
}

#[test]
fn packet_for_the_largest_capacity() {
    let mut p = Packet::<65534>::new();
    assert_eq!(p.add_data(&[7u8; 65534]), Ok(()));
    assert_eq!(p.length(), 65544);
    assert_eq!(p.add_data(&[1]), Err(Status::PacketOverflow));
    p.pack();
    let mut rx = Packet::<65534>::new();
    assert_eq!(feed(&mut rx, &p.bytes()), Ok(()));
    assert_eq!(rx.get_data_length(), 65534);
}
