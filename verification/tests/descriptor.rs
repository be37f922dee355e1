use flem::data_id::{FLEM_ID_NAME_SIZE, FLEM_ID_SIZE};
use flem::DataId;

fn name_bytes(id: &DataId) -> Vec<u8> {
    id.get_name().iter().map(|c| *c as u8).collect()
}

#[test]
fn descriptor_round_trips() {
    let id = DataId::new("abc", 1, 2, 3, 64);
    let image = id.as_u8_array();
    let back = DataId::from(&image).unwrap();
    assert_eq!(back.get_major(), 1);
    assert_eq!(back.get_minor(), 2);
    assert_eq!(back.get_patch(), 3);
    assert_eq!(back.get_max_packet_size(), 64);
    let mut expected = vec![0u8; FLEM_ID_NAME_SIZE];
    expected[0] = b'a';
    expected[1] = b'b';
    expected[2] = b'c';
    assert_eq!(name_bytes(&back), expected);
}

#[test]
fn descriptor_image_layout() {
    let id = DataId::new("abc", 1, 2, 3, 0x1234);
    let image = id.as_u8_array();
    assert_eq!(image.len(), FLEM_ID_SIZE);
    assert_eq!(FLEM_ID_SIZE, 30);
    let mut expected = [0u8; 30];
    expected[0] = 1;
    expected[1] = 2;
    expected[2] = 3;
    expected[3] = 0x34;
    expected[4] = 0x12;
    expected[5] = b'a';
    expected[6] = b'b';
    expected[7] = b'c';
    assert_eq!(image, expected);
}

#[test]
fn descriptor_getters() {
    let id = DataId::new("Example Project 25 chars.", 0, 1, 0, 100);
    assert_eq!(id.get_major(), 0);
    assert_eq!(id.get_minor(), 1);
    assert_eq!(id.get_patch(), 0);
    assert_eq!(id.get_max_packet_size(), 100);
    let name: String = id.get_name().iter().collect();
    assert_eq!(name, "Example Project 25 chars.");
}

#[test]
fn descriptor_keeps_low_bits_of_packet_size() {
    let id = DataId::new("", 0, 0, 0, 0x1_0005);
    assert_eq!(id.get_max_packet_size(), 5);
    let id = DataId::new("", 0, 0, 0, 0xFFFF);
    assert_eq!(id.get_max_packet_size(), 0xFFFF);
}

#[test]
fn descriptor_empty_name_is_all_zero() {
    let id = DataId::new("", 9, 8, 7, 1);
    assert_eq!(name_bytes(&id), vec![0u8; 25]);
}

#[test]
fn descriptor_from_short_input_fills_with_zero() {
    let id = DataId::from(&[7, 8]).unwrap();
    assert_eq!(id.get_major(), 7);
    assert_eq!(id.get_minor(), 8);
    assert_eq!(id.get_patch(), 0);
    assert_eq!(id.get_max_packet_size(), 0);
    assert_eq!(name_bytes(&id), vec![0u8; 25]);

    let id = DataId::from(&[1, 2, 3, 0x40]).unwrap();
    assert_eq!(id.get_max_packet_size(), 0x40);

    let id = DataId::from(&[]).unwrap();
    assert_eq!(id.get_major(), 0);
}

#[test]
fn descriptor_from_ignores_what_follows_the_name() {
    let mut data = [0xEEu8; 40];
    data[3] = 0x00;
    data[4] = 0x01;
    let id = DataId::from(&data).unwrap();
    assert_eq!(id.get_major(), 0xEE);
    assert_eq!(id.get_max_packet_size(), 0x0100);
    assert_eq!(name_bytes(&id), vec![0xEEu8; 25]);
    assert_eq!(id.as_u8_array()[..], data[..30]);
}

#[test]
fn descriptor_accepts_any_byte_values() {
    let mut data = [0u8; 30];
    for i in 0..30 {
        data[i] = 255 - i as u8;
    }
    let id = DataId::from(&data).unwrap();
    assert_eq!(id.as_u8_array(), data);
    assert_eq!(id.get_name()[0] as u32, 250);
}

#[test]
fn descriptor_name_may_fill_the_field() {
    let id = DataId::new("0123456789012345678901234", 1, 0, 0, 30);
    let image = id.as_u8_array();
    assert_eq!(&image[5..], b"0123456789012345678901234");
}
