use airscreen::header::{Header, HEADER_SIZE};

#[test]
fn header_size_is_twelve_bytes() {
    assert_eq!(HEADER_SIZE, 12);
}

#[test]
fn header_encodes_little_endian_fields_in_order() {
    let header = Header { width: 1920, height: 1080, payload_len: 12345 };
    let bytes: [u8; HEADER_SIZE] = header.into();
    assert_eq!(bytes, [0x80, 0x07, 0, 0, 0x38, 0x04, 0, 0, 0x39, 0x30, 0, 0]);
}

#[test]
fn header_decodes_little_endian_fields() {
    let bytes: [u8; HEADER_SIZE] = [1, 2, 3, 4, 5, 6, 7, 8, 0xff, 0xff, 0xff, 0xff];
    let header = Header::from(&bytes);
    assert_eq!(header.width, 0x0403_0201);
    assert_eq!(header.height, 0x0807_0605);
    assert_eq!(header.payload_len, u32::MAX);
}

#[test]
fn header_roundtrip_from_header() {
    let header = Header { width: 0xdead_beef, height: 7, payload_len: 0 };
    let bytes: [u8; HEADER_SIZE] = header.into();
    let back = Header::from(&bytes);
    assert_eq!(back.width, 0xdead_beef);
    assert_eq!(back.height, 7);
    assert_eq!(back.payload_len, 0);
}

#[test]
fn header_roundtrip_from_bytes() {
    let bytes: [u8; HEADER_SIZE] = [9, 8, 7, 6, 5, 4, 3, 2, 1, 0, 255, 128];
    let header = Header::from(&bytes);
    let back: [u8; HEADER_SIZE] = header.into();
    assert_eq!(back, bytes);
}
