use airscreen::client::quic_h264_client::{encode_rgb_frame, new_encoder, rgb_to_i420};

#[test]
fn encoding_a_frame_gives_a_bitstream() {
    let mut encoder = new_encoder().ok().unwrap();
    let data = vec![128u8; 16 * 16 * 3];
    let bytes = encode_rgb_frame(&mut encoder, &data, 16, 16).ok().unwrap();
    assert!(!bytes.is_empty());
    assert_eq!(&bytes[0..4], &[0, 0, 0, 1]);
}

#[test]
fn red_frame_converts_to_exact_i420_bytes() {
    let data = [255u8, 0, 0].repeat(4);
    let yuv = rgb_to_i420(&data, 2, 2);
    assert_eq!(yuv, vec![81, 81, 81, 81, 90, 239]);
}

#[test]
fn chroma_comes_from_rounded_block_means() {
    // Two 2x2 blocks: the left one black, the right one white.
    let mut data = Vec::new();
    for _row in 0..2 {
        data.extend_from_slice(&[0, 0, 0, 0, 0, 0, 255, 255, 255, 255, 255, 255]);
    }
    let yuv = rgb_to_i420(&data, 4, 2);
    assert_eq!(&yuv[0..8], &[16, 16, 235, 235, 16, 16, 235, 235]);
    assert_eq!(&yuv[8..10], &[128, 128]);
    assert_eq!(&yuv[10..12], &[128, 128]);
}

#[test]
fn first_frame_opens_with_a_sequence_parameter_set() {
    let mut encoder = new_encoder().ok().unwrap();
    let data = vec![40u8; 32 * 16 * 3];
    let bytes = encode_rgb_frame(&mut encoder, &data, 32, 16).ok().unwrap();
    assert_eq!(&bytes[0..4], &[0, 0, 0, 1]);
    assert_eq!(bytes[4] & 0x1f, 7);
}
