use airscreen::utils::pixel_format_utils::rgba8_to_rgb;
use airscreen::utils::pw_pixel_format_utils::{convert_to_rgb, convert_to_yuv420, VideoFormat};

fn same(a: u8, b: u8, c: u8) -> (u8, u8, u8) {
    (a, b, c)
}

#[test]
fn rgba8_drops_alpha() {
    let rgba = [1, 2, 3, 255, 4, 5, 6, 254];
    assert_eq!(rgba8_to_rgb(&rgba, 2, 1), vec![1, 2, 3, 4, 5, 6]);
}

#[test]
fn rgba8_last_alpha_may_be_missing() {
    let rgba = [1, 2, 3, 255, 4, 5, 6];
    assert_eq!(rgba8_to_rgb(&rgba, 1, 2), vec![1, 2, 3, 4, 5, 6]);
}

#[test]
fn rgba8_empty_frame() {
    assert_eq!(rgba8_to_rgb(&[], 0, 5), Vec::<u8>::new());
}

#[test]
fn rgb_is_copied_and_padded() {
    let src = [1, 2, 3, 4, 5, 6, 7];
    assert_eq!(convert_to_rgb(VideoFormat::RGB, 2, 1, &src, same), vec![1, 2, 3, 4, 5, 6]);
    assert_eq!(convert_to_rgb(VideoFormat::RGB, 3, 1, &src, same), vec![1, 2, 3, 4, 5, 6, 7, 0, 0]);
    assert_eq!(convert_to_rgb(VideoFormat::Other, 1, 1, &[9], same), vec![9, 0, 0]);
}

#[test]
fn rgba_and_rgbx_drop_the_fourth_byte() {
    let src = [1, 2, 3, 4, 5, 6, 7, 8];
    assert_eq!(convert_to_rgb(VideoFormat::RGBA, 2, 1, &src, same), vec![1, 2, 3, 5, 6, 7]);
    assert_eq!(convert_to_rgb(VideoFormat::RGBx, 2, 1, &src, same), vec![1, 2, 3, 5, 6, 7]);
    assert_eq!(convert_to_rgb(VideoFormat::RGBx, 3, 1, &src, same), vec![1, 2, 3, 5, 6, 7]);
    assert_eq!(convert_to_rgb(VideoFormat::RGBx, 1, 1, &src, same), vec![1, 2, 3]);
}

#[test]
fn bgrx_and_bgr_are_reordered() {
    let src = [1, 2, 3, 4, 5, 6, 7, 8];
    assert_eq!(convert_to_rgb(VideoFormat::BGRx, 2, 1, &src, same), vec![3, 2, 1, 7, 6, 5]);
    assert_eq!(convert_to_rgb(VideoFormat::BGR, 2, 1, &src, same), vec![3, 2, 1, 6, 5, 4]);
    assert_eq!(convert_to_rgb(VideoFormat::BGR, 3, 1, &src, same), vec![3, 2, 1, 6, 5, 4]);
}

#[test]
fn yuy2_gives_two_pixels_per_group() {
    let src = [10, 20, 11, 30, 12, 21, 13, 31];
    assert_eq!(
        convert_to_rgb(VideoFormat::YUY2, 4, 1, &src, same),
        vec![10, 20, 30, 11, 20, 30, 12, 21, 31, 13, 21, 31]
    );
    assert_eq!(
        convert_to_rgb(VideoFormat::YUY2, 3, 1, &src, same),
        vec![10, 20, 30, 11, 20, 30, 12, 21, 31]
    );
    assert_eq!(convert_to_rgb(VideoFormat::YUY2, 4, 1, &src[..7], same), vec![10, 20, 30, 11, 20, 30]);
}

#[test]
fn yuv_pixel_function_is_applied() {
    let src = [100, 128, 110, 128];
    let out = convert_to_rgb(VideoFormat::YUY2, 2, 1, &src, |y, u, v| {
        (y.wrapping_add(1), u.wrapping_sub(v), v / 2)
    });
    assert_eq!(out, vec![101, 0, 64, 111, 0, 64]);
}

#[test]
fn i420_uses_the_chroma_of_each_block() {
    // 3x2 frame: Y plane 6 bytes, chroma planes 2x1 bytes each.
    let src = [1, 2, 3, 4, 5, 6, 50, 51, 60, 61];
    assert_eq!(
        convert_to_rgb(VideoFormat::I420, 3, 2, &src, same),
        vec![1, 50, 60, 2, 50, 60, 3, 51, 61, 4, 50, 60, 5, 50, 60, 6, 51, 61]
    );
}

#[test]
fn short_i420_is_black() {
    let src = [1, 2, 3, 4, 5, 6, 50, 51, 60];
    assert_eq!(convert_to_rgb(VideoFormat::I420, 3, 2, &src, same), vec![0; 18]);
}

#[test]
fn i420_is_passed_through_and_padded() {
    let src = [1, 2, 3, 4, 5, 6];
    assert_eq!(convert_to_yuv420(VideoFormat::I420, 2, 2, &src, same), vec![1, 2, 3, 4, 5, 6]);
    assert_eq!(convert_to_yuv420(VideoFormat::I420, 2, 2, &src[..4], same), vec![1, 2, 3, 4, 128, 128]);
    assert_eq!(
        convert_to_yuv420(VideoFormat::I420, 1, 1, &[7, 8, 9, 10], same),
        vec![7, 8, 9]
    );
}

#[test]
fn rgb_to_yuv420_averages_each_block() {
    // 3x1 RGB frame; the pixel function passes (r, g, b) through as (y, u, v).
    let src = [10, 20, 30, 11, 23, 31, 12, 40, 50];
    assert_eq!(
        convert_to_yuv420(VideoFormat::RGB, 3, 1, &src, same),
        vec![10, 11, 12, 21, 40, 30, 50]
    );
}

#[test]
fn rgb_to_yuv420_missing_pixels() {
    // 2x2 RGB frame whose source holds only the first pixel and a half.
    let src = [10, 20, 30, 11, 23];
    assert_eq!(convert_to_yuv420(VideoFormat::RGB, 2, 2, &src, same), vec![10, 0, 0, 0, 20, 30]);
    assert_eq!(convert_to_yuv420(VideoFormat::RGB, 2, 2, &[], same), vec![0, 0, 0, 0, 128, 128]);
}

#[test]
fn bgrx_to_yuv420_reads_blue_first() {
    let src = [30, 20, 10, 0, 31, 21, 11, 0];
    assert_eq!(convert_to_yuv420(VideoFormat::BGRx, 2, 1, &src, same), vec![10, 11, 20, 30]);
    let src3 = [30, 20, 10, 31, 21, 11];
    assert_eq!(convert_to_yuv420(VideoFormat::BGR, 2, 1, &src3, same), vec![10, 11, 20, 30]);
}

#[test]
fn rgba_to_yuv420_needs_the_whole_pixel() {
    let src = [10, 20, 30, 255, 12, 22, 32];
    assert_eq!(convert_to_yuv420(VideoFormat::RGBA, 2, 1, &src, same), vec![10, 0, 20, 30]);
    assert_eq!(convert_to_yuv420(VideoFormat::RGBx, 2, 1, &src, same), vec![10, 0, 20, 30]);
}

#[test]
fn yuy2_to_yuv420() {
    // 4x2 YUY2 frame: rows [Y0 U Y1 V Y2 U Y3 V].
    let src = [1, 100, 2, 200, 3, 102, 4, 202, 5, 104, 6, 204, 7, 106, 8, 206];
    assert_eq!(
        convert_to_yuv420(VideoFormat::YUY2, 4, 2, &src, same),
        vec![1, 2, 3, 4, 5, 6, 7, 8, 102, 104, 202, 204]
    );
    // The luma plane is filled in pairs; an odd last pixel stays 0.
    assert_eq!(convert_to_yuv420(VideoFormat::YUY2, 3, 1, &src[..8], same), vec![1, 2, 0, 100, 102, 200, 202]);
}

#[test]
fn unknown_format_to_yuv420_is_neutral() {
    assert_eq!(convert_to_yuv420(VideoFormat::Other, 2, 2, &[1, 2, 3], same), vec![0, 0, 0, 0, 128, 128]);
}

fn swap_rb(s: &[u8], bpp: usize) -> Vec<u8> {
    let mut t = s.to_vec();
    let mut k = 0;
    while bpp * k + bpp - 1 < s.len() {
        t.swap(bpp * k, bpp * k + 2);
        k += 1;
    }
    t
}

fn by_sum(r: u8, g: u8, b: u8) -> (u8, u8, u8) {
    (r / 2 + b / 4, g, b.wrapping_sub(r))
}

#[test]
fn bgr_to_yuv420_is_swapped_rgb() {
    let s = [10, 20, 30, 40, 50, 60, 70, 80, 90, 1, 2, 3, 9];
    assert_eq!(
        convert_to_yuv420(VideoFormat::BGR, 2, 2, &s, by_sum),
        convert_to_yuv420(VideoFormat::RGB, 2, 2, &swap_rb(&s, 3), by_sum)
    );
    assert_eq!(
        convert_to_yuv420(VideoFormat::BGRx, 3, 1, &s, by_sum),
        convert_to_yuv420(VideoFormat::RGBx, 3, 1, &swap_rb(&s, 4), by_sum)
    );
}

#[test]
fn fourth_byte_is_never_read() {
    let s = [10, 20, 30, 40, 50, 60, 70, 80];
    let t = [10, 20, 30, 0, 50, 60, 70, 255];
    let a = convert_to_yuv420(VideoFormat::RGBA, 2, 1, &s, by_sum);
    assert_eq!(a, convert_to_yuv420(VideoFormat::RGBx, 2, 1, &t, by_sum));
    assert_eq!(a, convert_to_yuv420(VideoFormat::RGBx, 2, 1, &s, by_sum));
    assert_eq!(
        convert_to_yuv420(VideoFormat::BGRx, 2, 1, &s, by_sum),
        convert_to_yuv420(VideoFormat::BGRx, 2, 1, &t, by_sum)
    );
}

#[test]
fn bgr_twice_restores_the_frame() {
    let s = [1, 2, 3, 4, 5, 6, 7];
    let once = convert_to_rgb(VideoFormat::BGR, 2, 1, &s, same);
    assert_eq!(convert_to_rgb(VideoFormat::BGR, 2, 1, &once, same), vec![1, 2, 3, 4, 5, 6]);
}

#[test]
fn gray_frame_survives_the_round_trip() {
    let to_yuv = |r: u8, g: u8, b: u8| if r == g && g == b { (r, 128, 128) } else { (0, 0, 0) };
    let to_rgb = |y: u8, u: u8, v: u8| if u == 128 && v == 128 { (y, y, y) } else { (1, 1, 1) };
    let s = [5, 5, 5, 9, 9, 9, 200, 200, 200, 0, 0, 0, 77, 77, 77, 13, 13, 13];
    let yuv = convert_to_yuv420(VideoFormat::RGB, 3, 2, &s, to_yuv);
    assert_eq!(convert_to_rgb(VideoFormat::I420, 3, 2, &yuv, to_rgb), s.to_vec());
}
