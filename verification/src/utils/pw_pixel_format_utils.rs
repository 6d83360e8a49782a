//! Conversions of raw capture buffers to tightly packed RGB and to planar
//! YUV 4:2:0 (I420).
//!
//! The colour arithmetic of one pixel (RGB to YUV and back) is floating point;
//! it is handed to these functions as a pixel function. Everything else, the
//! layout of each format, which source bytes make up which pixel, what is
//! padded, skipped or averaged, is done and proved here.
use crate::utils::pixel_format_utils::{rgba8_to_rgb, rgba8_to_rgb_spec};
use vstd::prelude::*;

verus! {

/// The raw video formats a capture stream can deliver. `Other` stands for
/// every format that has no conversion of its own.
pub enum VideoFormat {
    RGB,
    RGBA,
    RGBx,
    BGRx,
    BGR,
    YUY2,
    I420,
    Other,
}

/// `f` accepts every triple of bytes and gives one result for each.
pub open spec fn is_pixel_function<F: Fn(u8, u8, u8) -> (u8, u8, u8)>(f: F) -> bool {
    &&& forall|a: u8, b: u8, c: u8| #[trigger] f.requires((a, b, c))
    &&& forall|a: u8, b: u8, c: u8, o1: (u8, u8, u8), o2: (u8, u8, u8)|
        #![trigger f.ensures((a, b, c), o1), f.ensures((a, b, c), o2)]
        f.ensures((a, b, c), o1) && f.ensures((a, b, c), o2) ==> o1 == o2
}

/// The result of the pixel function `f` on `(a, b, c)`.
pub open spec fn apply_px<F: Fn(u8, u8, u8) -> (u8, u8, u8)>(f: F, a: u8, b: u8, c: u8) -> (u8, u8, u8) {
    choose|o: (u8, u8, u8)| f.ensures((a, b, c), o)
}

/// Component `c` (0, 1 or 2) of a pixel.
pub open spec fn channel(t: (u8, u8, u8), c: int) -> u8 {
    if c == 0 {
        t.0
    } else if c == 1 {
        t.1
    } else {
        t.2
    }
}

pub open spec fn min(a: int, b: int) -> int {
    if a <= b {
        a
    } else {
        b
    }
}

/// `n / 2` rounded up: the size of a chroma plane along a side of `n` pixels.
pub open spec fn half_up(n: int) -> int {
    n / 2 + n % 2
}

/// Bytes of one chroma plane of a `w` by `h` I420 frame.
pub open spec fn chroma_plane_len(w: int, h: int) -> int {
    half_up(w) * half_up(h)
}

/// Bytes of a `w` by `h` I420 frame: the luma plane and two chroma planes.
pub open spec fn i420_len(w: int, h: int) -> int {
    w * h + 2 * chroma_plane_len(w, h)
}

/// `src[i]`, or `fill` past the end of `src`.
pub open spec fn byte_or(src: Seq<u8>, i: int, fill: u8) -> u8 {
    if i < src.len() {
        src[i]
    } else {
        fill
    }
}

/// The first `n` bytes of `src`, padded with `fill` where `src` is shorter.
pub open spec fn padded(src: Seq<u8>, n: int, fill: u8) -> Seq<u8> {
    Seq::new(n as nat, |i: int| byte_or(src, i, fill))
}

/// Number of RGB pixels that `convert_to_rgb` produces.
pub open spec fn rgb_pixel_count(format: VideoFormat, w: int, h: int, len: int) -> int {
    match format {
        VideoFormat::RGBx | VideoFormat::BGRx => min(w * h, len / 4),
        VideoFormat::BGR => min(w * h, len / 3),
        VideoFormat::YUY2 => min(w * h, 2 * (len / 4)),
        _ => w * h,
    }
}

/// Pixel `p`, as (red, green, blue), of the RGB form of a `w` by `h` frame
/// held in `src` in `format`; `f` turns (Y, U, V) bytes into RGB.
pub open spec fn rgb_pixel<F: Fn(u8, u8, u8) -> (u8, u8, u8)>(
    format: VideoFormat,
    w: int,
    h: int,
    src: Seq<u8>,
    f: F,
    p: int,
) -> (u8, u8, u8) {
    match format {
        VideoFormat::RGBA | VideoFormat::RGBx => (src[4 * p], src[4 * p + 1], src[4 * p + 2]),
        VideoFormat::BGRx => (src[4 * p + 2], src[4 * p + 1], src[4 * p]),
        VideoFormat::BGR => (src[3 * p + 2], src[3 * p + 1], src[3 * p]),
        VideoFormat::YUY2 => {
            let g = 4 * (p / 2);
            apply_px(f, src[g + 2 * (p % 2)], src[g + 1], src[g + 3])
        },
        VideoFormat::I420 => {
            if src.len() < i420_len(w, h) {
                (0, 0, 0)
            } else {
                let c = (p / w / 2) * half_up(w) + (p % w) / 2;
                apply_px(
                    f,
                    src[p],
                    src[w * h + c],
                    src[w * h + chroma_plane_len(w, h) + c],
                )
            }
        },
        _ => (byte_or(src, 3 * p, 0), byte_or(src, 3 * p + 1, 0), byte_or(src, 3 * p + 2, 0)),
    }
}

/// The tightly packed RGB form (3 bytes per pixel) of a `w` by `h` frame held
/// in `src` in `format`.
pub open spec fn rgb_frame<F: Fn(u8, u8, u8) -> (u8, u8, u8)>(
    format: VideoFormat,
    w: int,
    h: int,
    src: Seq<u8>,
    f: F,
) -> Seq<u8> {
    Seq::new(
        (3 * rgb_pixel_count(format, w, h, src.len() as int)) as nat,
        |i: int| channel(rgb_pixel(format, w, h, src, f, i / 3), i % 3),
    )
}

proof fn lemma_grid_index(r: int, c: int, rows: int, cols: int)
    requires
        0 <= r < rows,
        0 <= c < cols,
    ensures
        0 <= r * cols + c < rows * cols,
        r * cols + c < cols * rows,
        (r * cols + c) / cols == r,
        (r * cols + c) % cols == c,
{
    assert(0 <= r * cols + c < rows * cols && rows * cols == cols * rows) by (nonlinear_arith)
        requires
            0 <= r < rows,
            0 <= c < cols,
    ;
    vstd::arithmetic::div_mod::lemma_fundamental_div_mod_converse(r * cols + c, cols, r, c);
}

proof fn lemma_chroma_plane_le(w: int, h: int)
    requires
        0 <= w,
        0 <= h,
    ensures
        0 <= chroma_plane_len(w, h) <= w * h,
        0 <= half_up(w) <= w,
        0 <= half_up(h) <= h,
{
    assert(0 <= half_up(w) * half_up(h) <= w * h) by (nonlinear_arith)
        requires
            0 <= half_up(w) <= w,
            0 <= half_up(h) <= h,
    ;
}

/// Calls the pixel function `f` on `(a, b, c)`.
fn call_px<F: Fn(u8, u8, u8) -> (u8, u8, u8)>(f: &F, a: u8, b: u8, c: u8) -> (o: (u8, u8, u8))
    requires
        is_pixel_function(*f),
    ensures
        o == apply_px(*f, a, b, c),
{
    let o = f(a, b, c);
    proof {
        let w = apply_px(*f, a, b, c);
        assert(f.ensures((a, b, c), w));
    }
    o
}

/// The first `n` bytes of `src`, padded with `fill` where `src` is shorter.
fn padded_copy(src: &[u8], n: usize, fill: u8) -> (out: Vec<u8>)
    ensures
        out@ == padded(src@, n as int, fill),
{
    let mut out: Vec<u8> = Vec::new();
    let mut i: usize = 0;
    while i < n
        invariant
            i <= n,
            out@ == padded(src@, n as int, fill).subrange(0, i as int),
        decreases n - i,
    {
        if i < src.len() {
            out.push(src[i]);
        } else {
            out.push(fill);
        }
        assert(out@ =~= padded(src@, n as int, fill).subrange(0, i + 1));
        i = i + 1;
    }
    assert(out@ =~= padded(src@, n as int, fill));
    out
}

/// The pixels of a packed frame of 3- or 4-byte pixels (RGBx, BGRx or BGR),
/// reordered to RGB, as many as both `src` and the frame hold.
fn repack_pixels<F: Fn(u8, u8, u8) -> (u8, u8, u8)>(
    format: &VideoFormat,
    w: usize,
    h: usize,
    pixel_count: usize,
    src: &[u8],
    f: &F,
) -> (out: Vec<u8>)
    requires
        *format is RGBx || *format is BGRx || *format is BGR,
        pixel_count == w * h,
    ensures
        out@ == rgb_frame(*format, w as int, h as int, src@, *f),
{
    let ghost frame = rgb_frame(*format, w as int, h as int, src@, *f);
    let step: usize = match format {
        VideoFormat::BGR => 3,
        _ => 4,
    };
    let swap = match format {
        VideoFormat::RGBx => false,
        _ => true,
    };
    let mut out: Vec<u8> = Vec::new();
    let mut i: usize = 0;
    let ghost mut k: int = 0;
    while step - 1 < src.len() - i && out.len() / 3 < pixel_count
        invariant
            step == 3 || step == 4,
            *format is RGBx || *format is BGRx || *format is BGR,
            step == 3 <==> *format is BGR,
            swap <==> !(*format is RGBx),
            pixel_count == w * h,
            frame == rgb_frame(*format, w as int, h as int, src@, *f),
            i == k * step,
            i <= src@.len(),
            0 <= k <= pixel_count,
            out@.len() == 3 * k,
            out@ == frame.subrange(0, 3 * k),
            3 * k <= frame.len(),
        decreases pixel_count - k,
    {
        proof {
            if step == 3 {
                assert(i == 3 * k);
                assert(k + 1 <= src@.len() / 3);
            } else {
                assert(i == 4 * k);
                assert(k + 1 <= src@.len() / 4);
            }
            assert(k + 1 <= rgb_pixel_count(*format, w as int, h as int, src@.len() as int));
        }
        let (r, g, b) = if swap {
            (src[i + 2], src[i + 1], src[i])
        } else {
            (src[i], src[i + 1], src[i + 2])
        };
        out.push(r);
        out.push(g);
        out.push(b);
        proof {
            if *format is BGR {
                assert(i == 3 * k);
                assert(r == src@[3 * k + 2] && g == src@[3 * k + 1] && b == src@[3 * k]);
            } else if *format is BGRx {
                assert(i == 4 * k);
                assert(r == src@[4 * k + 2] && g == src@[4 * k + 1] && b == src@[4 * k]);
            } else {
                assert(i == 4 * k);
                assert(r == src@[4 * k] && g == src@[4 * k + 1] && b == src@[4 * k + 2]);
            }
            assert(rgb_pixel(*format, w as int, h as int, src@, *f, k) == (r, g, b));
            assert(frame[3 * k] == r);
            assert(frame[3 * k + 1] == g);
            assert(frame[3 * k + 2] == b);
            assert(out@ =~= frame.subrange(0, 3 * k + 3));
            k = k + 1;
        }
        i = i + step;
    }
    proof {
        if out@.len() / 3 < pixel_count {
            if step == 3 {
                assert(k == src@.len() / 3);
            } else {
                assert(k == src@.len() / 4);
            }
        }
        assert(out@ =~= frame);
    }
    out
}

/// The RGB pixels of a packed YUY2 frame: each 4-byte group `Y0 U Y1 V`
/// gives two pixels, as many as both `src` and the frame hold.
fn yuy2_to_rgb<F: Fn(u8, u8, u8) -> (u8, u8, u8)>(
    w: usize,
    h: usize,
    pixel_count: usize,
    src: &[u8],
    f: &F,
) -> (out: Vec<u8>)
    requires
        is_pixel_function(*f),
        pixel_count == w * h,
    ensures
        out@ == rgb_frame(VideoFormat::YUY2, w as int, h as int, src@, *f),
{
    let ghost frame = rgb_frame(VideoFormat::YUY2, w as int, h as int, src@, *f);
    let mut out: Vec<u8> = Vec::new();
    let mut i: usize = 0;
    let ghost mut k: int = 0;
    while 3 < src.len() - i && out.len() / 3 < pixel_count
        invariant
            is_pixel_function(*f),
            pixel_count == w * h,
            frame == rgb_frame(VideoFormat::YUY2, w as int, h as int, src@, *f),
            i == 4 * k,
            i <= src@.len(),
            0 <= k <= src@.len() / 4,
            out@.len() == 3 * min(2 * k, pixel_count as int),
            out@ == frame.subrange(0, 3 * min(2 * k, pixel_count as int)),
        decreases src@.len() - i,
    {
        let y0 = src[i];
        let u = src[i + 1];
        let y1 = src[i + 2];
        let v = src[i + 3];
        let (r0, g0, b0) = call_px(f, y0, u, v);
        let (r1, g1, b1) = call_px(f, y1, u, v);
        proof {
            assert(2 * k < pixel_count);
            assert(k + 1 <= src@.len() / 4);
            assert((2 * k) / 2 == k && (2 * k) % 2 == 0);
            assert(rgb_pixel(VideoFormat::YUY2, w as int, h as int, src@, *f, 2 * k) == (r0, g0, b0));
            assert(frame[6 * k] == r0 && frame[6 * k + 1] == g0 && frame[6 * k + 2] == b0);
        }
        out.push(r0);
        out.push(g0);
        out.push(b0);
        assert(out@ =~= frame.subrange(0, 6 * k + 3));
        if out.len() / 3 < pixel_count {
            proof {
                assert((2 * k + 1) / 2 == k && (2 * k + 1) % 2 == 1);
                assert(rgb_pixel(VideoFormat::YUY2, w as int, h as int, src@, *f, 2 * k + 1) == (
                    r1,
                    g1,
                    b1,
                ));
                assert(frame[6 * k + 3] == r1 && frame[6 * k + 4] == g1 && frame[6 * k + 5] == b1);
            }
            out.push(r1);
            out.push(g1);
            out.push(b1);
            assert(out@ =~= frame.subrange(0, 6 * k + 6));
        }
        i = i + 4;
        proof {
            k = k + 1;
        }
    }
    assert(out@ =~= frame);
    out
}

/// The RGB pixels of a planar I420 frame; all black when `src` is shorter
/// than a whole frame.
fn i420_to_rgb<F: Fn(u8, u8, u8) -> (u8, u8, u8)>(
    w: usize,
    h: usize,
    pixel_count: usize,
    src: &[u8],
    f: &F,
) -> (out: Vec<u8>)
    requires
        is_pixel_function(*f),
        pixel_count == w * h,
        3 * (w * h) <= isize::MAX,
    ensures
        out@ == rgb_frame(VideoFormat::I420, w as int, h as int, src@, *f),
{
    let ghost frame = rgb_frame(VideoFormat::I420, w as int, h as int, src@, *f);
    let y_plane_len = pixel_count;
    let uv_w = w / 2 + w % 2;
    let uv_h = h / 2 + h % 2;
    proof {
        lemma_chroma_plane_le(w as int, h as int);
    }
    let uv_plane_len = uv_w * uv_h;
    if src.len() < y_plane_len + 2 * uv_plane_len {
        let out = vec![0u8; pixel_count * 3];
        assert(out@ =~= frame);
        return out;
    }
    let mut out: Vec<u8> = Vec::new();
    let mut yy: usize = 0;
    while yy < h
        invariant
            is_pixel_function(*f),
            pixel_count == w * h,
            y_plane_len == w * h,
            uv_w == half_up(w as int),
            uv_h == half_up(h as int),
            uv_plane_len == chroma_plane_len(w as int, h as int),
            src@.len() >= i420_len(w as int, h as int),
            frame == rgb_frame(VideoFormat::I420, w as int, h as int, src@, *f),
            frame.len() == 3 * (w * h),
            yy <= h,
            yy * w <= w * h,
            out@ == frame.subrange(0, 3 * (yy * w)),
        decreases h - yy,
    {
        let mut xx: usize = 0;
        while xx < w
            invariant
                is_pixel_function(*f),
                pixel_count == w * h,
                y_plane_len == w * h,
                uv_w == half_up(w as int),
                uv_h == half_up(h as int),
                uv_plane_len == chroma_plane_len(w as int, h as int),
                src@.len() >= i420_len(w as int, h as int),
                frame == rgb_frame(VideoFormat::I420, w as int, h as int, src@, *f),
                frame.len() == 3 * (w * h),
                yy < h,
                xx <= w,
                yy * w + xx <= w * h,
                out@ == frame.subrange(0, 3 * (yy * w + xx)),
            decreases w - xx,
        {
            proof {
                lemma_grid_index(yy as int, xx as int, h as int, w as int);
                lemma_grid_index((yy / 2) as int, (xx / 2) as int, uv_h as int, uv_w as int);
            }
            let p = yy * w + xx;
            let c = (yy / 2) * uv_w + xx / 2;
            let y = src[p];
            let u = src[y_plane_len + c];
            let v = src[y_plane_len + uv_plane_len + c];
            let (r, g, b) = call_px(f, y, u, v);
            proof {
                assert(rgb_pixel(VideoFormat::I420, w as int, h as int, src@, *f, p as int) == (r, g, b));
                assert(frame[3 * p] == r && frame[3 * p + 1] == g && frame[3 * p + 2] == b);
            }
            out.push(r);
            out.push(g);
            out.push(b);
            assert(out@ =~= frame.subrange(0, 3 * (p + 1)));
            xx = xx + 1;
        }
        proof {
            assert((yy + 1) * w == yy * w + w) by (nonlinear_arith);
            assert((yy + 1) * w <= w * h) by (nonlinear_arith)
                requires
                    yy < h,
            ;
        }
        yy = yy + 1;
    }
    proof {
        assert(h * w == w * h) by (nonlinear_arith);
    }
    assert(out@ =~= frame);
    out
}

/// Converts a buffer in `format` to tightly packed RGB (3 bytes per pixel).
///
/// `src` is taken to be tightly packed (no per-line stride or padding).
/// `yuv_to_rgb` turns the Y, U and V bytes of a pixel into its red, green and
/// blue bytes. By format:
/// - RGB, and every format without a conversion of its own: the first
///   `3 * width * height` bytes of `src`, padded with zeros;
/// - RGBA: the alpha byte of each pixel dropped (see [`rgba8_to_rgb`]);
/// - RGBx, BGRx, BGR: each pixel reordered to RGB, for as many pixels as both
///   `src` and the frame hold;
/// - YUY2: two pixels per group `Y0 U Y1 V`, as many as both hold;
/// - I420: each pixel from its luma byte and the chroma bytes of its 2x2
///   block; all zeros when `src` is shorter than a whole I420 frame.
pub fn convert_to_rgb<F: Fn(u8, u8, u8) -> (u8, u8, u8)>(
    format: VideoFormat,
    width: u32,
    height: u32,
    src: &[u8],
    yuv_to_rgb: F,
) -> (out: Vec<u8>)
    requires
        is_pixel_function(yuv_to_rgb),
        3 * (width * height) <= isize::MAX,
        format is RGBA ==> {
            &&& width * height <= u32::MAX
            &&& width * height == 0 || src@.len() >= 4 * (width * height) - 1
        },
    ensures
        out@ == rgb_frame(format, width as int, height as int, src@, yuv_to_rgb),
{
    let ghost frame = rgb_frame(format, width as int, height as int, src@, yuv_to_rgb);
    let w = width as usize;
    let h = height as usize;
    let pixel_count = w * h;
    match format {
        VideoFormat::RGBA => {
            let out = rgba8_to_rgb(src, width, height);
            assert(out@ =~= frame);
            out
        },
        VideoFormat::RGBx | VideoFormat::BGRx | VideoFormat::BGR => {
            repack_pixels(&format, w, h, pixel_count, src, &yuv_to_rgb)
        },
        VideoFormat::YUY2 => yuy2_to_rgb(w, h, pixel_count, src, &yuv_to_rgb),
        VideoFormat::I420 => i420_to_rgb(w, h, pixel_count, src, &yuv_to_rgb),
        _ => {
            let out = padded_copy(src, pixel_count * 3, 0);
            assert forall|i: int| 0 <= i < out@.len() implies out@[i] == frame[i] by {
                assert(3 * (i / 3) + i % 3 == i);
            }
            assert(out@ =~= frame);
            out
        },
    }
}

/// RGB, RGBA, RGBx, BGRx or BGR: packed pixels of 3 or 4 bytes.
pub open spec fn is_packed_rgb(format: VideoFormat) -> bool {
    format is RGB || format is RGBA || format is RGBx || format is BGRx || format is BGR
}

/// Bytes per pixel of a packed RGB format.
pub open spec fn src_bpp(format: VideoFormat) -> int {
    if format is RGB || format is BGR {
        3
    } else {
        4
    }
}

/// The packed format stores blue first.
pub open spec fn is_bgr(format: VideoFormat) -> bool {
    format is BGR || format is BGRx
}

/// All the bytes that the conversion reads of pixel `p` are in `src`.
pub open spec fn pixel_present(format: VideoFormat, src: Seq<u8>, p: int) -> bool {
    src_bpp(format) * p + src_bpp(format) - 1 < src.len()
}

/// Pixel `p` of a packed RGB format, as (red, green, blue).
pub open spec fn source_rgb(format: VideoFormat, src: Seq<u8>, p: int) -> (u8, u8, u8) {
    let i = src_bpp(format) * p;
    if is_bgr(format) {
        (src[i + 2], src[i + 1], src[i])
    } else {
        (src[i], src[i + 1], src[i + 2])
    }
}

/// Number of pixels whose luma a YUY2 frame supplies: two per whole 4-byte
/// group, in pairs that fit the luma plane.
pub open spec fn yuy2_luma_count(w: int, h: int, len: int) -> int {
    2 * min(len / 4, (w * h) / 2)
}

/// Luma byte of pixel `p` of the I420 form; 0 where the source lacks it.
pub open spec fn luma<F: Fn(u8, u8, u8) -> (u8, u8, u8)>(
    format: VideoFormat,
    w: int,
    h: int,
    src: Seq<u8>,
    f: F,
    p: int,
) -> u8 {
    if format is YUY2 {
        if p < yuy2_luma_count(w, h, src.len() as int) {
            src[4 * (p / 2) + 2 * (p % 2)]
        } else {
            0
        }
    } else if pixel_present(format, src, p) {
        let t = source_rgb(format, src, p);
        apply_px(f, t.0, t.1, t.2).0
    } else {
        0
    }
}

/// The (U, V) bytes that pixel (`px`, `py`) contributes to the chroma of its
/// block; `None` when it lies outside the frame or the source lacks it.
pub open spec fn chroma_sample<F: Fn(u8, u8, u8) -> (u8, u8, u8)>(
    format: VideoFormat,
    w: int,
    h: int,
    src: Seq<u8>,
    f: F,
    py: int,
    px: int,
) -> Option<(u8, u8)> {
    if py < h && px < w {
        let p = py * w + px;
        if format is YUY2 {
            let b = (p / 2) * 4;
            if b + 3 < src.len() {
                Some((src[b + 1], src[b + 3]))
            } else {
                None
            }
        } else if pixel_present(format, src, p) {
            let t = source_rgb(format, src, p);
            let yuv = apply_px(f, t.0, t.1, t.2);
            Some((yuv.1, yuv.2))
        } else {
            None
        }
    } else {
        None
    }
}

/// The samples averaged into the chroma of block (`bx`, `by`): the four
/// pixels of the 2x2 block, or for YUY2 the first pixel of each of its rows.
pub open spec fn block_samples<F: Fn(u8, u8, u8) -> (u8, u8, u8)>(
    format: VideoFormat,
    w: int,
    h: int,
    src: Seq<u8>,
    f: F,
    by: int,
    bx: int,
) -> Seq<Option<(u8, u8)>> {
    if format is YUY2 {
        seq![
            chroma_sample(format, w, h, src, f, 2 * by, 2 * bx),
            chroma_sample(format, w, h, src, f, 2 * by + 1, 2 * bx),
        ]
    } else {
        seq![
            chroma_sample(format, w, h, src, f, 2 * by, 2 * bx),
            chroma_sample(format, w, h, src, f, 2 * by, 2 * bx + 1),
            chroma_sample(format, w, h, src, f, 2 * by + 1, 2 * bx),
            chroma_sample(format, w, h, src, f, 2 * by + 1, 2 * bx + 1),
        ]
    }
}

/// Sum of the U bytes of the present samples.
pub open spec fn sum_u(s: Seq<Option<(u8, u8)>>) -> int
    decreases s.len(),
{
    if s.len() == 0 {
        0
    } else {
        sum_u(s.drop_last()) + match s.last() {
            Some(uv) => uv.0 as int,
            None => 0,
        }
    }
}

/// Sum of the V bytes of the present samples.
pub open spec fn sum_v(s: Seq<Option<(u8, u8)>>) -> int
    decreases s.len(),
{
    if s.len() == 0 {
        0
    } else {
        sum_v(s.drop_last()) + match s.last() {
            Some(uv) => uv.1 as int,
            None => 0,
        }
    }
}

/// Number of present samples.
pub open spec fn count_present(s: Seq<Option<(u8, u8)>>) -> int
    decreases s.len(),
{
    if s.len() == 0 {
        0
    } else {
        count_present(s.drop_last()) + if s.last() is Some {
            1int
        } else {
            0
        }
    }
}

/// The rounded-down means of the U and the V bytes of the present samples;
/// 128 for each when none is present.
pub open spec fn chroma_mean(s: Seq<Option<(u8, u8)>>) -> (u8, u8) {
    if count_present(s) > 0 {
        ((sum_u(s) / count_present(s)) as u8, (sum_v(s) / count_present(s)) as u8)
    } else {
        (128, 128)
    }
}

/// The (U, V) bytes of chroma block (`bx`, `by`).
pub open spec fn block_chroma<F: Fn(u8, u8, u8) -> (u8, u8, u8)>(
    format: VideoFormat,
    w: int,
    h: int,
    src: Seq<u8>,
    f: F,
    by: int,
    bx: int,
) -> (u8, u8) {
    chroma_mean(block_samples(format, w, h, src, f, by, bx))
}

/// The I420 form of a `w` by `h` frame held in `src` in `format`; `f` turns
/// (R, G, B) bytes into (Y, U, V) bytes.
pub open spec fn yuv420_frame<F: Fn(u8, u8, u8) -> (u8, u8, u8)>(
    format: VideoFormat,
    w: int,
    h: int,
    src: Seq<u8>,
    f: F,
) -> Seq<u8> {
    let y_len = w * h;
    let uv_w = half_up(w);
    let uv_len = chroma_plane_len(w, h);
    if format is I420 {
        padded(src, i420_len(w, h), 128)
    } else if format is Other {
        Seq::new(i420_len(w, h) as nat, |i: int| if i < y_len { 0u8 } else { 128u8 })
    } else {
        Seq::new(
            i420_len(w, h) as nat,
            |i: int|
                if i < y_len {
                    luma(format, w, h, src, f, i)
                } else if i < y_len + uv_len {
                    block_chroma(format, w, h, src, f, (i - y_len) / uv_w, (i - y_len) % uv_w).0
                } else {
                    block_chroma(
                        format,
                        w,
                        h,
                        src,
                        f,
                        (i - y_len - uv_len) / uv_w,
                        (i - y_len - uv_len) % uv_w,
                    ).1
                },
        )
    }
}

/// The luma plane of the I420 form: one byte per pixel.
pub open spec fn luma_plane_spec<F: Fn(u8, u8, u8) -> (u8, u8, u8)>(
    format: VideoFormat,
    w: int,
    h: int,
    src: Seq<u8>,
    f: F,
) -> Seq<u8> {
    Seq::new((w * h) as nat, |p: int| luma(format, w, h, src, f, p))
}

/// One chroma plane (U when `v` is false, V otherwise) of the I420 form.
pub open spec fn chroma_plane_spec<F: Fn(u8, u8, u8) -> (u8, u8, u8)>(
    format: VideoFormat,
    w: int,
    h: int,
    src: Seq<u8>,
    f: F,
    v: bool,
) -> Seq<u8> {
    Seq::new(
        chroma_plane_len(w, h) as nat,
        |b: int|
            {
                let uv = block_chroma(format, w, h, src, f, b / half_up(w), b % half_up(w));
                if v {
                    uv.1
                } else {
                    uv.0
                }
            },
    )
}

/// The frame is small enough for its I420 form to be allocated, and for the
/// byte offsets of a packed RGB source to be computed.
pub open spec fn yuv420_addressable(format: VideoFormat, w: int, h: int) -> bool {
    &&& i420_len(w, h) <= isize::MAX
    &&& is_packed_rgb(format) ==> src_bpp(format) * (w * h) <= usize::MAX
}

proof fn lemma_pixel_offset(format: VideoFormat, p: int, n: int)
    requires
        is_packed_rgb(format),
        0 <= p < n,
        src_bpp(format) * n <= usize::MAX,
    ensures
        src_bpp(format) * (p + 1) <= usize::MAX,
{
    if src_bpp(format) == 3 {
        assert(3 * (p + 1) <= 3 * n);
    } else {
        assert(4 * (p + 1) <= 4 * n);
    }
}

/// Bytes per pixel of a packed RGB format, and whether it stores blue first.
fn packed_layout(format: &VideoFormat) -> (r: (usize, bool))
    requires
        is_packed_rgb(*format),
    ensures
        r.0 == src_bpp(*format),
        r.1 == is_bgr(*format),
{
    match format {
        VideoFormat::RGB => (3, false),
        VideoFormat::BGR => (3, true),
        VideoFormat::BGRx => (4, true),
        _ => (4, false),
    }
}

/// Pixel `p` of a packed RGB frame, as (red, green, blue), when `src` holds it.
fn read_rgb(format: &VideoFormat, src: &[u8], p: usize) -> (r: Option<(u8, u8, u8)>)
    requires
        is_packed_rgb(*format),
        src_bpp(*format) * (p + 1) <= usize::MAX,
    ensures
        r is Some <==> pixel_present(*format, src@, p as int),
        r matches Some(t) ==> t == source_rgb(*format, src@, p as int),
{
    let (bpp, bgr) = packed_layout(format);
    let idx = if bpp == 3 {
        proof {
            assert(3 * (p + 1) <= usize::MAX) by (nonlinear_arith)
                requires
                    src_bpp(*format) * (p + 1) <= usize::MAX,
                    src_bpp(*format) == 3,
            ;
            assert(src_bpp(*format) * p == 3 * p) by (nonlinear_arith)
                requires
                    src_bpp(*format) == 3,
            ;
        }
        p * 3
    } else {
        proof {
            assert(4 * (p + 1) <= usize::MAX) by (nonlinear_arith)
                requires
                    src_bpp(*format) * (p + 1) <= usize::MAX,
                    src_bpp(*format) == 4,
            ;
            assert(src_bpp(*format) * p == 4 * p) by (nonlinear_arith)
                requires
                    src_bpp(*format) == 4,
            ;
        }
        p * 4
    };
    if bpp - 1 < src.len() && idx < src.len() - (bpp - 1) {
        if bgr {
            Some((src[idx + 2], src[idx + 1], src[idx]))
        } else {
            Some((src[idx], src[idx + 1], src[idx + 2]))
        }
    } else {
        None
    }
}

/// The luma plane of a packed RGB or YUY2 frame.
fn luma_plane<F: Fn(u8, u8, u8) -> (u8, u8, u8)>(
    format: &VideoFormat,
    w: usize,
    h: usize,
    src: &[u8],
    f: &F,
) -> (out: Vec<u8>)
    requires
        is_pixel_function(*f),
        is_packed_rgb(*format) || *format is YUY2,
        yuv420_addressable(*format, w as int, h as int),
    ensures
        out@ == luma_plane_spec(*format, w as int, h as int, src@, *f),
{
    let ghost plane = luma_plane_spec(*format, w as int, h as int, src@, *f);
    let y_plane_len = w * h;
    let mut out: Vec<u8> = Vec::new();
    if let VideoFormat::YUY2 = format {
        let mut pixel_idx: usize = 0;
        let mut i: usize = 0;
        let ghost mut k: int = 0;
        while 3 < src.len() - i && pixel_idx + 1 < y_plane_len
            invariant
                *format is YUY2,
                y_plane_len == w * h,
                yuv420_addressable(*format, w as int, h as int),
                plane == luma_plane_spec(*format, w as int, h as int, src@, *f),
                i == 4 * k,
                pixel_idx == 2 * k,
                i <= src@.len(),
                2 * k <= y_plane_len,
                k <= src@.len() / 4,
                k <= y_plane_len / 2,
                out@ == plane.subrange(0, 2 * k),
            decreases y_plane_len - pixel_idx,
        {
            proof {
                assert(k + 1 <= src@.len() / 4);
                assert(k + 1 <= y_plane_len / 2);
                assert((2 * k) / 2 == k && (2 * k) % 2 == 0);
                assert((2 * k + 1) / 2 == k && (2 * k + 1) % 2 == 1);
                assert(plane[2 * k] == src@[4 * k]);
                assert(plane[2 * k + 1] == src@[4 * k + 2]);
            }
            out.push(src[i]);
            out.push(src[i + 2]);
            assert(out@ =~= plane.subrange(0, 2 * k + 2));
            pixel_idx = pixel_idx + 2;
            i = i + 4;
            proof {
                k = k + 1;
            }
        }
        assert(2 * k == yuy2_luma_count(w as int, h as int, src@.len() as int));
        while out.len() < y_plane_len
            invariant
                *format is YUY2,
                y_plane_len == w * h,
                plane == luma_plane_spec(*format, w as int, h as int, src@, *f),
                2 * k <= out@.len() <= y_plane_len,
                2 * k == yuy2_luma_count(w as int, h as int, src@.len() as int),
                out@ == plane.subrange(0, out@.len() as int),
            decreases y_plane_len - out@.len(),
        {
            proof {
                assert(plane[out@.len() as int] == 0);
            }
            out.push(0);
            assert(out@ =~= plane.subrange(0, out@.len() as int));
        }
    } else {
        let mut p: usize = 0;
        while p < y_plane_len
            invariant
                is_pixel_function(*f),
                is_packed_rgb(*format),
                y_plane_len == w * h,
                yuv420_addressable(*format, w as int, h as int),
                plane == luma_plane_spec(*format, w as int, h as int, src@, *f),
                p <= y_plane_len,
                out@ == plane.subrange(0, p as int),
            decreases y_plane_len - p,
        {
            proof {
                lemma_pixel_offset(*format, p as int, w * h);
            }
            let y = match read_rgb(format, src, p) {
                Some((r, g, b)) => {
                    let (y, _, _) = call_px(f, r, g, b);
                    y
                },
                None => 0,
            };
            assert(plane[p as int] == y);
            out.push(y);
            assert(out@ =~= plane.subrange(0, p + 1));
            p = p + 1;
        }
    }
    assert(out@ =~= plane);
    out
}

/// The (U, V) sample of pixel (`px`, `py`) of a packed RGB or YUY2 frame.
fn sample<F: Fn(u8, u8, u8) -> (u8, u8, u8)>(
    format: &VideoFormat,
    w: usize,
    h: usize,
    src: &[u8],
    f: &F,
    py: usize,
    px: usize,
) -> (s: Option<(u8, u8)>)
    requires
        is_pixel_function(*f),
        is_packed_rgb(*format) || *format is YUY2,
        yuv420_addressable(*format, w as int, h as int),
    ensures
        s == chroma_sample(*format, w as int, h as int, src@, *f, py as int, px as int),
{
    if py < h && px < w {
        proof {
            lemma_grid_index(py as int, px as int, h as int, w as int);
        }
        let p = py * w + px;
        if let VideoFormat::YUY2 = format {
            let b = (p / 2) * 4;
            if 3 < src.len() && b < src.len() - 3 {
                Some((src[b + 1], src[b + 3]))
            } else {
                None
            }
        } else {
            proof {
                lemma_pixel_offset(*format, p as int, w * h);
            }
            match read_rgb(format, src, p) {
                Some((r, g, b)) => {
                    let (_, u, v) = call_px(f, r, g, b);
                    Some((u, v))
                },
                None => None,
            }
        }
    } else {
        None
    }
}

/// The rounded-down means of the U and the V bytes of the present samples;
/// 128 for each when none is present.
fn mean_chroma(samples: &Vec<Option<(u8, u8)>>) -> (uv: (u8, u8))
    requires
        samples@.len() <= 4,
    ensures
        uv == chroma_mean(samples@),
{
    let mut u_sum: u32 = 0;
    let mut v_sum: u32 = 0;
    let mut count: u32 = 0;
    let mut i: usize = 0;
    while i < samples.len()
        invariant
            samples@.len() <= 4,
            i <= samples@.len(),
            u_sum == sum_u(samples@.take(i as int)),
            v_sum == sum_v(samples@.take(i as int)),
            count == count_present(samples@.take(i as int)),
            u_sum <= 255 * i,
            v_sum <= 255 * i,
            count <= i,
        decreases samples@.len() - i,
    {
        assert(samples@.take(i + 1).drop_last() =~= samples@.take(i as int));
        if let Some((u, v)) = samples[i] {
            u_sum = u_sum + u as u32;
            v_sum = v_sum + v as u32;
            count = count + 1;
        }
        i = i + 1;
    }
    assert(samples@.take(samples@.len() as int) =~= samples@);
    if count > 0 {
        ((u_sum / count) as u8, (v_sum / count) as u8)
    } else {
        (128, 128)
    }
}

/// The U and V planes of the I420 form of a packed RGB or YUY2 frame.
fn chroma_planes<F: Fn(u8, u8, u8) -> (u8, u8, u8)>(
    format: &VideoFormat,
    w: usize,
    h: usize,
    src: &[u8],
    f: &F,
) -> (planes: (Vec<u8>, Vec<u8>))
    requires
        is_pixel_function(*f),
        is_packed_rgb(*format) || *format is YUY2,
        yuv420_addressable(*format, w as int, h as int),
    ensures
        planes.0@ == chroma_plane_spec(*format, w as int, h as int, src@, *f, false),
        planes.1@ == chroma_plane_spec(*format, w as int, h as int, src@, *f, true),
{
    let ghost u_spec = chroma_plane_spec(*format, w as int, h as int, src@, *f, false);
    let ghost v_spec = chroma_plane_spec(*format, w as int, h as int, src@, *f, true);
    let uv_w = w / 2 + w % 2;
    let uv_h = h / 2 + h % 2;
    proof {
        lemma_chroma_plane_le(w as int, h as int);
    }
    let mut u_plane: Vec<u8> = Vec::new();
    let mut v_plane: Vec<u8> = Vec::new();
    let mut yy: usize = 0;
    while yy < uv_h
        invariant
            is_pixel_function(*f),
            is_packed_rgb(*format) || *format is YUY2,
            yuv420_addressable(*format, w as int, h as int),
            uv_w == half_up(w as int),
            uv_h == half_up(h as int),
            uv_w * uv_h <= w * h,
            u_spec == chroma_plane_spec(*format, w as int, h as int, src@, *f, false),
            v_spec == chroma_plane_spec(*format, w as int, h as int, src@, *f, true),
            yy <= uv_h,
            yy * uv_w <= uv_w * uv_h,
            u_plane@ == u_spec.subrange(0, yy * uv_w),
            v_plane@ == v_spec.subrange(0, yy * uv_w),
        decreases uv_h - yy,
    {
        let mut xx: usize = 0;
        while xx < uv_w
            invariant
                is_pixel_function(*f),
                is_packed_rgb(*format) || *format is YUY2,
                yuv420_addressable(*format, w as int, h as int),
                uv_w == half_up(w as int),
                uv_h == half_up(h as int),
                uv_w * uv_h <= w * h,
                u_spec == chroma_plane_spec(*format, w as int, h as int, src@, *f, false),
                v_spec == chroma_plane_spec(*format, w as int, h as int, src@, *f, true),
                yy < uv_h,
                xx <= uv_w,
                yy * uv_w + xx <= uv_w * uv_h,
                u_plane@ == u_spec.subrange(0, yy * uv_w + xx),
                v_plane@ == v_spec.subrange(0, yy * uv_w + xx),
            decreases uv_w - xx,
        {
            proof {
                lemma_grid_index(yy as int, xx as int, uv_h as int, uv_w as int);
            }
            let src_y = yy * 2;
            let src_x = xx * 2;
            let mut samples: Vec<Option<(u8, u8)>> = Vec::new();
            if let VideoFormat::YUY2 = format {
                samples.push(sample(format, w, h, src, f, src_y, src_x));
                samples.push(sample(format, w, h, src, f, src_y + 1, src_x));
            } else {
                samples.push(sample(format, w, h, src, f, src_y, src_x));
                samples.push(sample(format, w, h, src, f, src_y, src_x + 1));
                samples.push(sample(format, w, h, src, f, src_y + 1, src_x));
                samples.push(sample(format, w, h, src, f, src_y + 1, src_x + 1));
            }
            assert(samples@ =~= block_samples(
                *format,
                w as int,
                h as int,
                src@,
                *f,
                yy as int,
                xx as int,
            ));
            let (u, v) = mean_chroma(&samples);
            let ghost b = yy * uv_w + xx;
            assert(u_spec[b] == u);
            assert(v_spec[b] == v);
            u_plane.push(u);
            v_plane.push(v);
            assert(u_plane@ =~= u_spec.subrange(0, b + 1));
            assert(v_plane@ =~= v_spec.subrange(0, b + 1));
            xx = xx + 1;
        }
        proof {
            assert((yy + 1) * uv_w == yy * uv_w + uv_w) by (nonlinear_arith);
        }
        yy = yy + 1;
    }
    proof {
        assert(uv_h * uv_w == uv_w * uv_h) by (nonlinear_arith);
    }
    assert(u_plane@ =~= u_spec);
    assert(v_plane@ =~= v_spec);
    (u_plane, v_plane)
}

/// Converts a buffer in `format` to planar YUV 4:2:0 (I420): the Y plane
/// (`width * height` bytes), then the U and the V plane (`ceil(width / 2) *
/// ceil(height / 2)` bytes each).
///
/// `src` is taken to be tightly packed (no per-line stride or padding).
/// `rgb_to_yuv` turns the red, green and blue bytes of a pixel into its Y, U
/// and V bytes. By format:
/// - I420: the first bytes of `src`, padded with 128;
/// - RGB, RGBA, RGBx, BGRx, BGR: each luma byte from its pixel, 0 where `src`
///   lacks the pixel; each chroma byte the rounded-down mean over the pixels
///   of its 2x2 block that lie in the frame and in `src`, 128 if there is none;
/// - YUY2: the luma bytes copied in pairs as far as `src` and the luma plane
///   allow, the rest 0; each chroma byte the mean over the first pixel of each
///   row of its block;
/// - any other format: luma 0 and chroma 128.
pub fn convert_to_yuv420<F: Fn(u8, u8, u8) -> (u8, u8, u8)>(
    format: VideoFormat,
    width: u32,
    height: u32,
    src: &[u8],
    rgb_to_yuv: F,
) -> (out: Vec<u8>)
    requires
        is_pixel_function(rgb_to_yuv),
        yuv420_addressable(format, width as int, height as int),
    ensures
        out@ == yuv420_frame(format, width as int, height as int, src@, rgb_to_yuv),
{
    let ghost frame = yuv420_frame(format, width as int, height as int, src@, rgb_to_yuv);
    let w = width as usize;
    let h = height as usize;
    let y_plane_len = w * h;
    let uv_w = w / 2 + w % 2;
    let uv_h = h / 2 + h % 2;
    proof {
        lemma_chroma_plane_le(w as int, h as int);
    }
    let uv_plane_len = uv_w * uv_h;
    let total_len = y_plane_len + 2 * uv_plane_len;
    match format {
        VideoFormat::I420 => padded_copy(src, total_len, 128),
        VideoFormat::Other => {
            let mut out = vec![0u8; y_plane_len];
            assert(frame.len() == total_len);
            assert(out@ =~= frame.subrange(0, y_plane_len as int));
            while out.len() < total_len
                invariant
                    format is Other,
                    total_len == i420_len(w as int, h as int),
                    y_plane_len == w * h,
                    frame == yuv420_frame(format, width as int, height as int, src@, rgb_to_yuv),
                    frame.len() == total_len,
                    w == width,
                    h == height,
                    y_plane_len <= out@.len() <= total_len,
                    out@ == frame.subrange(0, out@.len() as int),
                decreases total_len - out@.len(),
            {
                assert(frame[out@.len() as int] == 128u8);
                out.push(128);
                assert(out@ =~= frame.subrange(0, out@.len() as int));
            }
            assert(out@ =~= frame);
            out
        },
        _ => {
            let mut out = luma_plane(&format, w, h, src, &rgb_to_yuv);
            let (mut u_plane, mut v_plane) = chroma_planes(&format, w, h, src, &rgb_to_yuv);
            out.append(&mut u_plane);
            out.append(&mut v_plane);
            assert(out@ =~= frame);
            out
        },
    }
}

/// The I420 form always has the I420 layout: a luma plane of `w * h` bytes
/// and two chroma planes of `ceil(w / 2) * ceil(h / 2)` bytes, whatever the
/// source format and whatever `src` holds.
pub proof fn lemma_yuv420_frame_len<F: Fn(u8, u8, u8) -> (u8, u8, u8)>(
    format: VideoFormat,
    w: u32,
    h: u32,
    src: Seq<u8>,
    f: F,
)
    ensures
        yuv420_frame(format, w as int, h as int, src, f).len() == i420_len(w as int, h as int),
{
    lemma_chroma_plane_le(w as int, h as int);
    assert(0 <= (w as int) * (h as int)) by (nonlinear_arith);
}

/// The RGB form holds 3 bytes per pixel and never more pixels than the frame;
/// for RGB, RGBA, I420 and the formats without a conversion of their own it
/// holds exactly the frame's pixels.
pub proof fn lemma_rgb_frame_len<F: Fn(u8, u8, u8) -> (u8, u8, u8)>(
    format: VideoFormat,
    w: u32,
    h: u32,
    src: Seq<u8>,
    f: F,
)
    ensures
        rgb_frame(format, w as int, h as int, src, f).len() == 3 * rgb_pixel_count(
            format,
            w as int,
            h as int,
            src.len() as int,
        ),
        0 <= rgb_pixel_count(format, w as int, h as int, src.len() as int) <= w * h,
        (format is RGB || format is RGBA || format is I420 || format is Other)
            ==> rgb_pixel_count(format, w as int, h as int, src.len() as int) == w * h,
{
    assert(0 <= (w as int) * (h as int)) by (nonlinear_arith);
}

/// An I420 source that holds a whole frame is passed through unchanged.
pub proof fn lemma_i420_passthrough<F: Fn(u8, u8, u8) -> (u8, u8, u8)>(
    w: u32,
    h: u32,
    src: Seq<u8>,
    f: F,
)
    requires
        src.len() >= i420_len(w as int, h as int),
    ensures
        yuv420_frame(VideoFormat::I420, w as int, h as int, src, f) == src.subrange(
            0,
            i420_len(w as int, h as int),
        ),
{
    lemma_yuv420_frame_len(VideoFormat::I420, w, h, src, f);
    assert(yuv420_frame(VideoFormat::I420, w as int, h as int, src, f) =~= src.subrange(
        0,
        i420_len(w as int, h as int),
    ));
}

/// An RGB source that holds a whole frame is passed through unchanged.
pub proof fn lemma_rgb_passthrough<F: Fn(u8, u8, u8) -> (u8, u8, u8)>(
    w: u32,
    h: u32,
    src: Seq<u8>,
    f: F,
)
    requires
        src.len() >= 3 * (w * h),
    ensures
        rgb_frame(VideoFormat::RGB, w as int, h as int, src, f) == src.subrange(0, 3 * (w * h)),
{
    lemma_rgb_frame_len(VideoFormat::RGB, w, h, src, f);
    let frame = rgb_frame(VideoFormat::RGB, w as int, h as int, src, f);
    assert forall|i: int| 0 <= i < frame.len() implies frame[i] == src[i] by {
        assert(3 * (i / 3) + i % 3 == i);
    }
    assert(frame =~= src.subrange(0, 3 * (w * h)));
}

/// The RGB form of an RGBA frame is what `rgba8_to_rgb` gives.
pub proof fn lemma_rgba_frame_drops_alpha<F: Fn(u8, u8, u8) -> (u8, u8, u8)>(
    w: u32,
    h: u32,
    src: Seq<u8>,
    f: F,
)
    ensures
        rgb_frame(VideoFormat::RGBA, w as int, h as int, src, f) == rgba8_to_rgb_spec(src, w * h),
{
    assert(rgb_frame(VideoFormat::RGBA, w as int, h as int, src, f) =~= rgba8_to_rgb_spec(
        src,
        w * h,
    ));
}

/// The fourth byte of a 4-byte pixel is ignored alike whether it is padding
/// (RGBx) or alpha (RGBA): on a source that holds the whole frame, both
/// conversions agree.
pub proof fn lemma_rgbx_same_as_rgba<F: Fn(u8, u8, u8) -> (u8, u8, u8)>(
    w: u32,
    h: u32,
    src: Seq<u8>,
    f: F,
)
    requires
        src.len() >= 4 * (w * h),
    ensures
        rgb_frame(VideoFormat::RGBx, w as int, h as int, src, f) == rgb_frame(
            VideoFormat::RGBA,
            w as int,
            h as int,
            src,
            f,
        ),
{
    assert(0 <= (w as int) * (h as int)) by (nonlinear_arith);
    assert(rgb_pixel_count(VideoFormat::RGBx, w as int, h as int, src.len() as int) == w * h);
    assert(rgb_frame(VideoFormat::RGBx, w as int, h as int, src, f) =~= rgb_frame(
        VideoFormat::RGBA,
        w as int,
        h as int,
        src,
        f,
    ));
}

/// `s` with the first and third byte of every whole `bpp`-byte pixel
/// exchanged (red and blue swapped); a trailing partial pixel is left alone.
pub open spec fn swap_red_blue(s: Seq<u8>, bpp: int) -> Seq<u8> {
    Seq::new(
        s.len(),
        |j: int|
            {
                let k = j / bpp;
                let c = j % bpp;
                if bpp * k + bpp - 1 < s.len() && c == 0 {
                    s[j + 2]
                } else if bpp * k + bpp - 1 < s.len() && c == 2 {
                    s[j - 2]
                } else {
                    s[j]
                }
            },
    )
}

/// `s` and `t` differ at most in the fourth byte of each 4-byte pixel.
pub open spec fn same_but_fourth_bytes(s: Seq<u8>, t: Seq<u8>) -> bool {
    &&& s.len() == t.len()
    &&& forall|j: int| 0 <= j < s.len() && j % 4 != 3 ==> #[trigger] s[j] == t[j]
}

/// Two packed RGB frames whose pixels read alike have the same I420 form.
proof fn lemma_yuv420_frames_agree<F: Fn(u8, u8, u8) -> (u8, u8, u8)>(
    f1: VideoFormat,
    f2: VideoFormat,
    w: u32,
    h: u32,
    s1: Seq<u8>,
    s2: Seq<u8>,
    f: F,
)
    requires
        is_packed_rgb(f1),
        is_packed_rgb(f2),
        forall|p: int|
            0 <= p ==> #[trigger] luma(f1, w as int, h as int, s1, f, p) == luma(
                f2,
                w as int,
                h as int,
                s2,
                f,
                p,
            ),
        forall|py: int, px: int|
            0 <= py && 0 <= px ==> #[trigger] chroma_sample(f1, w as int, h as int, s1, f, py, px)
                == chroma_sample(
                f2,
                w as int,
                h as int,
                s2,
                f,
                py,
                px,
            ),
    ensures
        yuv420_frame(f1, w as int, h as int, s1, f) == yuv420_frame(f2, w as int, h as int, s2, f),
{
    let a = yuv420_frame(f1, w as int, h as int, s1, f);
    let b = yuv420_frame(f2, w as int, h as int, s2, f);
    assert forall|by: int, bx: int| 0 <= by && 0 <= bx implies #[trigger]
        block_chroma(f1, w as int, h as int, s1, f, by, bx) == block_chroma(
            f2,
            w as int,
            h as int,
            s2,
            f,
            by,
            bx,
        ) by {
        assert(chroma_sample(f1, w as int, h as int, s1, f, 2 * by, 2 * bx) == chroma_sample(
            f2, w as int, h as int, s2, f, 2 * by, 2 * bx));
        assert(chroma_sample(f1, w as int, h as int, s1, f, 2 * by, 2 * bx + 1) == chroma_sample(
            f2, w as int, h as int, s2, f, 2 * by, 2 * bx + 1));
        assert(chroma_sample(f1, w as int, h as int, s1, f, 2 * by + 1, 2 * bx) == chroma_sample(
            f2, w as int, h as int, s2, f, 2 * by + 1, 2 * bx));
        assert(chroma_sample(f1, w as int, h as int, s1, f, 2 * by + 1, 2 * bx + 1)
            == chroma_sample(f2, w as int, h as int, s2, f, 2 * by + 1, 2 * bx + 1));
        assert(block_samples(f1, w as int, h as int, s1, f, by, bx) =~= block_samples(
            f2, w as int, h as int, s2, f, by, bx));
    }
    assert(a =~= b);
}

/// The pixel read at `p` from a BGR-ordered frame is the one read from the
/// same frame with red and blue swapped and taken as RGB-ordered.
proof fn lemma_swapped_pixel(bgr: VideoFormat, rgb: VideoFormat, s: Seq<u8>, p: int)
    requires
        (bgr is BGR && rgb is RGB) || (bgr is BGRx && rgb is RGBx),
        0 <= p,
    ensures
        pixel_present(bgr, s, p) == pixel_present(rgb, swap_red_blue(s, src_bpp(bgr)), p),
        pixel_present(bgr, s, p) ==> source_rgb(bgr, s, p) == source_rgb(
            rgb,
            swap_red_blue(s, src_bpp(bgr)),
            p,
        ),
{
    let bpp = src_bpp(bgr);
    let t = swap_red_blue(s, bpp);
    if bpp == 3 {
        assert((3 * p) / 3 == p && (3 * p) % 3 == 0);
        assert((3 * p + 1) / 3 == p && (3 * p + 1) % 3 == 1);
        assert((3 * p + 2) / 3 == p && (3 * p + 2) % 3 == 2);
    } else {
        assert((4 * p) / 4 == p && (4 * p) % 4 == 0);
        assert((4 * p + 1) / 4 == p && (4 * p + 1) % 4 == 1);
        assert((4 * p + 2) / 4 == p && (4 * p + 2) % 4 == 2);
    }
}

/// Converting a BGR (BGRx) frame gives what converting the same frame with
/// red and blue swapped as RGB (RGBx) gives.
pub proof fn lemma_yuv420_bgr_is_swapped_rgb<F: Fn(u8, u8, u8) -> (u8, u8, u8)>(
    bgr: VideoFormat,
    rgb: VideoFormat,
    w: u32,
    h: u32,
    s: Seq<u8>,
    f: F,
)
    requires
        (bgr is BGR && rgb is RGB) || (bgr is BGRx && rgb is RGBx),
    ensures
        yuv420_frame(bgr, w as int, h as int, s, f) == yuv420_frame(
            rgb,
            w as int,
            h as int,
            swap_red_blue(s, src_bpp(bgr)),
            f,
        ),
{
    let t = swap_red_blue(s, src_bpp(bgr));
    assert forall|p: int| 0 <= p implies #[trigger]
        luma(bgr, w as int, h as int, s, f, p) == luma(rgb, w as int, h as int, t, f, p) by {
        lemma_swapped_pixel(bgr, rgb, s, p);
    }
    assert forall|py: int, px: int| 0 <= py && 0 <= px implies #[trigger]
        chroma_sample(bgr, w as int, h as int, s, f, py, px) == chroma_sample(
            rgb,
            w as int,
            h as int,
            t,
            f,
            py,
            px,
        ) by {
        let p = py * (w as int) + px;
        assert(0 <= py * (w as int)) by (nonlinear_arith)
            requires
                0 <= py,
        ;
        lemma_swapped_pixel(bgr, rgb, s, p);
    }
    lemma_yuv420_frames_agree(bgr, rgb, w, h, s, t, f);
}

/// The fourth byte of a 4-byte pixel (alpha or padding) is never read: RGBA
/// and RGBx give the same I420 form, and frames that differ only in those
/// bytes give the same I420 form.
pub proof fn lemma_yuv420_ignores_fourth_byte<F: Fn(u8, u8, u8) -> (u8, u8, u8)>(
    w: u32,
    h: u32,
    s: Seq<u8>,
    t: Seq<u8>,
    f: F,
)
    requires
        same_but_fourth_bytes(s, t),
    ensures
        yuv420_frame(VideoFormat::RGBA, w as int, h as int, s, f) == yuv420_frame(
            VideoFormat::RGBx,
            w as int,
            h as int,
            t,
            f,
        ),
        yuv420_frame(VideoFormat::RGBx, w as int, h as int, t, f) == yuv420_frame(
            VideoFormat::RGBx,
            w as int,
            h as int,
            s,
            f,
        ),
        yuv420_frame(VideoFormat::BGRx, w as int, h as int, s, f) == yuv420_frame(
            VideoFormat::BGRx,
            w as int,
            h as int,
            t,
            f,
        ),
{
    lemma_fourth_byte_formats(VideoFormat::RGBA, VideoFormat::RGBx, w, h, s, t, f);
    lemma_fourth_byte_formats(VideoFormat::RGBx, VideoFormat::RGBx, w, h, s, t, f);
    lemma_fourth_byte_formats(VideoFormat::BGRx, VideoFormat::BGRx, w, h, s, t, f);
}

proof fn lemma_fourth_byte_formats<F: Fn(u8, u8, u8) -> (u8, u8, u8)>(
    f1: VideoFormat,
    f2: VideoFormat,
    w: u32,
    h: u32,
    s: Seq<u8>,
    t: Seq<u8>,
    f: F,
)
    requires
        f1 is RGBA || f1 is RGBx || f1 is BGRx,
        f2 is RGBA || f2 is RGBx || f2 is BGRx,
        is_bgr(f1) == is_bgr(f2),
        same_but_fourth_bytes(s, t),
    ensures
        yuv420_frame(f1, w as int, h as int, s, f) == yuv420_frame(f2, w as int, h as int, t, f),
{
    assert forall|p: int|
        #![trigger pixel_present(f1, s, p)]
        pixel_present(f1, s, p) && 0 <= p implies source_rgb(f1, s, p) == source_rgb(f2, t, p) by {
        assert((4 * p) % 4 == 0 && (4 * p + 1) % 4 == 1 && (4 * p + 2) % 4 == 2);
        assert(s[4 * p] == t[4 * p]);
        assert(s[4 * p + 1] == t[4 * p + 1]);
        assert(s[4 * p + 2] == t[4 * p + 2]);
    }
    assert forall|p: int| 0 <= p implies #[trigger]
        luma(f1, w as int, h as int, s, f, p) == luma(f2, w as int, h as int, t, f, p) by {
        if pixel_present(f1, s, p) {
            assert(source_rgb(f1, s, p) == source_rgb(f2, t, p));
        }
    }
    assert forall|py: int, px: int| 0 <= py && 0 <= px implies #[trigger]
        chroma_sample(f1, w as int, h as int, s, f, py, px) == chroma_sample(
            f2,
            w as int,
            h as int,
            t,
            f,
            py,
            px,
        ) by {
        let p = py * (w as int) + px;
        assert(0 <= py * (w as int)) by (nonlinear_arith)
            requires
                0 <= py,
        ;
        if py < h && px < w && pixel_present(f1, s, p) {
            assert(source_rgb(f1, s, p) == source_rgb(f2, t, p));
        }
    }
    lemma_yuv420_frames_agree(f1, f2, w, h, s, t, f);
}

/// Swapping red and blue twice restores the pixels: converting a BGR frame
/// to RGB and the result again as BGR gives back the frame.
pub proof fn lemma_bgr_twice_restores<F: Fn(u8, u8, u8) -> (u8, u8, u8)>(
    w: u32,
    h: u32,
    s: Seq<u8>,
    f: F,
)
    requires
        s.len() >= 3 * (w * h),
    ensures
        rgb_frame(
            VideoFormat::BGR,
            w as int,
            h as int,
            rgb_frame(VideoFormat::BGR, w as int, h as int, s, f),
            f,
        ) == s.subrange(0, 3 * (w * h)),
{
    let n = w * h;
    assert(0 <= (w as int) * (h as int)) by (nonlinear_arith);
    let t = rgb_frame(VideoFormat::BGR, w as int, h as int, s, f);
    assert(s.len() / 3 >= n);
    assert(t.len() == 3 * n);
    let u = rgb_frame(VideoFormat::BGR, w as int, h as int, t, f);
    assert(t.len() / 3 == n);
    assert(u.len() == 3 * n);
    assert forall|i: int| 0 <= i < 3 * n implies u[i] == s[i] by {
        let q = i / 3;
        let c = i % 3;
        assert(i == 3 * q + c);
        assert(t[3 * q] == s[3 * q + 2]);
        assert(t[3 * q + 1] == s[3 * q + 1]);
        assert(t[3 * q + 2] == s[3 * q]);
    }
    assert(u =~= s.subrange(0, 3 * n));
}

proof fn lemma_sums_of_neutral(s: Seq<Option<(u8, u8)>>)
    requires
        forall|i: int| 0 <= i < s.len() ==> #[trigger] s[i] is None || s[i] == Some((128u8, 128u8)),
    ensures
        sum_u(s) == 128 * count_present(s),
        sum_v(s) == 128 * count_present(s),
        count_present(s) >= 0,
    decreases s.len(),
{
    if s.len() > 0 {
        let t = s.drop_last();
        assert forall|i: int| 0 <= i < t.len() implies #[trigger] t[i] is None || t[i] == Some(
            (128u8, 128u8),
        ) by {
            assert(t[i] == s[i]);
        }
        lemma_sums_of_neutral(t);
        assert(s.last() == s[s.len() - 1]);
    }
}

/// Samples that are all neutral (128, 128), at least one of them present,
/// average to neutral chroma.
proof fn lemma_mean_of_neutral(s: Seq<Option<(u8, u8)>>)
    requires
        forall|i: int| 0 <= i < s.len() ==> #[trigger] s[i] is None || s[i] == Some((128u8, 128u8)),
        count_present(s) > 0,
    ensures
        chroma_mean(s) == (128u8, 128u8),
{
    lemma_sums_of_neutral(s);
    let c = count_present(s);
    vstd::arithmetic::div_mod::lemma_div_multiples_vanish(128, c);
    assert(128 * c == c * 128) by (nonlinear_arith);
}

/// The pixels `0 .. w * h` of `s` are gray: their three bytes are equal.
pub open spec fn is_gray_frame(s: Seq<u8>, w: int, h: int) -> bool {
    forall|p: int| 0 <= p < w * h ==> #[trigger] s[3 * p] == s[3 * p + 1] && s[3 * p + 1] == s[3 * p + 2]
}

/// A gray frame survives RGB to I420 and back, given pixel functions that
/// take gray `v` to (Y, U, V) = (`v`, 128, 128) and back.
pub proof fn lemma_gray_roundtrip<F: Fn(u8, u8, u8) -> (u8, u8, u8), G: Fn(u8, u8, u8) -> (u8, u8, u8)>(
    w: u32,
    h: u32,
    s: Seq<u8>,
    to_yuv: F,
    to_rgb: G,
)
    requires
        s.len() == 3 * (w * h),
        is_gray_frame(s, w as int, h as int),
        forall|v: u8| #[trigger] apply_px(to_yuv, v, v, v) == (v, 128u8, 128u8),
        forall|v: u8| #[trigger] apply_px(to_rgb, v, 128u8, 128u8) == (v, v, v),
    ensures
        rgb_frame(
            VideoFormat::I420,
            w as int,
            h as int,
            yuv420_frame(VideoFormat::RGB, w as int, h as int, s, to_yuv),
            to_rgb,
        ) == s,
{
    let wi = w as int;
    let hi = h as int;
    let n = wi * hi;
    let uv_w = half_up(wi);
    let uv_h = half_up(hi);
    let uv_len = chroma_plane_len(wi, hi);
    lemma_chroma_plane_le(wi, hi);
    lemma_yuv420_frame_len(VideoFormat::RGB, w, h, s, to_yuv);
    let yuv = yuv420_frame(VideoFormat::RGB, wi, hi, s, to_yuv);
    assert(yuv.len() == i420_len(wi, hi));
    // Every sample of the gray frame is neutral.
    assert forall|py: int, px: int| 0 <= py && 0 <= px implies #[trigger] chroma_sample(
        VideoFormat::RGB,
        wi,
        hi,
        s,
        to_yuv,
        py,
        px,
    ) is None || chroma_sample(VideoFormat::RGB, wi, hi, s, to_yuv, py, px) == Some(
        (128u8, 128u8),
    ) by {
        if py < hi && px < wi {
            lemma_grid_index(py, px, hi, wi);
            let p = py * wi + px;
            assert(p < n);
            if pixel_present(VideoFormat::RGB, s, p) {
                let v = s[3 * p];
                assert(source_rgb(VideoFormat::RGB, s, p) == (v, v, v));
                assert(apply_px(to_yuv, v, v, v) == (v, 128u8, 128u8));
            }
        }
    }
    // Every chroma byte is neutral.
    assert forall|by: int, bx: int| 0 <= by < uv_h && 0 <= bx < uv_w implies #[trigger]
        block_chroma(VideoFormat::RGB, wi, hi, s, to_yuv, by, bx) == (128u8, 128u8) by {
        let samples = block_samples(VideoFormat::RGB, wi, hi, s, to_yuv, by, bx);
        assert(samples.len() == 4);
        assert(samples[0] == chroma_sample(VideoFormat::RGB, wi, hi, s, to_yuv, 2 * by, 2 * bx));
        assert(samples[1] == chroma_sample(VideoFormat::RGB, wi, hi, s, to_yuv, 2 * by, 2 * bx + 1));
        assert(samples[2] == chroma_sample(VideoFormat::RGB, wi, hi, s, to_yuv, 2 * by + 1, 2 * bx));
        assert(samples[3] == chroma_sample(
            VideoFormat::RGB,
            wi,
            hi,
            s,
            to_yuv,
            2 * by + 1,
            2 * bx + 1,
        ));
        assert forall|i: int| 0 <= i < samples.len() implies #[trigger] samples[i] is None
            || samples[i] == Some((128u8, 128u8)) by {
            assert(i == 0 || i == 1 || i == 2 || i == 3);
        }
        // The top-left pixel of the block lies in the frame and in the source.
        lemma_grid_index(2 * by, 2 * bx, hi, wi);
        let p0 = 2 * by * wi + 2 * bx;
        assert(3 * p0 + 2 < s.len());
        assert(samples[0] is Some);
        reveal_with_fuel(count_present, 5);
        assert(samples.drop_last().drop_last().drop_last() =~= seq![samples[0]]);
        assert(samples.drop_last().drop_last().drop_last().drop_last() =~= Seq::<
            Option<(u8, u8)>,
        >::empty());
        assert(count_present(samples) > 0);
        lemma_mean_of_neutral(samples);
    }
    let out = rgb_frame(VideoFormat::I420, wi, hi, yuv, to_rgb);
    assert(out.len() == 3 * n);
    assert forall|i: int| 0 <= i < out.len() implies out[i] == s[i] by {
        let p = i / 3;
        let c = i % 3;
        assert(i == 3 * p + c);
        assert(0 <= p < n);
        let row = p / wi;
        let col = p % wi;
        assert(wi > 0) by (nonlinear_arith)
            requires
                0 <= p < wi * hi,
                0 <= wi,
                0 <= hi,
        ;
        vstd::arithmetic::div_mod::lemma_fundamental_div_mod(p, wi);
        assert(0 <= col < wi);
        assert(0 <= row < hi) by (nonlinear_arith)
            requires
                p == wi * row + col,
                0 <= col < wi,
                0 <= p < wi * hi,
                wi > 0,
        ;
        let k = (row / 2) * uv_w + col / 2;
        lemma_grid_index(row / 2, col / 2, uv_h, uv_w);
        assert(k / uv_w == row / 2 && k % uv_w == col / 2);
        let v = s[3 * p];
        assert(yuv[p] == luma(VideoFormat::RGB, wi, hi, s, to_yuv, p));
        assert(pixel_present(VideoFormat::RGB, s, p));
        assert(source_rgb(VideoFormat::RGB, s, p) == (v, v, v));
        assert(yuv[p] == v);
        assert(yuv[n + k] == block_chroma(VideoFormat::RGB, wi, hi, s, to_yuv, row / 2, col / 2).0);
        assert(yuv[n + uv_len + k] == block_chroma(
            VideoFormat::RGB,
            wi,
            hi,
            s,
            to_yuv,
            row / 2,
            col / 2,
        ).1);
        assert(rgb_pixel(VideoFormat::I420, wi, hi, yuv, to_rgb, p) == (v, v, v));
    }
    assert(out =~= s);
}

/// The (Y, U, V) bytes that the pixel function gives pixel `p` (counted row
/// by row) of a packed RGB-family source: 3 bytes a pixel for RGB and BGR, 4
/// for the others, blue first for BGR and BGRx.
pub open spec fn packed_pixel_yuv<F: Fn(u8, u8, u8) -> (u8, u8, u8)>(
    format: VideoFormat,
    src: Seq<u8>,
    f: F,
    p: int,
) -> (u8, u8, u8) {
    let bpp: int = if format is RGB || format is BGR {
        3
    } else {
        4
    };
    let i = bpp * p;
    if format is BGR || format is BGRx {
        apply_px(f, src[i + 2], src[i + 1], src[i])
    } else {
        apply_px(f, src[i], src[i + 1], src[i + 2])
    }
}

/// Pixel (`r`, `c`) of a `w` by `h` frame lies in a source of at least
/// `bpp * w * h` bytes.
proof fn lemma_pixel_in_source(r: int, c: int, w: int, h: int, bpp: int, len: int)
    requires
        0 <= r < h,
        0 <= c < w,
        bpp == 3 || bpp == 4,
        len >= bpp * (w * h),
    ensures
        0 <= r * w + c < w * h,
        bpp * (r * w + c) + bpp - 1 < len,
{
    lemma_grid_index(r, c, h, w);
    assert(bpp * (r * w + c + 1) <= bpp * (w * h)) by (nonlinear_arith)
        requires
            r * w + c + 1 <= w * h,
            bpp > 0,
    ;
}

/// The U (`v` false) or V (`v` true) byte of a sample; 0 when absent.
spec fn sample_part(o: Option<(u8, u8)>, v: bool) -> int {
    match o {
        Some(uv) => if v {
            uv.1 as int
        } else {
            uv.0 as int
        },
        None => 0,
    }
}

/// Sums and count of four samples, written out.
proof fn lemma_four_samples(s: Seq<Option<(u8, u8)>>)
    requires
        s.len() == 4,
    ensures
        sum_u(s) == sample_part(s[0], false) + sample_part(s[1], false) + sample_part(s[2], false)
            + sample_part(s[3], false),
        sum_v(s) == sample_part(s[0], true) + sample_part(s[1], true) + sample_part(s[2], true)
            + sample_part(s[3], true),
        count_present(s) == (if s[0] is Some {
            1int
        } else {
            0
        }) + (if s[1] is Some {
            1int
        } else {
            0
        }) + (if s[2] is Some {
            1int
        } else {
            0
        }) + (if s[3] is Some {
            1int
        } else {
            0
        }),
{
    reveal_with_fuel(sum_u, 5);
    reveal_with_fuel(sum_v, 5);
    reveal_with_fuel(count_present, 5);
    assert(s.drop_last().drop_last().drop_last().drop_last() =~= Seq::<Option<(u8, u8)>>::empty());
    assert(s.drop_last().drop_last().drop_last().last() == s[0]);
    assert(s.drop_last().drop_last().last() == s[1]);
    assert(s.drop_last().last() == s[2]);
}

/// When a packed RGB-family source holds the whole frame, every pixel of the
/// frame counts in the I420 form: its luma byte is the pixel function's Y of
/// that pixel, and each chroma byte of block (`bx`, `by`) is the rounded-down
/// mean of the pixel function's U (for the U plane) or V (for the V plane)
/// over all the pixels of the 2x2 block that lie in the frame: the four of
/// them, both rows and both columns, for a block inside the frame.
pub proof fn lemma_yuv420_packed_planes<F: Fn(u8, u8, u8) -> (u8, u8, u8)>(
    format: VideoFormat,
    w: u32,
    h: u32,
    src: Seq<u8>,
    f: F,
    p: int,
    bx: int,
    by: int,
)
    requires
        format is RGB || format is RGBA || format is RGBx || format is BGRx || format is BGR,
        src.len() >= (if format is RGB || format is BGR {
            3int
        } else {
            4int
        }) * (w * h),
        0 <= p < w * h,
        0 <= bx < (w + 1) / 2,
        0 <= by < (h + 1) / 2,
    ensures
        yuv420_frame(format, w as int, h as int, src, f)[p] == packed_pixel_yuv(format, src, f, p).0,
        ({
            let frame = yuv420_frame(format, w as int, h as int, src, f);
            let cw = (w + 1) / 2;
            let u_at = w * h + by * cw + bx;
            let v_at = w * h + cw * ((h + 1) / 2) + by * cw + bx;
            let two_cols = 2 * bx + 1 < w;
            let two_rows = 2 * by + 1 < h;
            let p00 = (2 * by) * w + 2 * bx;
            let p01 = p00 + 1;
            let p10 = p00 + w;
            let p11 = p10 + 1;
            let n = (if two_cols {
                2int
            } else {
                1
            }) * (if two_rows {
                2int
            } else {
                1
            });
            let su = packed_pixel_yuv(format, src, f, p00).1 as int + (if two_cols {
                packed_pixel_yuv(format, src, f, p01).1 as int
            } else {
                0
            }) + (if two_rows {
                packed_pixel_yuv(format, src, f, p10).1 as int
            } else {
                0
            }) + (if two_cols && two_rows {
                packed_pixel_yuv(format, src, f, p11).1 as int
            } else {
                0
            });
            let sv = packed_pixel_yuv(format, src, f, p00).2 as int + (if two_cols {
                packed_pixel_yuv(format, src, f, p01).2 as int
            } else {
                0
            }) + (if two_rows {
                packed_pixel_yuv(format, src, f, p10).2 as int
            } else {
                0
            }) + (if two_cols && two_rows {
                packed_pixel_yuv(format, src, f, p11).2 as int
            } else {
                0
            });
            &&& frame[u_at] == (su / n) as u8
            &&& frame[v_at] == (sv / n) as u8
        }),
{
    let wi = w as int;
    let hi = h as int;
    let bpp: int = src_bpp(format);
    let frame = yuv420_frame(format, wi, hi, src, f);
    let cw = half_up(wi);
    let ch = half_up(hi);
    assert(cw == (wi + 1) / 2);
    assert(ch == (hi + 1) / 2);
    lemma_chroma_plane_le(wi, hi);
    lemma_yuv420_frame_len(format, w, h, src, f);
    // luma
    let pr = p / wi;
    let pc = p % wi;
    assert(pr * wi + pc == p) by {
        vstd::arithmetic::div_mod::lemma_fundamental_div_mod(p, wi);
    }
    assert(0 <= pr < hi) by (nonlinear_arith)
        requires
            0 <= p < wi * hi,
            pr == p / wi,
            wi > 0,
    ;
    vstd::arithmetic::div_mod::lemma_mod_bound(p, wi);
    lemma_pixel_in_source(pr, pc, wi, hi, bpp, src.len() as int);
    assert(frame[p] == luma(format, wi, hi, src, f, p));
    // chroma
    lemma_grid_index(by, bx, ch, cw);
    let b = by * cw + bx;
    let samples = block_samples(format, wi, hi, src, f, by, bx);
    let two_cols = 2 * bx + 1 < wi;
    let two_rows = 2 * by + 1 < hi;
    let p00 = (2 * by) * wi + 2 * bx;
    assert((2 * by + 1) * wi == (2 * by) * wi + wi) by (nonlinear_arith);
    assert(2 * bx < wi && 2 * by < hi);
    lemma_pixel_in_source(2 * by, 2 * bx, wi, hi, bpp, src.len() as int);
    if two_cols {
        lemma_pixel_in_source(2 * by, 2 * bx + 1, wi, hi, bpp, src.len() as int);
    }
    if two_rows {
        lemma_pixel_in_source(2 * by + 1, 2 * bx, wi, hi, bpp, src.len() as int);
    }
    if two_cols && two_rows {
        lemma_pixel_in_source(2 * by + 1, 2 * bx + 1, wi, hi, bpp, src.len() as int);
    }
    let y00 = packed_pixel_yuv(format, src, f, p00);
    let y01 = packed_pixel_yuv(format, src, f, p00 + 1);
    let y10 = packed_pixel_yuv(format, src, f, p00 + wi);
    let y11 = packed_pixel_yuv(format, src, f, p00 + wi + 1);
    assert(samples[0] == Some((y00.1, y00.2)));
    assert(samples[1] == if two_cols {
        Some((y01.1, y01.2))
    } else {
        None
    });
    assert(samples[2] == if two_rows {
        Some((y10.1, y10.2))
    } else {
        None
    });
    assert(samples[3] == if two_cols && two_rows {
        Some((y11.1, y11.2))
    } else {
        None
    });
    lemma_four_samples(samples);
    assert(frame[wi * hi + b] == block_chroma(format, wi, hi, src, f, by, bx).0);
    assert(frame[wi * hi + cw * ch + b] == block_chroma(format, wi, hi, src, f, by, bx).1);
}

/// Pixels that a packed RGB-family source is too short to hold have luma 0,
/// and a chroma block none of whose pixels the source holds has neutral
/// chroma 128.
pub proof fn lemma_yuv420_packed_missing<F: Fn(u8, u8, u8) -> (u8, u8, u8)>(
    format: VideoFormat,
    w: u32,
    h: u32,
    src: Seq<u8>,
    f: F,
    p: int,
    bx: int,
    by: int,
)
    requires
        format is RGB || format is RGBA || format is RGBx || format is BGRx || format is BGR,
    ensures
        0 <= p < w * h && (if format is RGB || format is BGR {
            3int
        } else {
            4int
        }) * (p + 1) > src.len() ==> yuv420_frame(format, w as int, h as int, src, f)[p] == 0,
        0 <= bx < (w + 1) / 2 && 0 <= by < (h + 1) / 2 && (if format is RGB || format is BGR {
            3int
        } else {
            4int
        }) * ((2 * by) * w + 2 * bx + 1) > src.len() ==> ({
            let frame = yuv420_frame(format, w as int, h as int, src, f);
            let cw = (w + 1) / 2;
            &&& frame[w * h + by * cw + bx] == 128
            &&& frame[w * h + cw * ((h + 1) / 2) + by * cw + bx] == 128
        }),
{
    let wi = w as int;
    let hi = h as int;
    let bpp: int = src_bpp(format);
    let frame = yuv420_frame(format, wi, hi, src, f);
    let cw = half_up(wi);
    let ch = half_up(hi);
    lemma_chroma_plane_le(wi, hi);
    lemma_yuv420_frame_len(format, w, h, src, f);
    if 0 <= bx < cw && 0 <= by < ch && bpp * ((2 * by) * wi + 2 * bx + 1) > src.len() {
        lemma_grid_index(by, bx, ch, cw);
        let samples = block_samples(format, wi, hi, src, f, by, bx);
        let p00 = (2 * by) * wi + 2 * bx;
        assert((2 * by + 1) * wi == (2 * by) * wi + wi) by (nonlinear_arith);
        assert(bpp * (p00 + 1) <= bpp * (p00 + 2)) by (nonlinear_arith)
            requires
                bpp > 0,
        ;
        assert(bpp * (p00 + 1) <= bpp * (p00 + wi + 1)) by (nonlinear_arith)
            requires
                bpp > 0,
                wi >= 0,
        ;
        assert(bpp * (p00 + 1) <= bpp * (p00 + wi + 2)) by (nonlinear_arith)
            requires
                bpp > 0,
                wi >= 0,
        ;
        assert(samples[0] is None);
        assert(samples[1] is None);
        assert(samples[2] is None);
        assert(samples[3] is None);
        lemma_four_samples(samples);
        assert(frame[wi * hi + by * cw + bx] == block_chroma(format, wi, hi, src, f, by, bx).0);
        assert(frame[wi * hi + cw * ch + by * cw + bx] == block_chroma(
            format,
            wi,
            hi,
            src,
            f,
            by,
            bx,
        ).1);
    }
}

/// A YUY2 source that holds the whole frame gives each pixel of the luma
/// plane its own luma byte: pixel `p` takes byte `2 * p` of the source, for
/// every pixel of a whole pair of pixels.
pub proof fn lemma_yuv420_yuy2_luma<F: Fn(u8, u8, u8) -> (u8, u8, u8)>(
    w: u32,
    h: u32,
    src: Seq<u8>,
    f: F,
    p: int,
)
    requires
        src.len() >= 2 * (w * h),
        0 <= p < 2 * ((w * h) / 2),
    ensures
        yuv420_frame(VideoFormat::YUY2, w as int, h as int, src, f)[p] == src[2 * p],
{
    lemma_chroma_plane_le(w as int, h as int);
    lemma_yuv420_frame_len(VideoFormat::YUY2, w, h, src, f);
    assert(4 * (p / 2) + 2 * (p % 2) == 2 * p);
}

} // verus!
