//! H.264 encoding of captured RGB frames with the OpenH264 encoder.
use openh264::encoder::{EncodedBitStream, Encoder};
use openh264::formats::{RgbSliceU8, YUVBuffer, YUVSource};
use vstd::prelude::*;

verus! {

#[verifier::external_type_specification]
#[verifier::external_body]
pub struct ExEncoder(openh264::encoder::Encoder);

#[verifier::external_type_specification]
#[verifier::external_body]
pub struct ExEncodedBitStream<'a>(openh264::encoder::EncodedBitStream<'a>);

#[verifier::external_type_specification]
#[verifier::external_body]
pub struct ExOpenH264Error(openh264::Error);

/// The H.264 encoder refused to start or to encode a frame.
pub enum EncodeError {
    Encoder,
}

/// Calls `openh264::encoder::Encoder::new`, an encoder with the default
/// configuration that has been handed no frame. Whether the native encoder
/// starts is not claimed.
#[verifier::external_body]
fn openh264_encoder_new() -> (r: Result<Encoder, openh264::Error>)
    ensures
        r matches Ok(e) ==> frames_handed(e) == Seq::<(Seq<u8>, usize, usize)>::empty(),
{
    Encoder::new()
}

/// Sample of channel `c` (0 red, 1 green, 2 blue) of the pixel at column `x`
/// and row `y` of a frame `width` pixels wide, 3 bytes a pixel.
pub open spec fn rgb_sample(rgb: Seq<u8>, width: int, x: int, y: int, c: int) -> int {
    rgb[3 * (y * width + x) + c] as int
}

/// Luma of one pixel in OpenH264's integer BT.601 conversion.
pub open spec fn luma(r: int, g: int, b: int) -> int {
    (66 * r + 129 * g + 25 * b) / 256 + 16
}

/// Blue-difference chroma of one averaged pixel.
pub open spec fn chroma_u(r: int, g: int, b: int) -> int {
    (-38 * r + 112 * b - 74 * g) / 256 + 128
}

/// Red-difference chroma of one averaged pixel.
pub open spec fn chroma_v(r: int, g: int, b: int) -> int {
    (112 * r - 18 * b - 94 * g) / 256 + 128
}

/// Rounded mean of channel `c` over the 2x2 block of pixels whose top left
/// pixel is at column `2 * bx` and row `2 * by`.
pub open spec fn block_mean(rgb: Seq<u8>, width: int, bx: int, by: int, c: int) -> int {
    (rgb_sample(rgb, width, 2 * bx, 2 * by, c) + rgb_sample(rgb, width, 2 * bx + 1, 2 * by, c)
        + rgb_sample(rgb, width, 2 * bx, 2 * by + 1, c) + rgb_sample(
        rgb,
        width,
        2 * bx + 1,
        2 * by + 1,
        c,
    ) + 2) / 4
}

/// The I420 frame that OpenH264 makes of a `width` by `height` frame of 3-byte
/// RGB pixels: a luma byte for each pixel, row by row, then a plane of U and a
/// plane of V bytes, one for each 2x2 block, block row by block row.
pub open spec fn openh264_i420(rgb: Seq<u8>, width: usize, height: usize) -> Seq<u8> {
    let w = width as int;
    let h = height as int;
    let half_w = w / 2;
    let quarter = half_w * (h / 2);
    Seq::new(
        (w * h + 2 * quarter) as nat,
        |i: int|
            if i < w * h {
                luma(
                    rgb_sample(rgb, w, i % w, i / w, 0),
                    rgb_sample(rgb, w, i % w, i / w, 1),
                    rgb_sample(rgb, w, i % w, i / w, 2),
                ) as u8
            } else if i < w * h + quarter {
                let j = i - w * h;
                chroma_u(
                    block_mean(rgb, w, j % half_w, j / half_w, 0),
                    block_mean(rgb, w, j % half_w, j / half_w, 1),
                    block_mean(rgb, w, j % half_w, j / half_w, 2),
                ) as u8
            } else {
                let j = i - w * h - quarter;
                chroma_v(
                    block_mean(rgb, w, j % half_w, j / half_w, 0),
                    block_mean(rgb, w, j % half_w, j / half_w, 1),
                    block_mean(rgb, w, j % half_w, j / half_w, 2),
                ) as u8
            },
    )
}

/// An I420 frame of even sides has half as many bytes again as it has pixels.
pub proof fn lemma_i420_len(rgb: Seq<u8>, width: usize, height: usize)
    requires
        width % 2 == 0,
        height % 2 == 0,
    ensures
        openh264_i420(rgb, width, height).len() == 3 * (width * height) / 2,
{
    let a = width / 2;
    let b = height / 2;
    assert(width * height == 4 * (a * b)) by (nonlinear_arith)
        requires
            width == 2 * a,
            height == 2 * b,
    ;
    assert((width / 2) * (height / 2) == a * b);
}

/// The frames an OpenH264 encoder has been handed, oldest first: the I420
/// bytes of each, with its width and height.
pub uninterp spec fn frames_handed(encoder: Encoder) -> Seq<(Seq<u8>, usize, usize)>;

/// The bytes of the NAL units that the encoder produced for the last frame it
/// was handed. What they are is the native encoder's affair and is not stated.
pub uninterp spec fn last_output(encoder: Encoder) -> Seq<u8>;

/// The bytes of the NAL units of a bitstream, layer by layer, in order.
pub uninterp spec fn nal_bytes(bitstream: EncodedBitStream) -> Seq<u8>;

/// Calls `YUVBuffer::from_rgb8_source` on `data` viewed as a `width` by
/// `height` RGB frame (`RgbSliceU8::new`, which panics unless `data` holds
/// exactly that frame and both sides are even) and returns its Y, U and V
/// planes one after the other. The planes are those of the crate's portable
/// integer conversion (`formats/arch/scalar.rs`), which its AVX2 path computes
/// alike.
#[verifier::external_body]
fn rgb8_to_i420(data: &[u8], width: usize, height: usize) -> (yuv: Vec<u8>)
    requires
        data@.len() == width * height * 3,
        width % 2 == 0,
        height % 2 == 0,
    ensures
        yuv@ == openh264_i420(data@, width, height),
{
    let buffer = YUVBuffer::from_rgb8_source(RgbSliceU8::new(data, (width, height)));
    [buffer.y(), buffer.u(), buffer.v()].concat()
}

/// Calls `Encoder::encode` on the I420 frame `yuv` of `width` by `height`
/// pixels (`YUVBuffer::from_vec`, which panics unless the sides are even and
/// `yuv` has the I420 length): the frame is handed to the encoder. The
/// bitstream it returns borrows the encoder's own output buffers, so its bytes
/// are the encoder's last output; what those bytes are, and whether encoding
/// succeeds, depends on the state of the native encoder and is not claimed.
#[verifier::external_body]
fn encode_i420<'a>(encoder: &'a mut Encoder, yuv: Vec<u8>, width: usize, height: usize) -> (r:
    Result<EncodedBitStream<'a>, openh264::Error>)
    requires
        3 * (width * height) <= usize::MAX,
        yuv@.len() == 3 * (width * height) / 2,
        width % 2 == 0,
        height % 2 == 0,
    ensures
        frames_handed(*final(encoder)) == frames_handed(*old(encoder)).push((yuv@, width, height)),
        r matches Ok(bs) ==> nal_bytes(bs) == last_output(*final(encoder)),
{
    encoder.encode(&YUVBuffer::from_vec(yuv, width, height))
}

/// Calls `EncodedBitStream::write_vec`, which appends the bytes of each NAL
/// unit of each layer of the bitstream to `dst`, in order.
#[verifier::external_body]
fn append_bitstream(bitstream: &EncodedBitStream<'_>, dst: &mut Vec<u8>)
    ensures
        final(dst)@ == old(dst)@ + nal_bytes(*bitstream),
{
    bitstream.write_vec(dst)
}

/// An H.264 encoder with the default configuration, handed no frame yet.
pub fn new_encoder() -> (r: Result<Encoder, EncodeError>)
    ensures
        r matches Ok(e) ==> frames_handed(e) == Seq::<(Seq<u8>, usize, usize)>::empty(),
{
    match openh264_encoder_new() {
        Ok(encoder) => Ok(encoder),
        Err(_) => Err(EncodeError::Encoder),
    }
}

/// Converts a `width` by `height` frame of tightly packed RGB pixels (3 bytes
/// each) to the I420 frame that the encoder is handed.
pub fn rgb_to_i420(data: &[u8], width: usize, height: usize) -> (yuv: Vec<u8>)
    requires
        data@.len() == width * height * 3,
        width % 2 == 0,
        height % 2 == 0,
    ensures
        yuv@ == openh264_i420(data@, width, height),
        yuv@.len() == 3 * (width * height) / 2,
{
    proof {
        lemma_i420_len(data@, width, height);
    }
    rgb8_to_i420(data, width, height)
}

/// Encodes one `width` by `height` frame of tightly packed RGB pixels
/// (3 bytes each) into an H.264 bitstream: the frame is converted to I420 and
/// handed to the encoder, whatever the encoder then reports; on success the
/// bytes returned are those the encoder produced for that frame.
pub fn encode_rgb_frame(encoder: &mut Encoder, data: &[u8], width: u32, height: u32) -> (r: Result<
    Vec<u8>,
    EncodeError,
>)
    requires
        data@.len() == width * height * 3,
        width % 2 == 0,
        height % 2 == 0,
    ensures
        frames_handed(*final(encoder)) == frames_handed(*old(encoder)).push(
            (openh264_i420(data@, width as usize, height as usize), width as usize, height as usize),
        ),
        r matches Ok(bytes) ==> bytes@ == last_output(*final(encoder)),
{
    let w = width as usize;
    let h = height as usize;
    let data_len: usize = data.len();
    assert(3 * (w * h) == data_len);
    let yuv_source = rgb_to_i420(data, w, h);
    match encode_i420(encoder, yuv_source, w, h) {
        Ok(bitstream) => {
            let mut bitstream_bytes: Vec<u8> = Vec::new();
            append_bitstream(&bitstream, &mut bitstream_bytes);
            assert(bitstream_bytes@ =~= nal_bytes(bitstream));
            Ok(bitstream_bytes)
        },
        Err(_) => Err(EncodeError::Encoder),
    }
}

} // verus!
