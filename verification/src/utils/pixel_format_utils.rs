//! Dropping the alpha channel of RGBA8 frames.
use vstd::prelude::*;

verus! {

/// Byte `i` of the tightly packed RGB form of the first `pixels` RGBA8 pixels
/// of `rgba`: pixel `i / 3`, channel `i % 3`.
pub open spec fn rgba8_to_rgb_spec(rgba: Seq<u8>, pixels: int) -> Seq<u8> {
    Seq::new((3 * pixels) as nat, |i: int| rgba[(i / 3) * 4 + i % 3])
}

/// Converts RGBA8 pixel data to RGB by removing the alpha channel.
///
/// `rgba_data` holds 4 bytes per pixel; the result holds the red, green and
/// blue bytes of each of the `width * height` pixels, 3 bytes per pixel. The
/// alpha byte of the last pixel need not be present.
pub fn rgba8_to_rgb(rgba_data: &[u8], width: u32, height: u32) -> (rgb_data: Vec<u8>)
    requires
        width * height <= u32::MAX,
        width * height == 0 || rgba_data@.len() >= 4 * (width * height) - 1,
    ensures
        rgb_data@ == rgba8_to_rgb_spec(rgba_data@, width * height),
{
    let pixel_count = (width * height) as usize;
    let mut rgb_data: Vec<u8> = Vec::new();
    let len = rgba_data.len();
    let mut i: usize = 0;
    while i < pixel_count
        invariant
            pixel_count == width * height,
            i <= pixel_count,
            len == rgba_data@.len(),
            pixel_count == 0 || rgba_data@.len() >= 4 * pixel_count - 1,
            rgb_data@ == rgba8_to_rgb_spec(rgba_data@, i as int),
        decreases pixel_count - i,
    {
        assert(i * 4 + 3 <= rgba_data@.len());
        let rgba_offset = i * 4;
        rgb_data.push(rgba_data[rgba_offset]);
        rgb_data.push(rgba_data[rgba_offset + 1]);
        rgb_data.push(rgba_data[rgba_offset + 2]);
        assert(rgb_data@ =~= rgba8_to_rgb_spec(rgba_data@, i + 1));
        i = i + 1;
    }
    rgb_data
}

} // verus!
