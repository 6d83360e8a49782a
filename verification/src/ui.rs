//! The decisions of the window: what the start/stop button reads and does,
//! and the scaling of a received frame to the size it is shown at.
use image::imageops::FilterType;
use image::{ImageBuffer, Rgb};
use vstd::prelude::*;

verus! {

/// What a click on the start/stop button asks for.
#[derive(Clone, Copy, Debug, PartialEq, Eq, Structural)]
pub enum PanelAction {
    /// Stop whatever runs.
    Stop,
    /// Start the server (the viewer) on the chosen port.
    StartServer,
    /// Start the client (the streamer) towards the chosen address and port.
    StartClient,
}

/// The label of the start/stop button in the chosen mode.
pub fn button_label(is_server: bool, is_running: bool) -> (label: &'static str)
    ensures
        is_server && is_running ==> label@ == "Stop Server"@,
        is_server && !is_running ==> label@ == "Start Server"@,
        !is_server && is_running ==> label@ == "Stop Client"@,
        !is_server && !is_running ==> label@ == "Start Client"@,
{
    if is_server {
        if is_running {
            "Stop Server"
        } else {
            "Start Server"
        }
    } else if is_running {
        "Stop Client"
    } else {
        "Start Client"
    }
}

/// A click on the start/stop button: `(running, action)`, where `running` is
/// the new running flag (the old one toggled) and `action` is to stop when
/// the application now stops, else to start the chosen side.
pub fn panel_click(is_server: bool, is_running: bool) -> (r: (bool, PanelAction))
    ensures
        r.0 == !is_running,
        is_running ==> r.1 == PanelAction::Stop,
        !is_running && is_server ==> r.1 == PanelAction::StartServer,
        !is_running && !is_server ==> r.1 == PanelAction::StartClient,
{
    let running = !is_running;
    if !running {
        (running, PanelAction::Stop)
    } else if is_server {
        (running, PanelAction::StartServer)
    } else {
        (running, PanelAction::StartClient)
    }
}

/// The pixels that `image::imageops::resize` with the nearest-neighbour
/// filter makes of a `width` by `height` frame of 3-byte RGB pixels `rgb`
/// when asked for `new_width` by `new_height` pixels.
pub uninterp spec fn nearest_resized(
    rgb: Seq<u8>,
    width: u32,
    height: u32,
    new_width: u32,
    new_height: u32,
) -> Seq<u8>;

/// Calls `image::imageops::resize` with `FilterType::Nearest` on `data` taken
/// as a `width` by `height` RGB image (`ImageBuffer::from_raw`, which holds
/// when `data` has exactly that many bytes) and returns the raw pixels of the
/// result. Its intermediate buffer holds four `f32` per pixel of a `width` by
/// `new_height` image, and the result three bytes per pixel of a `new_width`
/// by `new_height` image; the bounds keep both allocatable. The result has
/// `new_width * new_height` pixels, and is a copy of `data` when the size is
/// unchanged (the crate copies rather than samples then). Which source pixel
/// each pixel is taken from is computed in floating point and is left to the
/// name.
#[verifier::external_body]
fn resize_rgb_nearest(data: &[u8], width: u32, height: u32, new_width: u32, new_height: u32) -> (out:
    Vec<u8>)
    requires
        data@.len() == 3 * (width * height),
        16 * (width * new_height) <= isize::MAX,
        3 * (new_width * new_height) <= isize::MAX,
    ensures
        out@ == nearest_resized(data@, width, height, new_width, new_height),
        out@.len() == 3 * (new_width * new_height),
        new_width == width && new_height == height ==> out@ == data@,
{
    let image = ImageBuffer::<Rgb<u8>, &[u8]>::from_raw(width, height, data).unwrap();
    image::imageops::resize(&image, new_width, new_height, FilterType::Nearest).into_raw()
}

/// Scales a `width` by `height` frame of tightly packed RGB pixels to
/// `new_width` by `new_height` pixels by nearest-neighbour sampling, as the
/// viewer does before it shows a frame.
pub fn resize_nearest(data: &[u8], width: u32, height: u32, new_width: u32, new_height: u32) -> (out:
    Vec<u8>)
    requires
        data@.len() == 3 * (width * height),
        16 * (width * new_height) <= isize::MAX,
        3 * (new_width * new_height) <= isize::MAX,
    ensures
        out@ == nearest_resized(data@, width, height, new_width, new_height),
        out@.len() == 3 * (new_width * new_height),
        new_width == width && new_height == height ==> out@ == data@,
{
    resize_rgb_nearest(data, width, height, new_width, new_height)
}

} // verus!
