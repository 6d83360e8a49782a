//! Pixel-format conversions of captured frames.
pub mod pixel_format_utils;
pub mod pw_pixel_format_utils;
