//! Verified core of a screen-streaming application: the wire header of a
//! frame, the frame metrics kept by both ends, the pixel-format conversions
//! applied to captured frames, the encoding step of the H.264 client and the
//! packet and stream decisions of the QUIC server, and the decisions of the
//! window.

pub mod args;
pub mod client;
pub mod header;
pub mod perf;
pub mod server;
pub mod source;
pub mod ui;
pub mod utils;
