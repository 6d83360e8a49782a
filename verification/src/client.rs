//! The streaming end: what it computes on a frame before sending it.
pub mod quic_h264_client;
