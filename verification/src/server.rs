//! The viewing end: which packets reach the connection, and the material it
//! needs to start.
pub mod quic_h264_server;
