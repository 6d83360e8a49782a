//! Screen-capture sources, one per platform.
pub mod pipewire_source;
pub mod windows_source;
