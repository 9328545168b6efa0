//! The interface for applications: packets in, pictures out, whatever the codec.

pub mod color;
pub mod config;
pub mod decoder;
pub mod format;
pub mod frame;
pub mod packet;
