//! Least-significant-bit steganography over an RGB pixel surface.
//!
//! A payload is embedded one bit per pixel channel, LSB-first within each
//! byte, walking the surface in a fixed row-major, channel-minor order.
//! Each payload is framed by a 4-byte big-endian length header so the
//! extractor knows how many bits to read back.

pub mod bits;
pub mod codec;
mod error;
pub mod sequencer;
pub mod surface;

pub use codec::embed;
pub use codec::extract;
pub use codec::get_next_payload;
pub use codec::read_bytes;
pub use codec::steg;
pub use codec::unsteg_bytes;
pub use codec::write_bytes;
pub use codec::write_payload_with_header;
pub use error::Error;
pub use sequencer::ImageCoordinate;
pub use sequencer::ImageIterator;
pub use surface::Surface;
