//! LSB steganography inside PNG containers.
//!
//! The crate frames and checks PNG chunks, decodes the image header, and
//! hides payload bits in the least-significant bit of pixel channel bytes.
//! Every function carries a contract that Verus proves.

pub mod bits;
pub mod checksum;
pub mod chunk;
pub mod chunk_type;
pub mod container;
pub mod encoding;
pub mod endian;
pub mod error;
pub mod header;
pub mod pixel;
