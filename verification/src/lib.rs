//! A small binary container for a grid of RGB pixels.
//!
//! Every pixel is stored as a five-byte chunk that carries its own checksum,
//! and the whole file starts with a thirty-byte header that carries the
//! dimensions of the grid and a checksum over them.

pub mod bigendian;
pub mod checksum;
pub mod chunk;
pub mod error;
pub mod file;
pub mod header;
pub mod laws;
pub mod rgb;
