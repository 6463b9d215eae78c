//! A binary-decoding library: reconstructs typed values from raw bytes under
//! an explicit byte order, either by slicing an exactly-sized buffer
//! (fixed-size decoding) or by sequential reads from a byte source
//! (streaming decoding).

pub mod endianness;
pub mod from_bytes;
pub mod read;
pub mod readables;
pub mod readers;
