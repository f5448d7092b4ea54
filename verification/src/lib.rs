//! PNG files as chunks, verified.
//!
//! A PNG file is a fixed signature of eight bytes followed by chunks. Each
//! chunk has a length, a type of four ASCII letters, that many bytes of
//! data, and a CRC-32 checksum over the type and the data. This library
//! reads such files, finds, appends and removes chunks, and writes the
//! files back byte for byte.
//!
//! Every type has a mathematical model, its view, and every function says
//! over these models what it returns:
//!
//! - [`chunk_type`]: the four letters and the flags that their case holds;
//! - [`chunk`]: one chunk, [`chunk::parse_chunk`] and
//!   [`chunk::serialize_chunk`], and the laws that make them inverses;
//! - [`png`]: the file, [`png::parse_png`] and [`png::serialize_png`],
//!   lookup and removal by type;
//! - [`commands`]: what the command-line tool decides once a file is read;
//! - [`bytes`], [`text`], [`checksum`]: big-endian numbers, text made from
//!   bytes, and the checksum itself.
//!
//! Verus proves the functions against their contracts. What it takes on
//! trust is little and marked as such: the checksum of the `crc` crate,
//! and three functions of the standard library in [`text`].
pub mod bytes;
pub mod checksum;
pub mod chunk;
pub mod chunk_type;
pub mod commands;
pub mod png;
pub mod text;
