//! Reading, editing and writing the chunk structure of PNG files.
//!
//! A PNG file is an eight-byte signature followed by a sequence of chunks.
//! Each chunk carries a four-letter type code, a payload and a CRC-32
//! checksum.  This crate models the three layers ([`chunk_type::ChunkType`],
//! [`chunk::Chunk`], [`png::Png`]) and proves that every operation agrees
//! with a mathematical description of the byte layout.  [`args::Args`] runs
//! the commands of the command-line tool on a file held in memory.

pub mod args;
pub mod checksum;
pub mod chunk;
pub mod chunk_type;
pub mod png;
mod text;
pub mod wire;
