//! A codec for the PNG chunk format: chunk type codes, checksummed chunks,
//! and the container that holds an ordered sequence of them behind the PNG
//! signature. Every function carries a contract over byte sequences.

pub mod error;
pub mod text;
pub mod endian;
pub mod checksum;
pub mod chunk_type;
pub mod chunk;
pub mod png;
