//! PNG files at the level of their chunks: parsing a byte stream into chunks,
//! checking each chunk's type code, length and CRC-32, inserting, finding and
//! removing chunks by type, and writing the container back out byte for byte.
pub mod error;
pub mod crc;
pub mod chunk_type;
pub mod wire;
pub mod chunk;
pub mod container;
pub mod png;
pub mod command;
