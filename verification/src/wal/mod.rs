//! Append-only write-ahead log.
//!
//! A segment is eight magic bytes and then records, each framed as
//! `len:u32le | crc32(payload):u32le | payload`. A torn write at power loss becomes a cleanly
//! detectable log end, not corruption.

pub mod file_laws;
pub mod files;
pub mod install;
pub mod laws;
pub mod record;
pub mod segments;
pub mod writer;
