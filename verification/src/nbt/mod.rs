//! Network NBT: pre-encoded components, the byte writers, and compile-time splicing.
pub mod encoded;
pub mod writers;
pub mod splice;
pub mod tag;
pub mod encode;
pub mod text;
pub mod rendering;
pub mod model;
pub mod decoding;
pub mod reader;
pub mod round_trip;
