//! Lossless compression of whole in-memory buffers.
//!
//! The heart of the crate is an LZW codec: [`compression::lzw`] runs it,
//! [`compression::lzw_model`] says what it computes, and
//! [`compression::lzw_laws`] proves that decoding gives back what was
//! encoded. A deflate codec, made by `flate2`, stands behind the same
//! [`compression::Compressor`] interface, and [`config`] holds the settings
//! that choose a compression level.

pub mod compression;
pub mod config;
pub mod text;
