//! Codecs over whole in-memory buffers, behind one interface.

use crate::compression::deflate::{is_for_level_number, DeflateCompressor};
use crate::compression::lzw::LzwCompressor;
use crate::text::lowercase;
use vstd::prelude::*;
use vstd::string::StringExecFns;

pub mod code_stream;
pub mod deflate;
pub mod dictionary;
pub mod lzw;
pub mod lzw_laws;
pub mod lzw_model;

verus! {

/// What can go wrong in setting up a codec or in running one.
#[derive(Debug)]
pub enum CompressionError {
    /// A compression level that the codec does not have.
    InvalidLevel(String),
    /// Compressing failed.
    Compression(String),
    /// The buffer handed in is not the compressed form of anything.
    Decompression(String),
    /// No codec goes by this name.
    UnknownAlgorithm(String),
}

impl CompressionError {
    /// The text that the error carries: a level, a name, or the reason.
    pub open spec fn detail(&self) -> Seq<char> {
        match self {
            CompressionError::InvalidLevel(s) => s@,
            CompressionError::Compression(s) => s@,
            CompressionError::Decompression(s) => s@,
            CompressionError::UnknownAlgorithm(s) => s@,
        }
    }

    /// The error as a line for a reader.
    pub open spec fn text(&self) -> Seq<char> {
        match self {
            CompressionError::InvalidLevel(s) => "Invalid compression level: "@ + s@,
            CompressionError::Compression(s) => "Compression failed: "@ + s@,
            CompressionError::Decompression(s) => "Decompression failed: "@ + s@,
            CompressionError::UnknownAlgorithm(s) => "Unknown compression algorithm: "@ + s@,
        }
    }

    /// Writes the error out as a line for a reader.
    pub fn message(&self) -> (line: String)
        ensures
            line@ == self.text(),
    {
        match self {
            CompressionError::InvalidLevel(s) => String::from_str("Invalid compression level: ").concat(
                s.as_str(),
            ),
            CompressionError::Compression(s) => String::from_str("Compression failed: ").concat(
                s.as_str(),
            ),
            CompressionError::Decompression(s) => String::from_str("Decompression failed: ").concat(
                s.as_str(),
            ),
            CompressionError::UnknownAlgorithm(s) => String::from_str(
                "Unknown compression algorithm: ",
            ).concat(s.as_str()),
        }
    }
}

/// A lossless codec over whole buffers.
pub trait Compressor {
    /// The compressed form of `data`, or the reason why there is none.
    spec fn compressed(&self, data: Seq<u8>) -> Result<Seq<u8>, Seq<char>>;

    /// The buffer that `data` is the compressed form of, or the reason why
    /// it is the compressed form of nothing.
    spec fn decompressed(&self, data: Seq<u8>) -> Result<Seq<u8>, Seq<char>>;

    /// Compresses `data`.
    fn compress(&self, data: &[u8]) -> (result: Result<Vec<u8>, CompressionError>)
        ensures
            match result {
                Ok(out) => self.compressed(data@) == Ok::<Seq<u8>, Seq<char>>(out@),
                Err(e) => e is Compression && self.compressed(data@) == Err::<Seq<u8>, Seq<char>>(
                    e.detail(),
                ),
            },
    ;

    /// Restores the buffer that `data` is the compressed form of.
    fn decompress(&self, data: &[u8]) -> (result: Result<Vec<u8>, CompressionError>)
        ensures
            match result {
                Ok(out) => self.decompressed(data@) == Ok::<Seq<u8>, Seq<char>>(out@),
                Err(e) => e is Decompression && self.decompressed(data@) == Err::<
                    Seq<u8>,
                    Seq<char>,
                >(e.detail()),
            },
    ;
}

/// Whether two results are the same: the same bytes, or the same kind of
/// error with the same text.
pub open spec fn same_result(
    first: Result<Vec<u8>, CompressionError>,
    second: Result<Vec<u8>, CompressionError>,
) -> bool {
    match (first, second) {
        (Ok(a), Ok(b)) => a@ == b@,
        (Err(e), Err(f)) => e.detail() == f.detail() && (e is Compression <==> f is Compression)
            && (e is Decompression <==> f is Decompression),
        _ => false,
    }
}

/// Compressing is deterministic: whatever `compress` returns for one
/// buffer on one compressor, it returns the same again.
pub proof fn lemma_compress_is_deterministic<C: Compressor>(
    compressor: C,
    data: Seq<u8>,
    first: Result<Vec<u8>, CompressionError>,
    second: Result<Vec<u8>, CompressionError>,
)
    requires
        match first {
            Ok(out) => compressor.compressed(data) == Ok::<Seq<u8>, Seq<char>>(out@),
            Err(e) => e is Compression && compressor.compressed(data) == Err::<Seq<u8>, Seq<char>>(
                e.detail(),
            ),
        },
        match second {
            Ok(out) => compressor.compressed(data) == Ok::<Seq<u8>, Seq<char>>(out@),
            Err(e) => e is Compression && compressor.compressed(data) == Err::<Seq<u8>, Seq<char>>(
                e.detail(),
            ),
        },
    ensures
        same_result(first, second),
{
}

/// The dictionary limit of an LZW compressor made by name.
pub const DEFAULT_TABLE_SIZE: usize = 4096;

/// One of the codecs, chosen by name.
pub enum CompressionAlgorithmType {
    /// Deflate, at some level.
    Deflate(DeflateCompressor),
    /// LZW, with some limit on its dictionary.
    Lzw(LzwCompressor),
}

/// Whether `result` is what asking for the codec `name`, a name in lower
/// case, gives: deflate at `level` or at its fastest, LZW with a dictionary
/// of up to 4096 entries whatever the level, and for any other name the
/// name back.
pub open spec fn is_created(
    name: Seq<char>,
    level: Option<u32>,
    result: Result<CompressionAlgorithmType, CompressionError>,
) -> bool {
    if name == "deflate"@ {
        match level {
            Some(number) => match result {
                Ok(CompressionAlgorithmType::Deflate(c)) => is_for_level_number(
                    number,
                    Ok::<DeflateCompressor, CompressionError>(c),
                ),
                Ok(_) => false,
                Err(e) => is_for_level_number(number, Err::<DeflateCompressor, CompressionError>(e)),
            },
            None => result matches Ok(CompressionAlgorithmType::Deflate(c)) && c.level() == 1,
        }
    } else if name == "lzw"@ {
        result matches Ok(CompressionAlgorithmType::Lzw(c)) && c.limit() == DEFAULT_TABLE_SIZE
    } else {
        result matches Err(e) && e is UnknownAlgorithm && e.detail() == name
    }
}

impl CompressionAlgorithmType {
    /// The codec that goes by `name`, a name in lower case.
    pub fn create_named(name: &str, level: Option<u32>) -> (result: Result<Self, CompressionError>)
        ensures
            is_created(name@, level, result),
    {
        let wanted = String::from_str(name);
        if wanted == String::from_str("deflate") {
            match level {
                Some(number) => match DeflateCompressor::with_level_number(number) {
                    Ok(compressor) => Ok(CompressionAlgorithmType::Deflate(compressor)),
                    Err(e) => Err(e),
                },
                None => Ok(CompressionAlgorithmType::Deflate(DeflateCompressor::new())),
            }
        } else if wanted == String::from_str("lzw") {
            Ok(CompressionAlgorithmType::Lzw(LzwCompressor::new(DEFAULT_TABLE_SIZE)))
        } else {
            Err(CompressionError::UnknownAlgorithm(wanted))
        }
    }

    /// The codec that goes by `algorithm`, "deflate" or "lzw" in any mix
    /// of upper and lower case. `level`, from 0 to 9, is for deflate.
    pub fn create(algorithm: &str, level: Option<u32>) -> (result: Result<Self, CompressionError>)
        ensures
            is_created(lowercase(algorithm@), level, result),
    {
        let name = algorithm.to_lowercase();
        Self::create_named(name.as_str(), level)
    }
}

impl Compressor for CompressionAlgorithmType {
    open spec fn compressed(&self, data: Seq<u8>) -> Result<Seq<u8>, Seq<char>> {
        match self {
            CompressionAlgorithmType::Deflate(c) => c.compressed(data),
            CompressionAlgorithmType::Lzw(c) => c.compressed(data),
        }
    }

    open spec fn decompressed(&self, data: Seq<u8>) -> Result<Seq<u8>, Seq<char>> {
        match self {
            CompressionAlgorithmType::Deflate(c) => c.decompressed(data),
            CompressionAlgorithmType::Lzw(c) => c.decompressed(data),
        }
    }

    fn compress(&self, data: &[u8]) -> (result: Result<Vec<u8>, CompressionError>) {
        match self {
            CompressionAlgorithmType::Deflate(c) => c.compress(data),
            CompressionAlgorithmType::Lzw(c) => c.compress(data),
        }
    }

    fn decompress(&self, data: &[u8]) -> (result: Result<Vec<u8>, CompressionError>) {
        match self {
            CompressionAlgorithmType::Deflate(c) => c.decompress(data),
            CompressionAlgorithmType::Lzw(c) => c.decompress(data),
        }
    }
}

} // verus!
