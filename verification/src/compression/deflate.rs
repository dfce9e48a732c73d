//! The deflate codec: raw deflate streams, made and read by `flate2`.

use crate::compression::{CompressionError, Compressor};
use crate::text::{decimal, decimal_string, lowercase};
use flate2::read::DeflateDecoder;
use flate2::write::DeflateEncoder;
use flate2::Compression;
use std::io::Read;
use std::io::Write;
use vstd::prelude::*;
use vstd::string::StringExecFns;

verus! {

/// The largest level that the encoder takes.
pub const MAX_ENCODER_LEVEL: u32 = 10;

/// The largest level that can be asked for by number.
pub const MAX_LEVEL: u32 = 9;

/// The raw deflate stream that `flate2` writes for `data` at `level`, or
/// the text of the error it reports.
pub uninterp spec fn deflate_stream(data: Seq<u8>, level: u32) -> Result<Seq<u8>, Seq<char>>;

/// The bytes that `flate2` reads out of the raw deflate stream `data`, or
/// the text of the error it reports.
pub uninterp spec fn inflate_stream(data: Seq<u8>) -> Result<Seq<u8>, Seq<char>>;

/// Runs `flate2::write::DeflateEncoder` over `data` into a fresh vector:
/// `new` at `Compression::new(level)`, `write_all`, `finish`. The outcome
/// depends on `data` and `level` alone and goes by the name
/// `deflate_stream`. Making the encoder asserts `level <= 10` in debug builds.
#[verifier::external_body]
fn deflate(data: &[u8], level: u32) -> (outcome: Result<Vec<u8>, String>)
    requires
        level <= MAX_ENCODER_LEVEL,
    ensures
        match outcome {
            Ok(out) => deflate_stream(data@, level) == Ok::<Seq<u8>, Seq<char>>(out@),
            Err(reason) => deflate_stream(data@, level) == Err::<Seq<u8>, Seq<char>>(reason@),
        },
{
    let mut encoder = DeflateEncoder::new(Vec::new(), Compression::new(level));
    match encoder.write_all(data) {
        Ok(()) => match encoder.finish() {
            Ok(out) => Ok(out),
            Err(e) => Err(e.to_string()),
        },
        Err(e) => Err(e.to_string()),
    }
}

/// Reads `flate2::read::DeflateDecoder` over `data` to its end. The
/// outcome depends on `data` alone and goes by the name `inflate_stream`.
#[verifier::external_body]
fn inflate(data: &[u8]) -> (outcome: Result<Vec<u8>, String>)
    ensures
        match outcome {
            Ok(out) => inflate_stream(data@) == Ok::<Seq<u8>, Seq<char>>(out@),
            Err(reason) => inflate_stream(data@) == Err::<Seq<u8>, Seq<char>>(reason@),
        },
{
    let mut decoder = DeflateDecoder::new(data);
    let mut out = Vec::new();
    match decoder.read_to_end(&mut out) {
        Ok(_) => Ok(out),
        Err(e) => Err(e.to_string()),
    }
}

/// The level of `flate2::Compression::fast()`, which its source gives as 1.
#[verifier::external_body]
fn fast_level() -> (level: u32)
    ensures
        level == 1,
{
    Compression::fast().level()
}

/// The level of `flate2::Compression::best()`, which its source gives as 9.
#[verifier::external_body]
fn best_level() -> (level: u32)
    ensures
        level == 9,
{
    Compression::best().level()
}

/// What `compress` returns for what the encoder gave.
pub fn compress_outcome(encoded: Result<Vec<u8>, String>) -> (result: Result<
    Vec<u8>,
    CompressionError,
>)
    ensures
        match encoded {
            Ok(out) => result == Ok::<Vec<u8>, CompressionError>(out),
            Err(reason) => result == Err::<Vec<u8>, CompressionError>(
                CompressionError::Compression(reason),
            ),
        },
{
    match encoded {
        Ok(out) => Ok(out),
        Err(reason) => Err(CompressionError::Compression(reason)),
    }
}

/// What `decompress` returns for what the decoder gave.
pub fn decompress_outcome(decoded: Result<Vec<u8>, String>) -> (result: Result<
    Vec<u8>,
    CompressionError,
>)
    ensures
        match decoded {
            Ok(out) => result == Ok::<Vec<u8>, CompressionError>(out),
            Err(reason) => result == Err::<Vec<u8>, CompressionError>(
                CompressionError::Decompression(reason),
            ),
        },
{
    match decoded {
        Ok(out) => Ok(out),
        Err(reason) => Err(CompressionError::Decompression(reason)),
    }
}

/// The level that a name stands for: "fastest", "default" or "best".
pub open spec fn predefined_level(name: Seq<char>) -> Option<u32> {
    if name == "fastest"@ {
        Some(1u32)
    } else if name == "default"@ {
        Some(6u32)
    } else if name == "best"@ {
        Some(9u32)
    } else {
        None
    }
}

/// Whether `result` is what asking for the level named `name` gives, where
/// the name was written as `given`.
pub open spec fn is_for_level_name(
    name: Seq<char>,
    given: Seq<char>,
    result: Result<DeflateCompressor, CompressionError>,
) -> bool {
    match predefined_level(name) {
        Some(level) => result matches Ok(compressor) && compressor.level() == level,
        None => result matches Err(e) && e is InvalidLevel && e.detail() == given,
    }
}

/// Whether `result` is what asking for `level` by number gives.
pub open spec fn is_for_level_number(
    level: u32,
    result: Result<DeflateCompressor, CompressionError>,
) -> bool {
    if level <= MAX_LEVEL {
        result matches Ok(compressor) && compressor.level() == level
    } else {
        result matches Err(e) && e is InvalidLevel && e.detail() == decimal(level as nat)
    }
}

/// A deflate compressor with a compression level.
#[derive(Debug)]
pub struct DeflateCompressor {
    level_number: u32,
}

impl DeflateCompressor {
    #[verifier::type_invariant]
    spec fn encoder_takes_level(self) -> bool {
        self.level_number <= MAX_ENCODER_LEVEL
    }

    /// The compression level.
    pub closed spec fn level(&self) -> u32 {
        self.level_number
    }

    /// What `description` writes.
    pub open spec fn description_text(&self) -> Seq<char> {
        "DeflateCompressor (Compression Level: "@ + decimal(self.level() as nat) + ")"@
    }

    /// A compressor at the fastest level, 1.
    pub fn new() -> (compressor: Self)
        ensures
            compressor.level() == 1,
    {
        DeflateCompressor { level_number: fast_level() }
    }

    /// A compressor at `level`, which may be the encoder's level 10.
    pub fn with_level(level: u32) -> (compressor: Self)
        requires
            level <= MAX_ENCODER_LEVEL,
        ensures
            compressor.level() == level,
    {
        DeflateCompressor { level_number: level }
    }

    /// A compressor at the level that `name` stands for, `name` being the
    /// lowercase form of `given`.
    pub fn for_level_name(name: &str, given: &str) -> (result: Result<Self, CompressionError>)
        ensures
            is_for_level_name(name@, given@, result),
    {
        let name = String::from_str(name);
        if name == String::from_str("fastest") {
            Ok(DeflateCompressor { level_number: fast_level() })
        } else if name == String::from_str("default") {
            Ok(DeflateCompressor { level_number: 6 })
        } else if name == String::from_str("best") {
            Ok(DeflateCompressor { level_number: best_level() })
        } else {
            Err(CompressionError::InvalidLevel(String::from_str(given)))
        }
    }

    /// A compressor at the level called `level`: "fastest" (1), "default"
    /// (6) or "best" (9), in any mix of upper and lower case.
    pub fn with_predefined_level(level: &str) -> (result: Result<Self, CompressionError>)
        ensures
            is_for_level_name(lowercase(level@), level@, result),
    {
        let name = level.to_lowercase();
        Self::for_level_name(name.as_str(), level)
    }

    /// A compressor at `level`, which has to be one of 0 to 9.
    pub fn with_level_number(level: u32) -> (result: Result<Self, CompressionError>)
        ensures
            is_for_level_number(level, result),
    {
        if level > MAX_LEVEL {
            return Err(CompressionError::InvalidLevel(decimal_string(level as u64)));
        }
        Ok(DeflateCompressor { level_number: level })
    }

    /// The compression level.
    pub fn get_level(&self) -> (level: u32)
        ensures
            level == self.level(),
    {
        self.level_number
    }

    /// The compressor in words, with its level.
    pub fn description(&self) -> (text: String)
        ensures
            text@ == self.description_text(),
    {
        let mut text = String::from_str("DeflateCompressor (Compression Level: ");
        let level = decimal_string(self.level_number as u64);
        text.append(level.as_str());
        text.append(")");
        text
    }
}

impl Clone for DeflateCompressor {
    fn clone(&self) -> (copy: Self)
        ensures
            copy == *self,
    {
        proof {
            use_type_invariant(self);
        }
        DeflateCompressor { level_number: self.level_number }
    }
}

impl Compressor for DeflateCompressor {
    open spec fn compressed(&self, data: Seq<u8>) -> Result<Seq<u8>, Seq<char>> {
        deflate_stream(data, self.level())
    }

    open spec fn decompressed(&self, data: Seq<u8>) -> Result<Seq<u8>, Seq<char>> {
        inflate_stream(data)
    }

    /// Compresses `data` into a raw deflate stream.
    fn compress(&self, data: &[u8]) -> (result: Result<Vec<u8>, CompressionError>) {
        proof {
            use_type_invariant(self);
        }
        compress_outcome(deflate(data, self.level_number))
    }

    /// Restores the bytes of the raw deflate stream `data`.
    fn decompress(&self, data: &[u8]) -> (result: Result<Vec<u8>, CompressionError>) {
        decompress_outcome(inflate(data))
    }
}

} // verus!
