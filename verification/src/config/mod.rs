//! The settings that choose a codec, and the rules they have to meet.

use crate::compression::deflate::{is_for_level_number, DeflateCompressor, MAX_LEVEL};
use crate::compression::CompressionError;
use crate::text::{decimal, decimal_string};
use vstd::prelude::*;
use vstd::string::StringExecFns;

verus! {

/// The level that settings without one stand for.
pub const DEFAULT_LEVEL: u32 = 6;

/// Settings that cannot be used.
#[derive(Debug)]
pub enum ConfigError {
    /// What is wrong with them, in words.
    Message(String),
}

/// The settings of the application.
#[derive(Debug)]
pub struct AppConfig {
    /// The name of the codec.
    pub compression_algorithm: String,
    /// The compression level, for codecs that have one.
    pub compression_level: Option<u32>,
}

/// What `validate` says of a level that is too large.
pub open spec fn level_complaint(level: u32) -> Seq<char> {
    "Compression level "@ + decimal(level as nat) + " is invalid. Must be between 0 and 9."@
}

/// Whether `result` is what checking settings that stand for `level` gives.
pub open spec fn is_validated(level: u32, result: Result<(), ConfigError>) -> bool {
    if level <= MAX_LEVEL {
        result is Ok
    } else {
        result matches Err(ConfigError::Message(text)) && text@ == level_complaint(level)
    }
}

impl AppConfig {
    /// The level the settings stand for: the one given, or 6.
    pub open spec fn level(&self) -> u32 {
        match self.compression_level {
            Some(level) => level,
            None => DEFAULT_LEVEL,
        }
    }

    /// A deflate compressor at the level of the settings, if that is one
    /// of 0 to 9.
    pub fn create_compressor(&self) -> (result: Result<DeflateCompressor, CompressionError>)
        ensures
            is_for_level_number(self.level(), result),
    {
        let level: u32 = self.compression_level.unwrap_or(DEFAULT_LEVEL);
        if level > MAX_LEVEL {
            return Err(CompressionError::InvalidLevel(decimal_string(level as u64)));
        }
        Ok(DeflateCompressor::with_level(level))
    }

    /// Checks the settings: the level has to be one of 0 to 9.
    pub fn validate(&self) -> (result: Result<(), ConfigError>)
        ensures
            is_validated(self.level(), result),
    {
        let level: u32 = self.compression_level.unwrap_or(DEFAULT_LEVEL);
        if level > MAX_LEVEL {
            let mut text = String::from_str("Compression level ");
            let number = decimal_string(level as u64);
            text.append(number.as_str());
            text.append(" is invalid. Must be between 0 and 9.");
            return Err(ConfigError::Message(text));
        }
        Ok(())
    }
}

} // verus!
