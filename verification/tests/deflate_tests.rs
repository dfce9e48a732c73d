use image_compression::compression::deflate::{
    compress_outcome, decompress_outcome, DeflateCompressor,
};
use image_compression::compression::{CompressionError, Compressor};

#[test]
fn test_deflate_compressor_default_level() {
    let compressor = DeflateCompressor::new();
    let data = b"Test data for default compression level.";
    let compressed = compressor.compress(data).unwrap();
    let decompressed = compressor.decompress(&compressed).unwrap();
    assert_eq!(data.to_vec(), decompressed);
    assert_eq!(compressor.get_level(), 1);
}

#[test]
fn test_deflate_compressor_custom_level() {
    let compressor = DeflateCompressor::with_level_number(7).unwrap();
    let data = b"Test data for custom compression level.";
    let compressed = compressor.compress(data).unwrap();
    let decompressed = compressor.decompress(&compressed).unwrap();
    assert_eq!(data.to_vec(), decompressed);
    assert_eq!(compressor.get_level(), 7);
}

#[test]
fn test_deflate_compressor_predefined_level() {
    let compressor = DeflateCompressor::with_predefined_level("best").unwrap();
    let data = b"Test data for predefined compression level.";
    let compressed = compressor.compress(data).unwrap();
    let decompressed = compressor.decompress(&compressed).unwrap();
    assert_eq!(data.to_vec(), decompressed);
    assert_eq!(compressor.get_level(), 9);
}

#[test]
fn test_deflate_compressor_empty_data() {
    let compressor = DeflateCompressor::new();
    let data: &[u8] = b"";
    let compressed = compressor.compress(data).unwrap();
    let decompressed = compressor.decompress(&compressed).unwrap();
    assert_eq!(data.to_vec(), decompressed);
}

#[test]
fn test_deflate_compressor_invalid_decompress() {
    let compressor = DeflateCompressor::new();
    let invalid_data = b"Invalid compressed data";
    let result = compressor.decompress(invalid_data);
    assert!(result.is_err());
}

#[test]
fn test_deflate_compressor_invalid_level() {
    let result = DeflateCompressor::with_predefined_level("superfast");
    assert!(result.is_err());
    if let Err(CompressionError::InvalidLevel(level)) = result {
        assert_eq!(level, "superfast");
    } else {
        panic!("Expected InvalidLevel error");
    }
}

#[test]
fn deflate_changes_the_bytes_and_inflate_restores_them() {
    let data = vec![b'x'; 2000];
    let compressor = DeflateCompressor::new();
    let compressed = compressor.compress(&data).unwrap();
    assert_ne!(compressed, data);
    assert!(compressed.len() < data.len());
    let restored = compressor.decompress(&compressed).unwrap();
    assert_ne!(restored, compressed);
    assert_eq!(restored, data);
}

#[test]
fn deflate_gives_the_same_bytes_each_time() {
    let data = b"the same bytes, the same bytes, the same bytes".to_vec();
    let compressor = DeflateCompressor::with_level(6);
    let first = compressor.compress(&data).unwrap();
    assert_eq!(compressor.compress(&data).unwrap(), first);
    assert_eq!(compressor.clone().compress(&data).unwrap(), first);
}

#[test]
fn every_encoder_level_round_trips() {
    let data = b"level by level, level by level, level by level".to_vec();
    for level in 0..=10u32 {
        let compressor = DeflateCompressor::with_level(level);
        assert_eq!(compressor.get_level(), level);
        let compressed = compressor.compress(&data).unwrap();
        assert_eq!(compressor.decompress(&compressed).unwrap(), data);
    }
}

#[test]
fn level_zero_stores_the_data() {
    let data = b"stored".to_vec();
    let compressed = DeflateCompressor::with_level(0).compress(&data).unwrap();
    // one stored block: header, length, its complement, the bytes
    assert_eq!(compressed, vec![1, 6, 0, 249, 255, b's', b't', b'o', b'r', b'e', b'd']);
}

#[test]
fn invalid_stream_is_a_decompression_error() {
    let result = DeflateCompressor::new().decompress(b"Invalid compressed data");
    match result {
        Err(CompressionError::Decompression(text)) => assert_eq!(text, "corrupt deflate stream"),
        other => panic!("expected a decompression error, got {:?}", other),
    }
}

#[test]
fn predefined_levels_by_name() {
    assert_eq!(DeflateCompressor::with_predefined_level("fastest").unwrap().get_level(), 1);
    assert_eq!(DeflateCompressor::with_predefined_level("default").unwrap().get_level(), 6);
    assert_eq!(DeflateCompressor::with_predefined_level("best").unwrap().get_level(), 9);
    assert_eq!(DeflateCompressor::with_predefined_level("BEST").unwrap().get_level(), 9);
    assert_eq!(DeflateCompressor::with_predefined_level("Fastest").unwrap().get_level(), 1);
}

#[test]
fn unknown_level_name_comes_back_as_written() {
    match DeflateCompressor::with_predefined_level("SuperFast") {
        Err(CompressionError::InvalidLevel(level)) => assert_eq!(level, "SuperFast"),
        other => panic!("expected an invalid level, got {:?}", other),
    }
    match DeflateCompressor::with_predefined_level("") {
        Err(CompressionError::InvalidLevel(level)) => assert_eq!(level, ""),
        other => panic!("expected an invalid level, got {:?}", other),
    }
}

#[test]
fn level_name_is_taken_as_given_once_lowered() {
    assert_eq!(DeflateCompressor::for_level_name("best", "BEST").unwrap().get_level(), 9);
    match DeflateCompressor::for_level_name("BEST", "BEST") {
        Err(CompressionError::InvalidLevel(level)) => assert_eq!(level, "BEST"),
        other => panic!("expected an invalid level, got {:?}", other),
    }
    match DeflateCompressor::for_level_name("quick", "Quick") {
        Err(CompressionError::InvalidLevel(level)) => assert_eq!(level, "Quick"),
        other => panic!("expected an invalid level, got {:?}", other),
    }
}

#[test]
fn level_numbers_up_to_nine() {
    for level in 0..=9u32 {
        assert_eq!(DeflateCompressor::with_level_number(level).unwrap().get_level(), level);
    }
    for (level, text) in [(10u32, "10"), (11, "11"), (4294967295, "4294967295")] {
        match DeflateCompressor::with_level_number(level) {
            Err(CompressionError::InvalidLevel(given)) => assert_eq!(given, text),
            other => panic!("expected an invalid level, got {:?}", other),
        }
    }
}

#[test]
fn outcomes_keep_bytes_and_name_the_side_that_failed() {
    assert_eq!(compress_outcome(Ok(vec![1, 2, 3])).unwrap(), vec![1, 2, 3]);
    assert_eq!(decompress_outcome(Ok(vec![4, 5])).unwrap(), vec![4, 5]);
    match compress_outcome(Err("disk full".to_string())) {
        Err(CompressionError::Compression(text)) => assert_eq!(text, "disk full"),
        other => panic!("expected a compression error, got {:?}", other),
    }
    match decompress_outcome(Err("corrupt".to_string())) {
        Err(CompressionError::Decompression(text)) => assert_eq!(text, "corrupt"),
        other => panic!("expected a decompression error, got {:?}", other),
    }
}

#[test]
fn description_names_the_level() {
    assert_eq!(DeflateCompressor::new().description(), "DeflateCompressor (Compression Level: 1)");
    assert_eq!(
        DeflateCompressor::with_level(10).description(),
        "DeflateCompressor (Compression Level: 10)"
    );
}
