use image_compression::compression::{CompressionAlgorithmType, CompressionError, Compressor};

fn deflate_level(created: Result<CompressionAlgorithmType, CompressionError>) -> u32 {
    match created {
        Ok(CompressionAlgorithmType::Deflate(compressor)) => compressor.get_level(),
        Ok(CompressionAlgorithmType::Lzw(_)) => panic!("expected deflate, got LZW"),
        Err(e) => panic!("expected deflate, got {:?}", e),
    }
}

#[test]
fn deflate_by_name() {
    assert_eq!(deflate_level(CompressionAlgorithmType::create("deflate", None)), 1);
    assert_eq!(deflate_level(CompressionAlgorithmType::create("deflate", Some(0))), 0);
    assert_eq!(deflate_level(CompressionAlgorithmType::create("deflate", Some(9))), 9);
    assert_eq!(deflate_level(CompressionAlgorithmType::create("DEFLATE", Some(4))), 4);
    assert_eq!(deflate_level(CompressionAlgorithmType::create("Deflate", None)), 1);
}

#[test]
fn deflate_by_name_checks_the_level() {
    match CompressionAlgorithmType::create("deflate", Some(10)) {
        Err(CompressionError::InvalidLevel(level)) => assert_eq!(level, "10"),
        _ => panic!("expected an invalid level"),
    }
}

#[test]
fn lzw_by_name_has_a_dictionary_of_4096() {
    for name in ["lzw", "LZW", "Lzw"] {
        for level in [None, Some(3), Some(99)] {
            match CompressionAlgorithmType::create(name, level) {
                Ok(CompressionAlgorithmType::Lzw(compressor)) => {
                    assert_eq!(compressor.description(), "LzwCompressor (Max Table Size: 4096)")
                }
                _ => panic!("expected LZW"),
            }
        }
    }
}

#[test]
fn unknown_name_comes_back_in_lower_case() {
    match CompressionAlgorithmType::create("Zip", None) {
        Err(CompressionError::UnknownAlgorithm(name)) => assert_eq!(name, "zip"),
        _ => panic!("expected an unknown algorithm"),
    }
    match CompressionAlgorithmType::create("", Some(1)) {
        Err(CompressionError::UnknownAlgorithm(name)) => assert_eq!(name, ""),
        _ => panic!("expected an unknown algorithm"),
    }
}

#[test]
fn lowered_name_is_matched_as_it_stands() {
    assert!(CompressionAlgorithmType::create_named("lzw", None).is_ok());
    match CompressionAlgorithmType::create_named("LZW", None) {
        Err(CompressionError::UnknownAlgorithm(name)) => assert_eq!(name, "LZW"),
        _ => panic!("expected an unknown algorithm"),
    }
}

#[test]
fn chosen_codec_compresses_as_the_codec_does() {
    let data = b"one interface, two codecs, one interface, two codecs".to_vec();
    for name in ["deflate", "lzw"] {
        let codec = CompressionAlgorithmType::create(name, None).unwrap();
        let compressed = codec.compress(&data).unwrap();
        assert_ne!(compressed, data);
        assert_eq!(codec.decompress(&compressed).unwrap(), data);
    }
    let lzw = CompressionAlgorithmType::create("lzw", None).unwrap();
    assert_eq!(lzw.compress(b"AAA").unwrap(), vec![0, 65, 1, 0]);
    assert!(matches!(lzw.decompress(&[1]), Err(CompressionError::Decompression(_))));
}

#[test]
fn errors_read_as_lines() {
    let cases = [
        (CompressionError::InvalidLevel("12".to_string()), "Invalid compression level: 12"),
        (CompressionError::Compression("full".to_string()), "Compression failed: full"),
        (CompressionError::Decompression("bad".to_string()), "Decompression failed: bad"),
        (
            CompressionError::UnknownAlgorithm("zip".to_string()),
            "Unknown compression algorithm: zip",
        ),
    ];
    for (error, line) in cases {
        assert_eq!(error.message(), line);
    }
}
