use sync_engine::compression::Compressor;

#[test]
fn test_compress_decompress() {
    let compressor = Compressor::new();
    let original_data = b"Hello, World! This is a test message for compression. \
                         It should be long enough to see some compression benefits. \
                         Repeat: Hello, World! This is a test message for compression.";

    let compressed = compressor.compress(original_data).unwrap();
    let decompressed = compressor.decompress(&compressed).unwrap();

    assert_eq!(original_data.to_vec(), decompressed);
    assert!(compressed.len() < original_data.len());
}

#[test]
fn test_compress_empty_data() {
    let compressor = Compressor::new();
    let empty_data = b"";

    let compressed = compressor.compress(empty_data).unwrap();
    let decompressed = compressor.decompress(&compressed).unwrap();

    assert_eq!(empty_data.to_vec(), decompressed);
}

#[test]
fn test_compression_levels() {
    let original_data = b"Test data for compression level testing. \
                         This should be compressed with different levels. \
                         More text to make compression more effective.";

    let fast_compressor = Compressor::with_level(1);
    let best_compressor = Compressor::with_level(9);

    let fast_compressed = fast_compressor.compress(original_data).unwrap();
    let best_compressed = best_compressor.compress(original_data).unwrap();

    assert!(best_compressed.len() <= fast_compressed.len());

    let fast_decompressed = fast_compressor.decompress(&fast_compressed).unwrap();
    let best_decompressed = best_compressor.decompress(&best_compressed).unwrap();

    assert_eq!(original_data.to_vec(), fast_decompressed);
    assert_eq!(original_data.to_vec(), best_decompressed);
}

#[test]
fn test_stream_compression() {
    let compressor = Compressor::new();
    let test_data = b"Stream compression test data. This should work with streaming.";

    let compressed = compressor.compress_stream(test_data).unwrap();
    let decompressed = compressor.decompress_stream(&compressed).unwrap();

    assert_eq!(test_data.to_vec(), decompressed);
}

#[test]
fn test_is_compressed() {
    let compressor = Compressor::new();
    let test_data = b"Test data for compression detection";

    let compressed = compressor.compress(test_data).unwrap();

    assert!(!compressor.is_compressed(test_data));
    assert!(compressor.is_compressed(&compressed));
}

#[test]
fn test_adaptive_compress() {
    let compressor = Compressor::new();

    let small_data = b"small";
    let small_compressed = compressor.adaptive_compress(small_data).unwrap();
    let small_decompressed = compressor.decompress(&small_compressed).unwrap();
    assert_eq!(small_data.to_vec(), small_decompressed);

    let medium_data = vec![b'x'; 5000];
    let medium_compressed = compressor.adaptive_compress(&medium_data).unwrap();
    let medium_decompressed = compressor.decompress(&medium_compressed).unwrap();
    assert_eq!(medium_data, medium_decompressed);
}

#[test]
fn test_stream_matches_plain_compression() {
    // The read-side and write-side encoders emit the same stream for the
    // same input and level.
    let compressor = Compressor::new();
    let data = b"The two encoder paths agree on this payload.";
    let plain = compressor.compress(data).unwrap();
    let streamed = compressor.compress_stream(data).unwrap();
    assert_eq!(plain, streamed);
}

#[test]
fn test_decompress_malformed_input() {
    let compressor = Compressor::new();
    let result = compressor.decompress(b"this is not a zlib stream at all");
    assert!(result.is_err());
}

#[test]
fn test_decompress_ignores_trailing_bytes() {
    // The read-side decoder accepts a complete stream followed by junk.
    let compressor = Compressor::new();
    let data = b"payload before trailing junk";
    let mut compressed = compressor.compress(data).unwrap();
    compressed.extend_from_slice(b"junk");
    let decompressed = compressor.decompress(&compressed).unwrap();
    assert_eq!(data.to_vec(), decompressed);
}

#[test]
fn test_with_level_above_maximum() {
    // Levels above the backend's maximum behave as that maximum.
    let compressor = Compressor::with_level(100);
    let data = b"level clamping payload, repeated: level clamping payload";
    let compressed = compressor.compress(data).unwrap();
    let decompressed = compressor.decompress(&compressed).unwrap();
    assert_eq!(data.to_vec(), decompressed);
}
