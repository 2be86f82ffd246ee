use baihu::compression::{hex_decode, hex_encode, is_compressed, maybe_compress, maybe_decompress, COMPRESSION_THRESHOLD};

#[test]
fn small_content_not_compressed() {
    let (stored, compressed) = maybe_compress("short");
    assert!(!compressed);
    assert_eq!(stored, "short");
}

#[test]
fn large_content_compressed() {
    let content = "a".repeat(2000);
    let (stored, compressed) = maybe_compress(&content);
    assert!(compressed);
    assert!(stored.starts_with("lz4:"));
    assert!(stored.len() < content.len(), "Compressed should be smaller");
}

#[test]
fn roundtrip() {
    let content = "hello world! ".repeat(200);
    let (stored, compressed) = maybe_compress(&content);
    assert!(compressed);

    let decompressed = maybe_decompress(&stored).unwrap();
    assert_eq!(decompressed, content);
}

#[test]
fn uncompressed_passthrough() {
    let result = maybe_decompress("plain text").unwrap();
    assert_eq!(result, "plain text");
}

#[test]
fn is_compressed_detects_prefix() {
    assert!(is_compressed("lz4:aabbcc"));
    assert!(!is_compressed("plain text"));
    assert!(!is_compressed(""));
}

#[test]
fn exact_threshold_not_compressed() {
    let content = "a".repeat(COMPRESSION_THRESHOLD);
    let (_, compressed) = maybe_compress(&content);
    assert!(!compressed);
}

#[test]
fn just_over_threshold_compressed() {
    let content = "a".repeat(COMPRESSION_THRESHOLD + 1);
    let (_, compressed) = maybe_compress(&content);
    assert!(compressed);
}

#[test]
fn hex_encode_is_lowercase_pairs() {
    assert_eq!(hex_encode(&[0x00, 0x0f, 0xab, 0xff]), "000fabff");
    assert_eq!(hex_encode(&[]), "");
}

#[test]
fn hex_decode_reads_both_cases() {
    assert_eq!(hex_decode("000fABff").unwrap(), vec![0x00, 0x0f, 0xab, 0xff]);
    assert_eq!(hex_decode("").unwrap(), Vec::<u8>::new());
}

#[test]
fn hex_decode_rejects_odd_length_and_bad_digits() {
    assert!(hex_decode("abc").is_err());
    assert!(hex_decode("zz").is_err());
    assert!(hex_decode("0g").is_err());
}

#[test]
fn decompress_rejects_corrupt_entries() {
    assert!(maybe_decompress("lz4:abc").is_err());
    assert!(maybe_decompress("lz4:zz").is_err());
    assert!(maybe_decompress("lz4:ff").is_err());
}
