// Round trips and guards of the compressed-payload boundary.

use rand::prelude::StdRng;
use rand::{RngCore, SeedableRng};

use mempool_dag::compression::{zstd_compress, zstd_decompress, ZstdError};

#[test]
fn test_zstd_compress_decompress() {
    let seed = 42; // I've asked the universe
    let mut rng = StdRng::seed_from_u64(seed);

    for size in [10, 1024, 1024 * 1024, 10 * 1024 * 1024] {
        let mut input = vec![0; size];
        // without rng it will trigger check for too high compression ratio
        rng.fill_bytes(input.as_mut_slice());

        let mut compressed = Vec::new();
        zstd_compress(&input, &mut compressed, 3);

        let mut decompressed = Vec::new();
        zstd_decompress(&compressed, &mut decompressed).unwrap();
        assert_eq!(input, decompressed.as_slice());
    }

    let input = b"Hello, world!";
    let mut compressed = Vec::new();
    zstd_compress(input, &mut compressed, 3);
    let mut decompressed = Vec::new();
    zstd_decompress(&compressed, &mut decompressed).unwrap();
    assert_eq!(input, decompressed.as_slice());

    let mut input = b"bad".to_vec();
    input.extend_from_slice(&compressed);
    let mut decompressed = Vec::new();
    zstd_decompress(&input, &mut decompressed).unwrap_err();
}

/// An empty input decompresses to an empty output without touching the
/// library.
#[test]
fn empty_input_is_empty_output() {
    let mut out = vec![9u8; 4];
    assert!(zstd_decompress(&[], &mut out).is_ok());
    assert!(out.is_empty());
}

/// A frame header confessing to a decompressed size far beyond the input
/// is refused before any decompression work.
#[test]
fn decompression_bomb_is_refused() {
    let content = vec![b'A'; 1_000_000];
    let mut compressed = Vec::new();
    zstd_compress(&content, &mut compressed, 3);
    // Modify the frame header descriptor to use an 8-byte content size
    // and lie about it.
    compressed[4] = (compressed[4] & 0b1100_0000) | 0b0000_0011;
    compressed.splice(5..9, 1_000_000_000u64.to_le_bytes());
    let mut out = Vec::new();
    let result = zstd_decompress(&compressed, &mut out);
    assert!(result.is_err());
}

/// The wrapped raw error keeps its code.
#[test]
fn raw_error_keeps_code() {
    match ZstdError::from_raw(7) {
        ZstdError::Raw(raw) => assert_eq!(raw.code, 7),
        _ => panic!("from_raw must wrap the code"),
    }
}
