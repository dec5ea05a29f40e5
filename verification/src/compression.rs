//! Zstd compression of node payloads, behind a trusted boundary to
//! `zstd_safe`. Decompression first trusts the frame header's content
//! size — guarded against decompression bombs by a fixed ratio limit —
//! and falls back to retrying with a geometrically grown buffer when the
//! header carries no size.

use vstd::prelude::*;

verus! {

/// A decompressed size this many times the compressed input is treated
/// as a decompression bomb.
pub const MAX_COMPRESSION_RATIO: usize = 10;

/// How often the fallback doubles its buffer before giving up.
pub const FALLBACK_ATTEMPTS: u32 = 32;

/// The content size the frame header of `input` declares: `None` when the
/// header cannot be parsed, `Some(None)` when the frame does not include
/// a size.
pub uninterp spec fn frame_size_of(input: Seq<u8>) -> Option<Option<u64>>;

/// The decompressed content of `input`, when it is a complete valid
/// compressed frame sequence.
pub uninterp spec fn inflated_of(input: Seq<u8>) -> Option<Seq<u8>>;

/// The compressed form of `input` at the given compression level.
pub uninterp spec fn deflated_of(input: Seq<u8>, level: int) -> Seq<u8>;

/// Relies on `zstd_safe::get_frame_content_size` (`ZSTD_getFrameContentSize`):
/// a pure parse of the frame header bytes.
#[verifier::external_body]
fn frame_content_size(input: &[u8]) -> (r: Option<Option<u64>>)
    ensures
        r == frame_size_of(input@),
{
    match zstd_safe::get_frame_content_size(input) {
        Ok(size) => Some(size),
        Err(_) => None,
    }
}

/// Relies on `zstd_safe::decompress` (`ZSTD_decompress`): a deterministic
/// function of the input bytes; it fails — rather than panics — when the
/// buffer is too small or the input is no valid frame sequence, and on
/// success the buffer holds exactly the decompressed content.
#[verifier::external_body]
fn inflate(input: &[u8], capacity: usize) -> (r: Result<Vec<u8>, usize>)
    ensures
        r is Ok ==> Some(r->Ok_0@) == inflated_of(input@),
{
    let mut out: Vec<u8> = vec![0u8; capacity];
    match zstd_safe::decompress(&mut out[..], input) {
        Ok(written) => {
            out.truncate(written);
            Ok(out)
        },
        Err(code) => Err(code),
    }
}

/// Relies on `zstd_safe::compress` (`ZSTD_compress`) with a buffer sized
/// by `zstd_safe::compress_bound`: with that worst-case capacity the call
/// cannot fail, and the result is a deterministic function of the input
/// bytes and the level.
#[verifier::external_body]
fn deflate(input: &[u8], compression_level: i32) -> (r: Vec<u8>)
    ensures
        r@ == deflated_of(input@, compression_level as int),
{
    let mut out: Vec<u8> = vec![0u8; zstd_safe::compress_bound(input.len())];
    let written = zstd_safe::compress(&mut out[..], input, compression_level)
        .expect("buffer size is set correctly");
    out.truncate(written);
    out
}

/// A raw error code of the compression library.
#[derive(Debug, Clone, Copy)]
pub struct RawCompressorError {
    pub code: usize,
}

/// What can go wrong around compressed payloads.
#[derive(Debug)]
pub enum ZstdError {
    /// The compression library failed with a raw code.
    Raw(RawCompressorError),
    /// The frame header admits to a decompressed size beyond the ratio
    /// limit: a decompression bomb.
    SuspiciousCompressionRatio { compressed_size: usize, decompressed_size: u64 },
    /// The frame header's size cannot be trusted at all.
    InvalidDecompressedSize { decompressed_size: u64, input_size: usize },
    /// A finished stream was written to again.
    StreamAlreadyFinished,
}

impl ZstdError {
    /// Wraps a raw library code.
    pub fn from_raw(code: usize) -> (r: Self)
        ensures
            r == ZstdError::Raw(RawCompressorError { code }),
    {
        ZstdError::Raw(RawCompressorError { code })
    }
}

/// The ratio limit for a compressed input of `len` bytes, saturating.
pub open spec fn spec_ratio_limit(len: int) -> int {
    if len * MAX_COMPRESSION_RATIO > usize::MAX {
        usize::MAX as int
    } else {
        len * MAX_COMPRESSION_RATIO
    }
}

/// Compresses `input` into `output` at the given level.
pub fn zstd_compress(input: &[u8], output: &mut Vec<u8>, compression_level: i32)
    ensures
        final(output)@ == deflated_of(input@, compression_level as int),
{
    *output = deflate(input, compression_level);
}

/// Decompresses `input` into `output`, replacing its content. An empty
/// input yields an empty output. A frame header declaring a size beyond
/// the ratio limit is refused as a decompression bomb; a declared size
/// within it is decompressed in one step; without a declared size the
/// fallback retries with a doubling buffer. On success the output is
/// exactly the decompressed content; every library failure surfaces as a
/// raw error.
pub fn zstd_decompress(input: &[u8], output: &mut Vec<u8>) -> (r: Result<(), ZstdError>)
    ensures
        input@.len() == 0 ==> r is Ok && final(output)@.len() == 0,
        input@.len() > 0 && r is Ok ==> Some(final(output)@) == inflated_of(input@),
        input@.len() > 0 ==> ((match frame_size_of(input@) {
            Some(Some(size)) => size > spec_ratio_limit(input@.len() as int),
            _ => false,
        }) ==> r == Err::<(), ZstdError>(
            ZstdError::SuspiciousCompressionRatio {
                compressed_size: input@.len() as usize,
                decompressed_size: frame_size_of(input@)->Some_0->Some_0,
            },
        )),
        r is Err && !(match frame_size_of(input@) {
            Some(Some(size)) => size > spec_ratio_limit(input@.len() as int),
            _ => false,
        }) ==> r->Err_0 matches ZstdError::Raw(_),
{
    output.clear();
    if input.len() == 0 {
        return Ok(());
    }
    let limit: usize = if input.len() > usize::MAX / MAX_COMPRESSION_RATIO {
        usize::MAX
    } else {
        input.len() * MAX_COMPRESSION_RATIO
    };
    match frame_content_size(input) {
        Some(Some(size)) => {
            if size > limit as u64 {
                return Err(
                    ZstdError::SuspiciousCompressionRatio {
                        compressed_size: input.len(),
                        decompressed_size: size,
                    },
                );
            }
            match inflate(input, size as usize) {
                Ok(data) => {
                    *output = data;
                    Ok(())
                },
                Err(code) => Err(ZstdError::from_raw(code)),
            }
        },
        _ => {
            // the header declares no size: retry with a doubling buffer,
            // bounded by the same ratio limit as the declared-size path
            let mut capacity: usize = if input.len() < 4096 {
                4096
            } else {
                input.len()
            };
            if capacity > limit {
                capacity = limit;
            }
            let mut last_code: usize = 0;
            let mut attempt: u32 = 0;
            while attempt < FALLBACK_ATTEMPTS
                invariant
                    output@.len() == 0,
                    input@.len() > 0,
                    !(frame_size_of(input@) matches Some(Some(_))),
                decreases FALLBACK_ATTEMPTS - attempt,
            {
                match inflate(input, capacity) {
                    Ok(data) => {
                        *output = data;
                        return Ok(());
                    },
                    Err(code) => {
                        last_code = code;
                    },
                }
                if capacity >= limit {
                    return Err(ZstdError::from_raw(last_code));
                }
                capacity = if capacity > limit / 2 {
                    limit
                } else {
                    capacity * 2
                };
                attempt = attempt + 1;
            }
            Err(ZstdError::from_raw(last_code))
        },
    }
}

} // verus!
