//! Zlib compression of byte payloads, behind a small trusted boundary: the
//! compressed form of given bytes at a given level is a fixed, deterministic
//! byte sequence, named `zlib_deflate`. The two decoders differ at the edges
//! of the format, so each is axiomatized against its own inverse:
//! `zlib_inflate` for the read-side decoder, which ignores bytes trailing a
//! complete stream, and `zlib_inflate_exact` for what the write-side decoder
//! is only guaranteed to accept, a stream that ends exactly with the input.

use flate2::Compression;
use flate2::read::ZlibDecoder;
use flate2::read::ZlibEncoder;
use flate2::write::ZlibDecoder as ZlibDecoderWrite;
use flate2::write::ZlibEncoder as ZlibEncoderWrite;
use std::io::Read;
use std::io::Write;
use vstd::prelude::*;

verus! {

/// The zlib stream that compressing `data` at `level` produces: a pure
/// function of the bytes and the level alone.
pub uninterp spec fn zlib_deflate(data: Seq<u8>, level: int) -> Seq<u8>;

/// What read-side zlib decoding yields: `Some(plaintext)` when the input
/// begins with one complete well-formed zlib stream (bytes after the stream
/// end are ignored), `None` on corrupt or truncated input.
pub uninterp spec fn zlib_inflate(data: Seq<u8>) -> Option<Seq<u8>>;

/// `Some(plaintext)` when the input is exactly one complete well-formed
/// zlib stream — no trailing bytes — and `None` otherwise. When this is
/// `Some(p)`, `zlib_inflate` is `Some(p)` as well.
pub uninterp spec fn zlib_inflate_exact(data: Seq<u8>) -> Option<Seq<u8>>;

/// Relies on flate2's read-side `ZlibEncoder`: for a fixed level the output
/// is a deterministic function of the input bytes, one complete zlib stream
/// that both decoders invert. It cannot fail: the underlying reader is an
/// in-memory slice and the compressor itself reports no error. The level
/// bound keeps clear of the rust backend's debug assertion on levels above
/// its maximum.
#[verifier::external_body]
fn deflate_bytes(data: &[u8], level: u32) -> (r: Result<Vec<u8>, String>)
    requires
        level <= 10,
    ensures
        r is Ok,
        r matches Ok(v) ==> {
            &&& v@ == zlib_deflate(data@, level as int)
            &&& zlib_inflate(v@) == Some(data@)
            &&& zlib_inflate_exact(v@) == Some(data@)
        },
{
    let mut encoder = ZlibEncoder::new(data, Compression::new(level));
    let mut compressed_data = Vec::new();
    match encoder.read_to_end(&mut compressed_data) {
        Ok(_) => Ok(compressed_data),
        Err(e) => Err(format!("压缩失败: {}", e)),
    }
}

/// Relies on flate2's write-side `ZlibEncoder`: it emits the same zlib
/// stream as the read-side encoder at the same level, both feeding the same
/// deflate core the same bytes and flush sequence. It cannot fail: the
/// output sink is an in-memory vector and the compressor itself reports no
/// error.
#[verifier::external_body]
fn deflate_bytes_stream(data: &[u8], level: u32) -> (r: Result<Vec<u8>, String>)
    requires
        level <= 10,
    ensures
        r is Ok,
        r matches Ok(v) ==> {
            &&& v@ == zlib_deflate(data@, level as int)
            &&& zlib_inflate(v@) == Some(data@)
            &&& zlib_inflate_exact(v@) == Some(data@)
        },
{
    let mut output = Vec::new();
    let mut encoder = ZlibEncoderWrite::new(&mut output, Compression::new(level));
    if let Err(e) = encoder.write_all(data) {
        return Err(format!("流式压缩写入失败: {}", e));
    }
    if let Err(e) = encoder.finish() {
        return Err(format!("流式压缩完成失败: {}", e));
    }
    Ok(output)
}

/// Relies on flate2's read-side `ZlibDecoder`: reading from an in-memory
/// slice it succeeds exactly when the input begins with a complete
/// well-formed zlib stream (trailing bytes are ignored), and the result is
/// a deterministic function of the bytes.
#[verifier::external_body]
fn inflate_bytes(data: &[u8]) -> (r: Result<Vec<u8>, String>)
    ensures
        r matches Ok(v) ==> zlib_inflate(data@) == Some(v@),
        r is Err ==> zlib_inflate(data@) is None,
{
    let mut decoder = ZlibDecoder::new(data);
    let mut decompressed_data = Vec::new();
    match decoder.read_to_end(&mut decompressed_data) {
        Ok(_) => Ok(decompressed_data),
        Err(e) => Err(format!("解压缩失败: {}", e)),
    }
}

/// Relies on flate2's write-side `ZlibDecoder`. Its contract is stated only
/// for cleanly framed input: on exactly one complete stream it succeeds and
/// returns the plaintext. Elsewhere its behaviour frays — trailing bytes
/// make `write_all` fail, while a truncated stream is accepted with partial
/// output — so nothing is promised there.
#[verifier::external_body]
fn inflate_bytes_stream(data: &[u8]) -> (r: Result<Vec<u8>, String>)
    ensures
        r is Err ==> zlib_inflate_exact(data@) is None,
        r matches Ok(v) ==> (zlib_inflate_exact(data@) matches Some(p) ==> v@ == p),
{
    let mut output = Vec::new();
    let mut decoder = ZlibDecoderWrite::new(&mut output);
    if let Err(e) = decoder.write_all(data) {
        return Err(format!("流式解压缩写入失败: {}", e));
    }
    if let Err(e) = decoder.finish() {
        return Err(format!("流式解压缩完成失败: {}", e));
    }
    Ok(output)
}

/// The level adaptive compression picks from the payload length: fast (1)
/// for small payloads, best (9) for very large ones, the default (6)
/// otherwise.
pub open spec fn adaptive_level_spec(len: int) -> int {
    if len < 1024 {
        1
    } else if len > 10485760 {
        9
    } else {
        6
    }
}

/// Compresses and decompresses byte payloads at a configured zlib level.
pub struct Compressor {
    level: u32,
}

impl Compressor {
    /// The level never exceeds the backend's maximum, so compression cannot
    /// hit its level assertion.
    #[verifier::type_invariant]
    spec fn level_in_range(&self) -> bool {
        self.level <= 10
    }

    /// The configured compression level.
    pub closed spec fn level_spec(&self) -> int {
        self.level as int
    }

    /// A compressor at the zlib default level (6).
    pub fn new() -> (r: Self)
        ensures
            r.level_spec() == 6,
    {
        Self { level: 6 }
    }

    /// A compressor at the given level; levels above the backend's maximum
    /// of 10 behave as that maximum.
    pub fn with_level(level: u32) -> (r: Self)
        ensures
            r.level_spec() == if level <= 10 {
                level as int
            } else {
                10
            },
    {
        let clamped: u32 = if level <= 10 {
            level
        } else {
            10
        };
        Self { level: clamped }
    }

    /// Compresses `data` at the configured level; in-memory compression
    /// cannot fail.
    pub fn compress(&self, data: &[u8]) -> (r: Result<Vec<u8>, String>)
        ensures
            r is Ok,
            r matches Ok(v) ==> {
                &&& v@ == zlib_deflate(data@, self.level_spec())
                &&& zlib_inflate(v@) == Some(data@)
                &&& zlib_inflate_exact(v@) == Some(data@)
            },
    {
        proof {
            use_type_invariant(&*self);
        }
        deflate_bytes(data, self.level)
    }

    /// Decompresses a zlib stream, failing exactly on input that does not
    /// begin with a complete well-formed stream; bytes trailing the stream
    /// end are ignored.
    pub fn decompress(&self, compressed_data: &[u8]) -> (r: Result<Vec<u8>, String>)
        ensures
            r matches Ok(v) ==> zlib_inflate(compressed_data@) == Some(v@),
            r is Err ==> zlib_inflate(compressed_data@) is None,
    {
        inflate_bytes(compressed_data)
    }

    /// Streaming (write-side) compression; produces the same stream as
    /// `compress` at the same level, and cannot fail.
    pub fn compress_stream(&self, input_data: &[u8]) -> (r: Result<Vec<u8>, String>)
        ensures
            r is Ok,
            r matches Ok(v) ==> {
                &&& v@ == zlib_deflate(input_data@, self.level_spec())
                &&& zlib_inflate(v@) == Some(input_data@)
                &&& zlib_inflate_exact(v@) == Some(input_data@)
            },
    {
        proof {
            use_type_invariant(&*self);
        }
        deflate_bytes_stream(input_data, self.level)
    }

    /// Streaming (write-side) decompression: on exactly one complete zlib
    /// stream — in particular, on anything the compressors here emit — it
    /// succeeds and returns the plaintext. On other input the write-side
    /// decoder's behaviour is not pinned down (trailing bytes fail, a
    /// truncated stream yields its partial output).
    pub fn decompress_stream(&self, compressed_data: &[u8]) -> (r: Result<Vec<u8>, String>)
        ensures
            r is Err ==> zlib_inflate_exact(compressed_data@) is None,
            r matches Ok(v) ==> (zlib_inflate_exact(compressed_data@) matches Some(p) ==> v@ == p),
    {
        inflate_bytes_stream(compressed_data)
    }

    /// A cheap heuristic for "already compressed": long enough to be a
    /// payload, and starting with the common zlib header byte.
    pub fn is_compressed(&self, data: &[u8]) -> (r: bool)
        ensures
            r == (data@.len() >= 10 && data@[0] == 0x78),
    {
        if data.len() < 10 {
            return false;
        }
        data[0] == 0x78
    }

    /// Compresses at a level chosen from the payload size: fast for small
    /// payloads, best for very large ones, the default otherwise. Cannot
    /// fail.
    pub fn adaptive_compress(&self, data: &[u8]) -> (r: Result<Vec<u8>, String>)
        ensures
            r is Ok,
            r matches Ok(v) ==> {
                &&& v@ == zlib_deflate(data@, adaptive_level_spec(data@.len() as int))
                &&& zlib_inflate(v@) == Some(data@)
                &&& zlib_inflate_exact(v@) == Some(data@)
            },
    {
        let level: u32 = if data.len() < 1024 {
            1
        } else if data.len() > 10485760 {
            9
        } else {
            6
        };
        deflate_bytes(data, level)
    }
}

impl Default for Compressor {
    /// Same as `Compressor::new`.
    fn default() -> (r: Self)
        ensures
            r.level_spec() == 6,
    {
        Self::new()
    }
}

} // verus!
