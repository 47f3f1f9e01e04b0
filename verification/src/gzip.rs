//! Gzip compression.
use std::io::{Read, Write};
use vstd::prelude::*;

verus! {

/// What `flate2::read::GzDecoder` reads from compressed bytes, where it can read them to the end.
pub uninterp spec fn gunzipped(data: Seq<u8>) -> Option<Seq<u8>>;

/// What `flate2::write::GzEncoder` at a level makes of bytes, where it succeeds.
pub uninterp spec fn gzipped(data: Seq<u8>, level: u32) -> Option<Seq<u8>>;

/// The fastest level.
pub const FAST_LEVEL: u32 = 1;

/// The level that compresses most.
pub const BEST_LEVEL: u32 = 9;

/// The bytes inside an optional vector.
pub open spec fn opt_bytes(o: Option<Vec<u8>>) -> Option<Seq<u8>> {
    match o {
        Some(v) => Some(v@),
        None => None,
    }
}

/// `flate2::read::GzDecoder` reads the first gzip member of the bytes to its end; whether that
/// works, and what comes out, depends on the bytes alone.
#[verifier::external_body]
fn gz_read(data: &[u8]) -> (res: Option<Vec<u8>>)
    ensures
        opt_bytes(res) == gunzipped(data@),
{
    let mut out = Vec::new();
    match flate2::read::GzDecoder::new(data).read_to_end(&mut out) {
        Ok(_) => Some(out),
        Err(_) => None,
    }
}

/// `flate2::write::GzEncoder` compresses the bytes into one gzip member without a time stamp, so the
/// outcome depends on the bytes and the level alone; `flate2::read::GzDecoder` reads them back.
#[verifier::external_body]
fn gz_write(data: &[u8], level: u32) -> (res: Option<Vec<u8>>)
    requires
        level <= 9,
    ensures
        opt_bytes(res) == gzipped(data@, level),
        res matches Some(z) ==> gunzipped(z@) == Some(data@),
{
    let mut encoder = flate2::write::GzEncoder::new(Vec::new(), flate2::Compression::new(level));
    match encoder.write_all(data) {
        Ok(_) => encoder.finish().ok(),
        Err(_) => None,
    }
}

/// The bytes that compressed bytes stand for, where they can be read.
pub fn gunzip_bytes(data: &[u8]) -> (res: Option<Vec<u8>>)
    ensures
        opt_bytes(res) == gunzipped(data@),
{
    gz_read(data)
}

/// Compressed bytes, from which the given ones can be read back.
pub fn gzip_bytes(payload: &[u8]) -> (res: Option<Vec<u8>>)
    ensures
        opt_bytes(res) == gzipped(payload@, FAST_LEVEL),
        res matches Some(z) ==> gunzipped(z@) == Some(payload@),
{
    gz_write(payload, FAST_LEVEL)
}

/// Bytes compressed as far as possible, from which the given ones can be read back.
pub fn gzip_best(payload: &[u8]) -> (res: Option<Vec<u8>>)
    ensures
        opt_bytes(res) == gzipped(payload@, BEST_LEVEL),
        res matches Some(z) ==> gunzipped(z@) == Some(payload@),
{
    gz_write(payload, BEST_LEVEL)
}

} // verus!
