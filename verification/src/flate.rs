//! Compression of encoded tags, by the `flate2` crate.

use flate2::read::{GzDecoder, ZlibDecoder};
use flate2::write::{GzEncoder, ZlibEncoder};
use std::io::{Read, Write};
use vstd::prelude::*;

verus! {

/// How hard to compress: 0 for not at all, 1 for fastest, 9 for smallest.
#[derive(Clone, Copy, Debug, PartialEq, Eq, Structural)]
pub struct Compression(pub u32);

/// The highest level that the compressor knows.
pub const MAX_LEVEL: u32 = 10;

impl Compression {
    /// The level that the compressor is run at: levels above the highest
    /// that it knows count as the highest.
    pub open spec fn effective(self) -> u32 {
        if self.0 > MAX_LEVEL {
            MAX_LEVEL
        } else {
            self.0
        }
    }

    pub fn new(level: u32) -> (r: Self)
        ensures
            r == Compression(level),
    {
        Compression(level)
    }

    /// No compression.
    pub fn none() -> (r: Self)
        ensures
            r == Compression(0),
    {
        Compression(0)
    }

    /// Fastest compression.
    pub fn fast() -> (r: Self)
        ensures
            r == Compression(1),
    {
        Compression(1)
    }

    /// Smallest output.
    pub fn best() -> (r: Self)
        ensures
            r == Compression(9),
    {
        Compression(9)
    }

    pub fn level(&self) -> (r: u32)
        ensures
            r == self.0,
    {
        self.0
    }

    /// The level that the compressor is run at.
    pub fn clamped(&self) -> (r: u32)
        ensures
            r == self.effective(),
            r <= MAX_LEVEL,
    {
        if self.0 > MAX_LEVEL {
            MAX_LEVEL
        } else {
            self.0
        }
    }
}

impl Default for Compression {
    fn default() -> (r: Self)
        ensures
            r == Compression(6),
    {
        Compression(6)
    }
}

/// The gzip stream that `flate2` makes of `data` at `level`, where it makes
/// one.
pub uninterp spec fn gzip_image(data: Seq<u8>, level: u32) -> Option<Seq<u8>>;

/// The zlib stream that `flate2` makes of `data` at `level`, where it makes
/// one.
pub uninterp spec fn zlib_image(data: Seq<u8>, level: u32) -> Option<Seq<u8>>;

/// What `flate2` unpacks from the gzip stream `data`, where it is one.
pub uninterp spec fn gunzip_image(data: Seq<u8>) -> Option<Seq<u8>>;

/// What `flate2` unpacks from the zlib stream `data`, where it is one.
pub uninterp spec fn unzlib_image(data: Seq<u8>) -> Option<Seq<u8>>;

/// `flate2::write::GzEncoder` over an empty buffer: `new` at the given level,
/// `write_all` of `data`, `finish`. The outcome, a stream or the encoder's
/// failure, is a function of `data` and `level` alone. Levels above 10 are
/// left out: on them the crate may panic.
#[verifier::external_body]
pub(crate) fn gzip(data: &[u8], level: u32) -> (r: Option<Vec<u8>>)
    requires
        level <= MAX_LEVEL,
    ensures
        r is Some <==> gzip_image(data@, level) is Some,
        r matches Some(packed) ==> gzip_image(data@, level) == Some(packed@),
{
    let mut encoder = GzEncoder::new(Vec::new(), flate2::Compression::new(level));
    match encoder.write_all(data) {
        Ok(()) => encoder.finish().ok(),
        Err(_) => None,
    }
}

/// `flate2::write::ZlibEncoder` over an empty buffer: `new` at the given
/// level, `write_all` of `data`, `finish`. The outcome, a stream or the
/// encoder's failure, is a function of `data` and `level` alone. Levels above
/// 10 are left out: on them the crate may panic.
#[verifier::external_body]
pub(crate) fn zlib(data: &[u8], level: u32) -> (r: Option<Vec<u8>>)
    requires
        level <= MAX_LEVEL,
    ensures
        r is Some <==> zlib_image(data@, level) is Some,
        r matches Some(packed) ==> zlib_image(data@, level) == Some(packed@),
{
    let mut encoder = ZlibEncoder::new(Vec::new(), flate2::Compression::new(level));
    match encoder.write_all(data) {
        Ok(()) => encoder.finish().ok(),
        Err(_) => None,
    }
}

/// `flate2::read::GzDecoder` over `data`, read to its end: what the stream
/// unpacks to, or nothing where the decoder reports a failure. The outcome is
/// a function of `data` alone.
#[verifier::external_body]
pub(crate) fn gunzip(data: &[u8]) -> (r: Option<Vec<u8>>)
    ensures
        r is Some <==> gunzip_image(data@) is Some,
        r matches Some(plain) ==> gunzip_image(data@) == Some(plain@),
{
    let mut plain = Vec::new();
    match GzDecoder::new(data).read_to_end(&mut plain) {
        Ok(_) => Some(plain),
        Err(_) => None,
    }
}

/// `flate2::read::ZlibDecoder` over `data`, read to its end: what the stream
/// unpacks to, or nothing where the decoder reports a failure. The outcome is
/// a function of `data` alone.
#[verifier::external_body]
pub(crate) fn unzlib(data: &[u8]) -> (r: Option<Vec<u8>>)
    ensures
        r is Some <==> unzlib_image(data@) is Some,
        r matches Some(plain) ==> unzlib_image(data@) == Some(plain@),
{
    let mut plain = Vec::new();
    match ZlibDecoder::new(data).read_to_end(&mut plain) {
        Ok(_) => Some(plain),
        Err(_) => None,
    }
}

} // verus!
