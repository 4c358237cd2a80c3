//! Big-endian integers and UTF-8 text as they lie on the wire.
//!
//! The spec functions here are the mathematical statement of the byte layout;
//! the executable functions move integers in and out of byte buffers through
//! the `byteorder` crate.

use byteorder::{BigEndian, ByteOrder};
use vstd::prelude::*;
use vstd::utf8::*;

verus! {

/// The two bytes of `x`, most significant first.
pub open spec fn be_u16(x: u16) -> Seq<u8> {
    seq![(x >> 8) as u8, x as u8]
}

/// The four bytes of `x`, most significant first.
pub open spec fn be_u32(x: u32) -> Seq<u8> {
    seq![(x >> 24) as u8, (x >> 16) as u8, (x >> 8) as u8, x as u8]
}

/// The eight bytes of `x`, most significant first.
pub open spec fn be_u64(x: u64) -> Seq<u8> {
    seq![
        (x >> 56) as u8,
        (x >> 48) as u8,
        (x >> 40) as u8,
        (x >> 32) as u8,
        (x >> 24) as u8,
        (x >> 16) as u8,
        (x >> 8) as u8,
        x as u8,
    ]
}

/// The number whose big-endian bytes are `b0 b1`.
pub open spec fn u16_from_be(b0: u8, b1: u8) -> u16 {
    ((b0 as u16) << 8) | (b1 as u16)
}

/// The number whose big-endian bytes are `b0 .. b3`.
pub open spec fn u32_from_be(b0: u8, b1: u8, b2: u8, b3: u8) -> u32 {
    ((b0 as u32) << 24) | ((b1 as u32) << 16) | ((b2 as u32) << 8) | (b3 as u32)
}

/// The number whose big-endian bytes are `hi` followed by `lo`.
pub open spec fn u64_from_be(hi: u32, lo: u32) -> u64 {
    ((hi as u64) << 32) | (lo as u64)
}

/// The signed 8-bit payload as one byte.
pub open spec fn be_i8(x: i8) -> Seq<u8> {
    seq![x as u8]
}

pub open spec fn be_i16(x: i16) -> Seq<u8> {
    be_u16(x as u16)
}

pub open spec fn be_i32(x: i32) -> Seq<u8> {
    be_u32(x as u32)
}

pub open spec fn be_i64(x: i64) -> Seq<u8> {
    be_u64(x as u64)
}

/// The unsigned 16-bit number at offset `at` of `s`.
pub open spec fn u16_at(s: Seq<u8>, at: int) -> u16 {
    u16_from_be(s[at], s[at + 1])
}

/// The unsigned 32-bit number at offset `at` of `s`.
pub open spec fn u32_at(s: Seq<u8>, at: int) -> u32 {
    u32_from_be(s[at], s[at + 1], s[at + 2], s[at + 3])
}

/// The unsigned 64-bit number at offset `at` of `s`.
pub open spec fn u64_at(s: Seq<u8>, at: int) -> u64 {
    u64_from_be(u32_at(s, at), u32_at(s, at + 4))
}

pub open spec fn i8_at(s: Seq<u8>, at: int) -> i8 {
    s[at] as i8
}

pub open spec fn i16_at(s: Seq<u8>, at: int) -> i16 {
    u16_at(s, at) as i16
}

pub open spec fn i32_at(s: Seq<u8>, at: int) -> i32 {
    u32_at(s, at) as i32
}

pub open spec fn i64_at(s: Seq<u8>, at: int) -> i64 {
    u64_at(s, at) as i64
}

/// Reading back what `be_u16` laid down gives the number again.
pub proof fn lemma_u16_round_trip(x: u16)
    ensures
        be_u16(x).len() == 2,
        u16_at(be_u16(x), 0) == x,
{
    assert(((((x >> 8) as u8) as u16) << 8) | ((x as u8) as u16) == x) by (bit_vector);
}

pub proof fn lemma_u32_round_trip(x: u32)
    ensures
        be_u32(x).len() == 4,
        u32_at(be_u32(x), 0) == x,
{
    assert(((((x >> 24) as u8) as u32) << 24) | ((((x >> 16) as u8) as u32) << 16) | ((((x >> 8)
        as u8) as u32) << 8) | ((x as u8) as u32) == x) by (bit_vector);
}

pub proof fn lemma_u64_round_trip(x: u64)
    ensures
        be_u64(x).len() == 8,
        u64_at(be_u64(x), 0) == x,
{
    let hi = (x >> 32) as u32;
    let lo = x as u32;
    assert(((hi as u64) << 32) | (lo as u64) == x) by (bit_vector)
        requires
            hi == (x >> 32) as u32,
            lo == x as u32,
    ;
    assert((x >> 56) as u8 == (hi >> 24) as u8 && (x >> 48) as u8 == (hi >> 16) as u8 && (x >> 40)
        as u8 == (hi >> 8) as u8 && (x >> 32) as u8 == hi as u8) by (bit_vector)
        requires
            hi == (x >> 32) as u32,
    ;
    assert((x >> 24) as u8 == (lo >> 24) as u8 && (x >> 16) as u8 == (lo >> 16) as u8 && (x >> 8)
        as u8 == (lo >> 8) as u8 && x as u8 == lo as u8) by (bit_vector)
        requires
            lo == x as u32,
    ;
    lemma_u32_round_trip(hi);
    lemma_u32_round_trip(lo);
}

/// A signed number survives the trip through its unsigned bit pattern.
pub proof fn lemma_signed_round_trip(a: i8, b: i16, c: i32, d: i64)
    ensures
        (a as u8) as i8 == a,
        (b as u16) as i16 == b,
        (c as u32) as i32 == c,
        (d as u64) as i64 == d,
{
    assert((a as u8) as i8 == a) by (bit_vector);
    assert((b as u16) as i16 == b) by (bit_vector);
    assert((c as u32) as i32 == c) by (bit_vector);
    assert((d as u64) as i64 == d) by (bit_vector);
}

/// `byteorder::BigEndian::read_u16`: the first two bytes of `buf`, read as a
/// big-endian number. The crate panics on a shorter buffer, hence the `requires`.
#[verifier::external_body]
pub(crate) fn read_be_u16(buf: &[u8]) -> (r: u16)
    requires
        buf@.len() >= 2,
    ensures
        r == u16_at(buf@, 0),
{
    BigEndian::read_u16(buf)
}

/// `byteorder::BigEndian::read_u32`: the first four bytes of `buf`, read as a
/// big-endian number. The crate panics on a shorter buffer, hence the `requires`.
#[verifier::external_body]
pub(crate) fn read_be_u32(buf: &[u8]) -> (r: u32)
    requires
        buf@.len() >= 4,
    ensures
        r == u32_at(buf@, 0),
{
    BigEndian::read_u32(buf)
}

/// `byteorder::BigEndian::read_u64`: the first eight bytes of `buf`, read as a
/// big-endian number. The crate panics on a shorter buffer, hence the `requires`.
#[verifier::external_body]
pub(crate) fn read_be_u64(buf: &[u8]) -> (r: u64)
    requires
        buf@.len() >= 8,
    ensures
        r == u64_at(buf@, 0),
{
    BigEndian::read_u64(buf)
}

/// `byteorder::BigEndian::write_u16` on a two-byte buffer: the buffer then
/// holds the big-endian bytes of `n`.
#[verifier::external_body]
pub(crate) fn be_bytes_u16(n: u16) -> (r: [u8; 2])
    ensures
        r@ == be_u16(n),
{
    let mut buf = [0u8; 2];
    BigEndian::write_u16(&mut buf, n);
    buf
}

/// `byteorder::BigEndian::write_u32` on a four-byte buffer: the buffer then
/// holds the big-endian bytes of `n`.
#[verifier::external_body]
pub(crate) fn be_bytes_u32(n: u32) -> (r: [u8; 4])
    ensures
        r@ == be_u32(n),
{
    let mut buf = [0u8; 4];
    BigEndian::write_u32(&mut buf, n);
    buf
}

/// `byteorder::BigEndian::write_u64` on an eight-byte buffer: the buffer then
/// holds the big-endian bytes of `n`.
#[verifier::external_body]
pub(crate) fn be_bytes_u64(n: u64) -> (r: [u8; 8])
    ensures
        r@ == be_u64(n),
{
    let mut buf = [0u8; 8];
    BigEndian::write_u64(&mut buf, n);
    buf
}

/// `core::str::from_utf8`: the text that `bytes` spell, where they are
/// well-formed UTF-8, and nothing where they are not. The text borrows from
/// `bytes`; encoding it gives `bytes` back.
#[verifier::external_body]
pub(crate) fn str_from_utf8<'a>(bytes: &'a [u8]) -> (r: Option<&'a str>)
    ensures
        r is Some <==> valid_utf8(bytes@),
        r matches Some(s) ==> encode_utf8(s@) == bytes@,
{
    core::str::from_utf8(bytes).ok()
}

/// `char::encode_utf8`: the one to four bytes that spell `c` in UTF-8.
#[verifier::external_body]
pub(crate) fn char_utf8(c: char) -> (r: Vec<u8>)
    ensures
        r@ == encode_utf8(seq![c]),
        1 <= r@.len() <= 4,
{
    let mut buf = [0u8; 4];
    c.encode_utf8(&mut buf).as_bytes().to_vec()
}

/// Whether `n` bytes lie at offset `pos` of `input`.
pub open spec fn fits(input: Seq<u8>, pos: int, n: int) -> bool {
    0 <= pos && 0 <= n && pos + n <= input.len()
}

} // verus!
