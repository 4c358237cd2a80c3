//! Readers that pull big-endian numbers and length-prefixed text off a byte
//! input, and count the bytes they have taken.

use crate::error::{Error, ErrorCode, IoErrorKind, Result};
use crate::wire::{
    fits, i16_at, i32_at, i64_at, i8_at, read_be_u16, read_be_u32, read_be_u64, str_from_utf8,
    u32_at, u64_at,
};
use std::borrow::Cow;
use vstd::prelude::*;
use vstd::slice::slice_subrange;
use vstd::utf8::*;

verus! {

/// The two kinds of input. They differ in how they report an input that ends
/// early, and in whether the text they hand out borrows from the input.
#[derive(Clone, Copy, Debug, PartialEq, Eq, Structural)]
pub enum Source {
    /// Bytes taken from a stream; text is owned.
    Stream,
    /// A borrowed byte range; text borrows from it.
    Slice,
}

/// The failure that a reader of kind `src` reports when the input ends before
/// the value that begins at offset `at` is complete.
pub open spec fn eof_error(src: Source, at: int) -> Error {
    match src {
        Source::Stream => Error {
            code: ErrorCode::Io(IoErrorKind::UnexpectedEof),
            index: at as usize,
        },
        Source::Slice => Error { code: ErrorCode::SliceUnexpectedEof, index: 0 },
    }
}

/// One unsigned byte at `pos`: the byte and the offset behind it.
pub open spec fn take_u8(src: Source, input: Seq<u8>, pos: int) -> Result<(u8, int)> {
    if fits(input, pos, 1) {
        Ok((input[pos], pos + 1))
    } else {
        Err(eof_error(src, pos))
    }
}

pub open spec fn take_i8(src: Source, input: Seq<u8>, pos: int) -> Result<(i8, int)> {
    if fits(input, pos, 1) {
        Ok((i8_at(input, pos), pos + 1))
    } else {
        Err(eof_error(src, pos))
    }
}

pub open spec fn take_i16(src: Source, input: Seq<u8>, pos: int) -> Result<(i16, int)> {
    if fits(input, pos, 2) {
        Ok((i16_at(input, pos), pos + 2))
    } else {
        Err(eof_error(src, pos))
    }
}

pub open spec fn take_i32(src: Source, input: Seq<u8>, pos: int) -> Result<(i32, int)> {
    if fits(input, pos, 4) {
        Ok((i32_at(input, pos), pos + 4))
    } else {
        Err(eof_error(src, pos))
    }
}

pub open spec fn take_i64(src: Source, input: Seq<u8>, pos: int) -> Result<(i64, int)> {
    if fits(input, pos, 8) {
        Ok((i64_at(input, pos), pos + 8))
    } else {
        Err(eof_error(src, pos))
    }
}

/// The bit pattern of a binary32 number at `pos`.
pub open spec fn take_u32(src: Source, input: Seq<u8>, pos: int) -> Result<(u32, int)> {
    if fits(input, pos, 4) {
        Ok((u32_at(input, pos), pos + 4))
    } else {
        Err(eof_error(src, pos))
    }
}

/// The bit pattern of a binary64 number at `pos`.
pub open spec fn take_u64(src: Source, input: Seq<u8>, pos: int) -> Result<(u64, int)> {
    if fits(input, pos, 8) {
        Ok((u64_at(input, pos), pos + 8))
    } else {
        Err(eof_error(src, pos))
    }
}

/// Length-prefixed text at `pos`: a signed 16-bit length, then that many bytes
/// of UTF-8. All failures but that of the length itself are reported at the
/// offset behind the length.
pub open spec fn take_text(src: Source, input: Seq<u8>, pos: int) -> Result<(Seq<char>, int)> {
    match take_i16(src, input, pos) {
        Err(e) => Err(e),
        Ok((len, at)) => {
            if len < 0 {
                Err(Error { code: ErrorCode::InvalidLength(len as i32), index: at as usize })
            } else if !fits(input, at, len as int) {
                Err(eof_error(src, at))
            } else if !valid_utf8(input.subrange(at, at + len)) {
                Err(Error { code: ErrorCode::InvalidUtf8String, index: at as usize })
            } else {
                Ok((decode_utf8(input.subrange(at, at + len)), at + len))
            }
        },
    }
}

/// Where a reader stands after a read that began at `pos` and gave `out`:
/// behind the value, or, after a failure, behind what was taken before it.
pub open spec fn pos_after<T>(out: Result<(T, int)>, pos: int) -> int {
    match out {
        Ok((_, p)) => p,
        Err(_) => pos,
    }
}

/// Where a reader stands after reading text that began at `pos`: a failure
/// behind the length prefix leaves the prefix consumed.
pub open spec fn pos_after_text(src: Source, input: Seq<u8>, pos: int) -> int {
    match take_text(src, input, pos) {
        Ok((_, p)) => p,
        Err(_) => if fits(input, pos, 2) { pos + 2 } else { pos },
    }
}

/// What a read hands to its caller, without the offset.
pub open spec fn value_of<T>(out: Result<(T, int)>) -> Result<T> {
    match out {
        Ok((v, _)) => Ok(v),
        Err(e) => Err(e),
    }
}

/// Whether the text that a read returned is what the input spells.
pub open spec fn text_is(r: Result<Cow<'_, str>>, out: Result<(Seq<char>, int)>) -> bool {
    match out {
        Ok((v, _)) => r is Ok && r->Ok_0@ == v,
        Err(e) => r is Err && r->Err_0 == e,
    }
}

/// Whether text that a reader of kind `src` has handed out is held as that
/// kind holds it: borrowed from the input of a slice, owned where the bytes
/// came from a stream.
pub open spec fn held_as(src: Source, r: Result<Cow<'_, str>>) -> bool {
    r is Ok ==> match src {
        Source::Slice => r->Ok_0 is Borrowed,
        Source::Stream => r->Ok_0 is Owned,
    }
}

/// The capability set of a byte input.
pub trait Read<'de>: Sized {
    /// Which kind of input this is.
    spec fn source() -> Source;

    /// All the bytes of the input, read or unread.
    spec fn input(&self) -> Seq<u8>;

    /// The offset of the next unread byte.
    spec fn pos(&self) -> int;

    /// The reader's invariant: the offset lies within the input.
    spec fn wf(&self) -> bool;

    proof fn wf_bounds(&self)
        requires
            self.wf(),
        ensures
            0 <= self.pos() <= self.input().len() <= usize::MAX,
    ;

    fn index(&self) -> (i: usize)
        requires
            self.wf(),
        ensures
            i == self.pos(),
    ;

    fn read_type_id(&mut self) -> (r: Result<u8>)
        requires
            old(self).wf(),
        ensures
            final(self).wf(),
            final(self).input() == old(self).input(),
            r == value_of(take_u8(Self::source(), old(self).input(), old(self).pos())),
            final(self).pos() == pos_after(
                take_u8(Self::source(), old(self).input(), old(self).pos()),
                old(self).pos(),
            ),
    ;

    fn read_name(&mut self) -> (r: Result<Cow<'de, str>>)
        requires
            old(self).wf(),
        ensures
            final(self).wf(),
            final(self).input() == old(self).input(),
            text_is(r, take_text(Self::source(), old(self).input(), old(self).pos())),
            held_as(Self::source(), r),
            final(self).pos() == pos_after_text(
                Self::source(),
                old(self).input(),
                old(self).pos(),
            ),
    ;

    fn read_length(&mut self) -> (r: Result<i16>)
        requires
            old(self).wf(),
        ensures
            final(self).wf(),
            final(self).input() == old(self).input(),
            r == value_of(take_i16(Self::source(), old(self).input(), old(self).pos())),
            final(self).pos() == pos_after(
                take_i16(Self::source(), old(self).input(), old(self).pos()),
                old(self).pos(),
            ),
    ;

    fn read_byte_inner(&mut self) -> (r: Result<i8>)
        requires
            old(self).wf(),
        ensures
            final(self).wf(),
            final(self).input() == old(self).input(),
            r == value_of(take_i8(Self::source(), old(self).input(), old(self).pos())),
            final(self).pos() == pos_after(
                take_i8(Self::source(), old(self).input(), old(self).pos()),
                old(self).pos(),
            ),
    ;

    fn read_short_inner(&mut self) -> (r: Result<i16>)
        requires
            old(self).wf(),
        ensures
            final(self).wf(),
            final(self).input() == old(self).input(),
            r == value_of(take_i16(Self::source(), old(self).input(), old(self).pos())),
            final(self).pos() == pos_after(
                take_i16(Self::source(), old(self).input(), old(self).pos()),
                old(self).pos(),
            ),
    ;

    fn read_int_inner(&mut self) -> (r: Result<i32>)
        requires
            old(self).wf(),
        ensures
            final(self).wf(),
            final(self).input() == old(self).input(),
            r == value_of(take_i32(Self::source(), old(self).input(), old(self).pos())),
            final(self).pos() == pos_after(
                take_i32(Self::source(), old(self).input(), old(self).pos()),
                old(self).pos(),
            ),
    ;

    fn read_long_inner(&mut self) -> (r: Result<i64>)
        requires
            old(self).wf(),
        ensures
            final(self).wf(),
            final(self).input() == old(self).input(),
            r == value_of(take_i64(Self::source(), old(self).input(), old(self).pos())),
            final(self).pos() == pos_after(
                take_i64(Self::source(), old(self).input(), old(self).pos()),
                old(self).pos(),
            ),
    ;

    /// Reads a binary32 number and hands out its bit pattern.
    fn read_float_inner(&mut self) -> (r: Result<u32>)
        requires
            old(self).wf(),
        ensures
            final(self).wf(),
            final(self).input() == old(self).input(),
            r == value_of(take_u32(Self::source(), old(self).input(), old(self).pos())),
            final(self).pos() == pos_after(
                take_u32(Self::source(), old(self).input(), old(self).pos()),
                old(self).pos(),
            ),
    ;

    /// Reads a binary64 number and hands out its bit pattern.
    fn read_double_inner(&mut self) -> (r: Result<u64>)
        requires
            old(self).wf(),
        ensures
            final(self).wf(),
            final(self).input() == old(self).input(),
            r == value_of(take_u64(Self::source(), old(self).input(), old(self).pos())),
            final(self).pos() == pos_after(
                take_u64(Self::source(), old(self).input(), old(self).pos()),
                old(self).pos(),
            ),
    ;

    fn read_string_inner(&mut self) -> (r: Result<Cow<'de, str>>)
        requires
            old(self).wf(),
        ensures
            final(self).wf(),
            final(self).input() == old(self).input(),
            text_is(r, take_text(Self::source(), old(self).input(), old(self).pos())),
            held_as(Self::source(), r),
            final(self).pos() == pos_after_text(
                Self::source(),
                old(self).input(),
                old(self).pos(),
            ),
    ;
}

/// A reader over bytes that were taken from a stream. The text it hands out
/// is owned.
pub struct IoRead {
    inner: Vec<u8>,
    index: usize,
}

/// A reader over a borrowed byte range. The text it hands out borrows from
/// that range.
pub struct SliceRead<'a> {
    whole: &'a [u8],
    index: usize,
}

impl IoRead {
    pub fn new(read: Vec<u8>) -> (r: Self)
        ensures
            r.wf(),
            r.input() == read@,
            r.pos() == 0,
    {
        let _ = read.len();
        IoRead { inner: read, index: 0 }
    }

    pub fn into_inner(self) -> (r: Vec<u8>)
        ensures
            r@ == self.input(),
    {
        self.inner
    }

    /// The `n` bytes at the reader's offset, or the failure of an input that
    /// ends before them. The offset stays.
    fn peek(&self, n: usize) -> (r: Result<&[u8]>)
        requires
            self.wf(),
        ensures
            match r {
                Ok(b) => fits(self.input(), self.pos(), n as int) && b@ == self.input().subrange(
                    self.pos(),
                    self.pos() + n,
                ),
                Err(e) => !fits(self.input(), self.pos(), n as int) && e == eof_error(
                    Source::Stream,
                    self.pos(),
                ),
            },
    {
        if self.inner.len() - self.index < n {
            return Err(Error::io_at(IoErrorKind::UnexpectedEof, self.index));
        }
        Ok(slice_subrange(self.inner.as_slice(), self.index, self.index + n))
    }
}

impl<'de> Read<'de> for IoRead {
    open spec fn source() -> Source {
        Source::Stream
    }

    closed spec fn input(&self) -> Seq<u8> {
        self.inner@
    }

    closed spec fn pos(&self) -> int {
        self.index as int
    }

    closed spec fn wf(&self) -> bool {
        self.index <= self.inner@.len() <= usize::MAX
    }

    proof fn wf_bounds(&self) {
    }

    fn index(&self) -> (i: usize) {
        self.index
    }

    fn read_type_id(&mut self) -> (r: Result<u8>) {
        let b = self.peek(1)?;
        let value = b[0];
        self.index += 1;
        Ok(value)
    }

    fn read_name(&mut self) -> (r: Result<Cow<'de, str>>) {
        self.read_string_inner()
    }

    fn read_length(&mut self) -> (r: Result<i16>) {
        self.read_short_inner()
    }

    fn read_byte_inner(&mut self) -> (r: Result<i8>) {
        let b = self.peek(1)?;
        let value = #[verifier::truncate] (b[0] as i8);
        self.index += 1;
        Ok(value)
    }

    fn read_short_inner(&mut self) -> (r: Result<i16>) {
        let b = self.peek(2)?;
        let value = #[verifier::truncate] (read_be_u16(b) as i16);
        self.index += 2;
        Ok(value)
    }

    fn read_int_inner(&mut self) -> (r: Result<i32>) {
        let b = self.peek(4)?;
        let value = #[verifier::truncate] (read_be_u32(b) as i32);
        self.index += 4;
        Ok(value)
    }

    fn read_long_inner(&mut self) -> (r: Result<i64>) {
        let b = self.peek(8)?;
        let value = #[verifier::truncate] (read_be_u64(b) as i64);
        self.index += 8;
        Ok(value)
    }

    fn read_float_inner(&mut self) -> (r: Result<u32>) {
        let b = self.peek(4)?;
        let value = read_be_u32(b);
        self.index += 4;
        Ok(value)
    }

    fn read_double_inner(&mut self) -> (r: Result<u64>) {
        let b = self.peek(8)?;
        let value = read_be_u64(b);
        self.index += 8;
        Ok(value)
    }

    fn read_string_inner(&mut self) -> (r: Result<Cow<'de, str>>) {
        let len = self.read_length()?;
        if len < 0 {
            return Err(Error::invalid_len_at(len as i32, self.index));
        }
        let len = len as usize;
        let buf = self.peek(len)?;
        let string = match str_from_utf8(buf) {
            Some(s) => s.to_owned(),
            None => {
                return Err(Error::utf8_at(self.index));
            },
        };
        proof {
            encode_utf8_decode_utf8(string@);
        }
        self.index += len;
        Ok(Cow::Owned(string))
    }
}

impl<'a> SliceRead<'a> {
    pub fn new(slice: &'a [u8]) -> (r: Self)
        ensures
            r.wf(),
            r.input() == slice@,
            r.pos() == 0,
    {
        let _ = slice.len();
        SliceRead { whole: slice, index: 0 }
    }

    pub fn into_inner(self) -> (r: &'a [u8])
        ensures
            r@ == self.input(),
    {
        self.whole
    }

    /// Fails where fewer than `remain_at_least` bytes are left to read.
    fn check_eof(&self, remain_at_least: usize) -> (r: Result<()>)
        requires
            self.wf(),
        ensures
            r is Ok <==> fits(self.input(), self.pos(), remain_at_least as int),
            r is Err ==> r->Err_0 == eof_error(Source::Slice, self.pos()),
    {
        if self.whole.len() - self.index < remain_at_least {
            return Err(Error::slice_eof());
        }
        Ok(())
    }

    /// The `n` bytes at the reader's offset, or the failure of an input that
    /// ends before them. The offset stays.
    fn peek(&self, n: usize) -> (r: Result<&'a [u8]>)
        requires
            self.wf(),
        ensures
            match r {
                Ok(b) => fits(self.input(), self.pos(), n as int) && b@ == self.input().subrange(
                    self.pos(),
                    self.pos() + n,
                ),
                Err(e) => !fits(self.input(), self.pos(), n as int) && e == eof_error(
                    Source::Slice,
                    self.pos(),
                ),
            },
    {
        self.check_eof(n)?;
        Ok(slice_subrange(self.whole, self.index, self.index + n))
    }
}

impl<'a> Read<'a> for SliceRead<'a> {
    open spec fn source() -> Source {
        Source::Slice
    }

    closed spec fn input(&self) -> Seq<u8> {
        self.whole@
    }

    closed spec fn pos(&self) -> int {
        self.index as int
    }

    closed spec fn wf(&self) -> bool {
        self.index <= self.whole@.len() <= usize::MAX
    }

    proof fn wf_bounds(&self) {
    }

    fn index(&self) -> (i: usize) {
        self.index
    }

    fn read_type_id(&mut self) -> (r: Result<u8>) {
        let b = self.peek(1)?;
        let value = b[0];
        self.index += 1;
        Ok(value)
    }

    fn read_name(&mut self) -> (r: Result<Cow<'a, str>>) {
        self.read_string_inner()
    }

    fn read_length(&mut self) -> (r: Result<i16>) {
        self.read_short_inner()
    }

    fn read_byte_inner(&mut self) -> (r: Result<i8>) {
        let b = self.peek(1)?;
        let value = #[verifier::truncate] (b[0] as i8);
        self.index += 1;
        Ok(value)
    }

    fn read_short_inner(&mut self) -> (r: Result<i16>) {
        let b = self.peek(2)?;
        let value = #[verifier::truncate] (read_be_u16(b) as i16);
        self.index += 2;
        Ok(value)
    }

    fn read_int_inner(&mut self) -> (r: Result<i32>) {
        let b = self.peek(4)?;
        let value = #[verifier::truncate] (read_be_u32(b) as i32);
        self.index += 4;
        Ok(value)
    }

    fn read_long_inner(&mut self) -> (r: Result<i64>) {
        let b = self.peek(8)?;
        let value = #[verifier::truncate] (read_be_u64(b) as i64);
        self.index += 8;
        Ok(value)
    }

    fn read_float_inner(&mut self) -> (r: Result<u32>) {
        let b = self.peek(4)?;
        let value = read_be_u32(b);
        self.index += 4;
        Ok(value)
    }

    fn read_double_inner(&mut self) -> (r: Result<u64>) {
        let b = self.peek(8)?;
        let value = read_be_u64(b);
        self.index += 8;
        Ok(value)
    }

    fn read_string_inner(&mut self) -> (r: Result<Cow<'a, str>>) {
        let len = self.read_length()?;
        if len < 0 {
            return Err(Error::invalid_len_at(len as i32, self.index));
        }
        let len = len as usize;
        let bytes = self.peek(len)?;
        let borrowed = match str_from_utf8(bytes) {
            Some(s) => s,
            None => {
                return Err(Error::utf8_at(self.index));
            },
        };
        proof {
            encode_utf8_decode_utf8(borrowed@);
        }
        self.index += len;
        Ok(Cow::Borrowed(borrowed))
    }
}

} // verus!
