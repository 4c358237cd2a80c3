//! The decoder: it reads tags off a byte input.

use crate::consts;
use crate::error::{Error, ErrorCode, IoErrorKind, Result};
use crate::flate::{gunzip, gunzip_image, unzlib, unzlib_image};
use crate::map::{put, TagMap};
use crate::read::{
    eof_error, held_as, pos_after, pos_after_text, take_i16, take_i32, take_i64, take_i8,
    take_text, take_u32, take_u64, take_u8, text_is, value_of, IoRead, Read, SliceRead, Source,
};
use crate::value::{items_view, lemma_items_view, Value, ValueView};
use crate::wire::{fits, i32_at, i64_at, i8_at};
use std::borrow::Cow;
use vstd::prelude::*;

verus! {

/// What decoding comes to: a value and the number of bytes that it took, or a
/// failure.
pub type Parsed<T> = Result<(T, nat)>;

/// The number of bytes of `input` from offset `pos` on.
pub open spec fn remaining(input: Seq<u8>, pos: int) -> nat {
    if pos < 0 {
        input.len()
    } else if pos <= input.len() {
        (input.len() - pos) as nat
    } else {
        0
    }
}

/// The length prefix of a list or an array at `pos`: a signed 32-bit number
/// that is not negative.
pub open spec fn take_len(src: Source, input: Seq<u8>, pos: int) -> Result<(nat, int)> {
    match take_i32(src, input, pos) {
        Err(e) => Err(e),
        Ok((len, at)) => if len < 0 {
            Err(Error { code: ErrorCode::InvalidLength(len), index: at as usize })
        } else {
            Ok((len as nat, at))
        },
    }
}

/// The offset of the first of the elements of `width` bytes from `pos` on
/// that `input` does not hold in full.
pub open spec fn first_short(input: Seq<u8>, pos: int, width: int) -> int {
    pos + width * ((input.len() - pos) / width)
}

/// `n` signed bytes at `pos`.
pub open spec fn take_bytes(src: Source, input: Seq<u8>, pos: int, n: nat) -> Result<
    (Seq<i8>, int),
> {
    if fits(input, pos, n as int) {
        Ok((Seq::new(n, |i: int| i8_at(input, pos + i)), pos + n))
    } else {
        Err(eof_error(src, first_short(input, pos, 1)))
    }
}

/// `n` signed 32-bit numbers at `pos`.
pub open spec fn take_ints(src: Source, input: Seq<u8>, pos: int, n: nat) -> Result<
    (Seq<i32>, int),
> {
    if fits(input, pos, 4 * (n as int)) {
        Ok((Seq::new(n, |i: int| i32_at(input, pos + 4 * i)), pos + 4 * n))
    } else {
        Err(eof_error(src, first_short(input, pos, 4)))
    }
}

/// `n` signed 64-bit numbers at `pos`.
pub open spec fn take_longs(src: Source, input: Seq<u8>, pos: int, n: nat) -> Result<
    (Seq<i64>, int),
> {
    if fits(input, pos, 8 * (n as int)) {
        Ok((Seq::new(n, |i: int| i64_at(input, pos + 8 * i)), pos + 8 * n))
    } else {
        Err(eof_error(src, first_short(input, pos, 8)))
    }
}

/// The value `make(v)`, where a read that began at `pos` gave `v`, and the
/// number of bytes that the read took.
pub open spec fn wrap<T>(out: Result<(T, int)>, pos: int, make: spec_fn(T) -> ValueView) -> Parsed<
    ValueView,
> {
    match out {
        Ok((v, end)) => Ok((make(v), (end - pos) as nat)),
        Err(e) => Err(e),
    }
}

/// An array at `pos`: its length, then its elements.
pub open spec fn parse_array<T>(
    src: Source,
    input: Seq<u8>,
    pos: int,
    elements: spec_fn(int, nat) -> Result<(Seq<T>, int)>,
    make: spec_fn(Seq<T>) -> ValueView,
) -> Parsed<ValueView> {
    match take_len(src, input, pos) {
        Err(e) => Err(e),
        Ok((n, at)) => wrap(elements(at, n), pos, make),
    }
}

/// The payload of a tag of kind `id` at `pos`.
pub open spec fn parse_payload(src: Source, id: u8, input: Seq<u8>, pos: int) -> Parsed<ValueView>
    decreases remaining(input, pos), 1nat,
{
    if id == consts::TYPE_ID_BYTE {
        wrap(take_i8(src, input, pos), pos, |v: i8| ValueView::Byte(v))
    } else if id == consts::TYPE_ID_SHORT {
        wrap(take_i16(src, input, pos), pos, |v: i16| ValueView::Short(v))
    } else if id == consts::TYPE_ID_INT {
        wrap(take_i32(src, input, pos), pos, |v: i32| ValueView::Int(v))
    } else if id == consts::TYPE_ID_LONG {
        wrap(take_i64(src, input, pos), pos, |v: i64| ValueView::Long(v))
    } else if id == consts::TYPE_ID_FLOAT {
        wrap(take_u32(src, input, pos), pos, |v: u32| ValueView::Float(v))
    } else if id == consts::TYPE_ID_DOUBLE {
        wrap(take_u64(src, input, pos), pos, |v: u64| ValueView::Double(v))
    } else if id == consts::TYPE_ID_STRING {
        wrap(take_text(src, input, pos), pos, |v: Seq<char>| ValueView::String(v))
    } else if id == consts::TYPE_ID_BYTE_ARRAY {
        parse_array(
            src,
            input,
            pos,
            |at: int, n: nat| take_bytes(src, input, at, n),
            |v: Seq<i8>| ValueView::ByteArray(v),
        )
    } else if id == consts::TYPE_ID_INT_ARRAY {
        parse_array(
            src,
            input,
            pos,
            |at: int, n: nat| take_ints(src, input, at, n),
            |v: Seq<i32>| ValueView::IntArray(v),
        )
    } else if id == consts::TYPE_ID_LONG_ARRAY {
        parse_array(
            src,
            input,
            pos,
            |at: int, n: nat| take_longs(src, input, at, n),
            |v: Seq<i64>| ValueView::LongArray(v),
        )
    } else if id == consts::TYPE_ID_LIST {
        match take_u8(src, input, pos) {
            Err(e) => Err(e),
            Ok((element_id, behind_id)) => match take_len(src, input, behind_id) {
                Err(e) => Err(e),
                Ok((n, behind_head)) => wrap(
                    parse_items(src, element_id, input, behind_head, n, Seq::empty()),
                    pos,
                    |v: Seq<ValueView>| ValueView::List(v),
                ),
            },
        }
    } else if id == consts::TYPE_ID_COMPOUND {
        wrap(
            parse_entries(src, input, pos, Seq::empty()),
            pos,
            |v: Seq<(Seq<char>, ValueView)>| ValueView::Compound(v),
        )
    } else {
        Err(Error { code: ErrorCode::TypeIdInvalid(id), index: pos as usize })
    }
}

/// `n` payloads of kind `id` from `pos` on, behind the values `acc`: all the
/// values, and the offset behind the last.
pub open spec fn parse_items(
    src: Source,
    id: u8,
    input: Seq<u8>,
    pos: int,
    n: nat,
    acc: Seq<ValueView>,
) -> Result<(Seq<ValueView>, int)>
    decreases remaining(input, pos), n + 1,
{
    if n == 0 {
        Ok((acc, pos))
    } else {
        match parse_payload(src, id, input, pos) {
            Err(e) => Err(e),
            Ok((v, used)) => parse_items(src, id, input, pos + used, (n - 1) as nat, acc.push(v)),
        }
    }
}

/// The named tags from `pos` on, up to the end tag, put to the entries
/// `acc`: all the entries, and the offset behind the end tag.
pub open spec fn parse_entries(
    src: Source,
    input: Seq<u8>,
    pos: int,
    acc: Seq<(Seq<char>, ValueView)>,
) -> Result<(Seq<(Seq<char>, ValueView)>, int)>
    decreases remaining(input, pos), 0nat,
{
    match take_u8(src, input, pos) {
        Err(e) => Err(e),
        Ok((id, behind_id)) => if id == consts::TYPE_ID_END {
            Ok((acc, behind_id))
        } else {
            match take_text(src, input, behind_id) {
                Err(e) => Err(e),
                Ok((name, behind_head)) => match parse_payload(src, id, input, behind_head) {
                    Err(e) => Err(e),
                    Ok((v, used)) => parse_entries(
                        src,
                        input,
                        behind_head + used,
                        put(acc, name, v),
                    ),
                },
            }
        },
    }
}

/// A named tag at `pos`: id, name, payload.
pub open spec fn parse_tag(src: Source, input: Seq<u8>, pos: int) -> Parsed<
    (Seq<char>, ValueView),
> {
    match take_u8(src, input, pos) {
        Err(e) => Err(e),
        Ok((id, behind_id)) => match take_text(src, input, behind_id) {
            Err(e) => Err(e),
            Ok((name, behind_head)) => match parse_payload(src, id, input, behind_head) {
                Err(e) => Err(e),
                Ok((v, used)) => Ok(((name, v), (behind_head + used - pos) as nat)),
            },
        },
    }
}

/// Where a reader stands after it has failed to read the length prefix of a
/// list or an array at `pos`: behind the prefix where the prefix is there and
/// negative, else at `pos`.
pub open spec fn len_stop(input: Seq<u8>, pos: int) -> int {
    if fits(input, pos, 4) {
        pos + 4
    } else {
        pos
    }
}

/// Where a reader stands after it has failed to decode the payload of a tag
/// of kind `id` at `pos`: behind all that it took before the read that
/// failed. Of a number it took nothing, and nothing where it does not know
/// the kind.
pub open spec fn stop_payload(src: Source, id: u8, input: Seq<u8>, pos: int) -> int
    decreases remaining(input, pos), 1nat,
{
    if id == consts::TYPE_ID_STRING {
        pos_after_text(src, input, pos)
    } else if id == consts::TYPE_ID_BYTE_ARRAY || id == consts::TYPE_ID_INT_ARRAY || id
        == consts::TYPE_ID_LONG_ARRAY {
        match take_len(src, input, pos) {
            Err(_) => len_stop(input, pos),
            Ok((_, at)) => first_short(
                input,
                at,
                if id == consts::TYPE_ID_BYTE_ARRAY {
                    1
                } else if id == consts::TYPE_ID_INT_ARRAY {
                    4
                } else {
                    8
                },
            ),
        }
    } else if id == consts::TYPE_ID_LIST {
        match take_u8(src, input, pos) {
            Err(_) => pos,
            Ok((element_id, behind_id)) => match take_len(src, input, behind_id) {
                Err(_) => len_stop(input, behind_id),
                Ok((n, behind_head)) => stop_items(src, element_id, input, behind_head, n),
            },
        }
    } else if id == consts::TYPE_ID_COMPOUND {
        stop_entries(src, input, pos)
    } else {
        pos
    }
}

/// Where a reader stands after it has failed to decode `n` payloads of kind
/// `id` from `pos` on.
pub open spec fn stop_items(src: Source, id: u8, input: Seq<u8>, pos: int, n: nat) -> int
    decreases remaining(input, pos), n + 1,
{
    if n == 0 {
        pos
    } else {
        match parse_payload(src, id, input, pos) {
            Err(_) => stop_payload(src, id, input, pos),
            Ok((_, used)) => stop_items(src, id, input, pos + used, (n - 1) as nat),
        }
    }
}

/// Where a reader stands after it has failed to decode the named tags from
/// `pos` on, up to the end tag.
pub open spec fn stop_entries(src: Source, input: Seq<u8>, pos: int) -> int
    decreases remaining(input, pos), 0nat,
{
    match take_u8(src, input, pos) {
        Err(_) => pos,
        Ok((id, behind_id)) => if id == consts::TYPE_ID_END {
            behind_id
        } else {
            match take_text(src, input, behind_id) {
                Err(_) => pos_after_text(src, input, behind_id),
                Ok((_, behind_head)) => match parse_payload(src, id, input, behind_head) {
                    Err(_) => stop_payload(src, id, input, behind_head),
                    Ok((_, used)) => stop_entries(src, input, behind_head + used),
                },
            }
        },
    }
}

/// Where a reader stands after it has failed to decode a named tag at `pos`.
pub open spec fn stop_tag(src: Source, input: Seq<u8>, pos: int) -> int {
    match take_u8(src, input, pos) {
        Err(_) => pos,
        Ok((id, behind_id)) => match take_text(src, input, behind_id) {
            Err(_) => pos_after_text(src, input, behind_id),
            Ok((_, behind_head)) => stop_payload(src, id, input, behind_head),
        },
    }
}

/// A boolean, asked for of a tag of kind `id` whose payload lies at `pos`.
pub open spec fn parse_bool(src: Source, id: u8, input: Seq<u8>, pos: int) -> Result<(bool, int)> {
    if id != consts::TYPE_ID_BYTE {
        Err(
            Error {
                code: ErrorCode::TypeIdMismatch(id, consts::TYPE_ID_BYTE),
                index: pos as usize,
            },
        )
    } else {
        match take_i8(src, input, pos) {
            Err(e) => Err(e),
            Ok((v, end)) => if v == 1 {
                Ok((true, end))
            } else if v == 0 {
                Ok((false, end))
            } else {
                Err(Error { code: ErrorCode::InvalidBoolByte(v), index: end as usize })
            },
        }
    }
}

/// Text, asked for of a tag of kind `id` whose payload lies at `pos`.
pub open spec fn parse_str(src: Source, id: u8, input: Seq<u8>, pos: int) -> Result<
    (Seq<char>, int),
> {
    if id != consts::TYPE_ID_STRING {
        Err(
            Error {
                code: ErrorCode::TypeIdMismatch(id, consts::TYPE_ID_STRING),
                index: pos as usize,
            },
        )
    } else {
        take_text(src, input, pos)
    }
}

/// Where a reader stands after it has failed to read the head of the payload
/// of a tag of kind `id` at `pos`: behind what it took of the head. Of a
/// number it takes nothing, and nothing where it does not know the kind.
pub open spec fn head_stop(src: Source, id: u8, input: Seq<u8>, pos: int) -> int {
    if id == consts::TYPE_ID_STRING {
        pos_after_text(src, input, pos)
    } else if id == consts::TYPE_ID_BYTE_ARRAY || id == consts::TYPE_ID_INT_ARRAY || id
        == consts::TYPE_ID_LONG_ARRAY {
        len_stop(input, pos)
    } else if id == consts::TYPE_ID_LIST {
        if fits(input, pos, 1) {
            len_stop(input, pos + 1)
        } else {
            pos
        }
    } else {
        pos
    }
}

/// The decoder. It holds the reader, whose offset serves the failures.
pub struct Deserializer<R> {
    pub read: R,
}

impl Deserializer<IoRead> {
    /// A decoder of bytes that were taken from a stream.
    pub fn io(read: Vec<u8>) -> (r: Self)
        ensures
            r.read.wf(),
            r.read.input() == read@,
            r.read.pos() == 0,
    {
        Deserializer { read: IoRead::new(read) }
    }

    /// Hands the bytes back.
    pub fn into_inner(self) -> (r: Vec<u8>)
        ensures
            r@ == self.read.input(),
    {
        self.read.into_inner()
    }
}

impl<'a> Deserializer<SliceRead<'a>> {
    /// A decoder of a borrowed byte range.
    pub fn slice(slice: &'a [u8]) -> (r: Self)
        ensures
            r.read.wf(),
            r.read.input() == slice@,
            r.read.pos() == 0,
    {
        Deserializer { read: SliceRead::new(slice) }
    }

    /// Hands the byte range back.
    pub fn into_inner(self) -> (r: &'a [u8])
        ensures
            r@ == self.read.input(),
    {
        self.read.into_inner()
    }
}

/// Whether a reader that stood as `before` stands as `after` once a call has
/// returned `r`, where `out` is what the input holds: on success the value
/// is that of `out` and the reader stands behind it; a failure is that of
/// `out`, and the reader stands at `stop`.
pub open spec fn decoded<'de, R: Read<'de>>(
    before: R,
    after: R,
    r: Result<Value>,
    out: Parsed<ValueView>,
    stop: int,
) -> bool {
    &&& after.wf()
    &&& after.input() == before.input()
    &&& match out {
        Ok((v, used)) => r is Ok && r->Ok_0@ == v && after.pos() == before.pos() + used,
        Err(e) => r is Err && r->Err_0 == e && after.pos() == stop,
    }
}

/// The text as an owned string.
fn into_owned(text: Cow<'_, str>) -> (r: String)
    ensures
        r@ == text@,
{
    match text {
        Cow::Borrowed(s) => s.to_owned(),
        Cow::Owned(s) => s,
    }
}

/// Reads the length prefix of a list or an array.
fn read_len<'de, R: Read<'de>>(outer: &mut Deserializer<R>) -> (r: Result<i32>)
    requires
        old(outer).read.wf(),
    ensures
        final(outer).read.wf(),
        final(outer).read.input() == old(outer).read.input(),
        match take_len(R::source(), old(outer).read.input(), old(outer).read.pos()) {
            Ok((n, at)) => r == Ok::<i32, Error>(n as i32) && n <= i32::MAX
                && final(outer).read.pos() == at && at == old(outer).read.pos() + 4,
            Err(e) => r == Err::<i32, Error>(e) && final(outer).read.pos() == len_stop(
                old(outer).read.input(),
                old(outer).read.pos(),
            ),
        },
{
    let len = outer.read.read_int_inner()?;
    if len < 0 {
        return Err(Error::invalid_len_at(len, outer.read.index()));
    }
    Ok(len)
}

/// The state of a walk through a compound: the kind of the tag whose name
/// was read last.
#[derive(Debug)]
pub struct CompoundAccess {
    pub type_id: Option<u8>,
}

impl CompoundAccess {
    pub fn new() -> (r: Self)
        ensures
            r.type_id is None,
    {
        CompoundAccess { type_id: None }
    }

    /// Reads the head of the next tag of the compound and hands out its
    /// name, or nothing where the compound ends.
    pub fn next_key<'de, R: Read<'de>>(&mut self, outer: &mut Deserializer<R>) -> (r: Result<
        Option<Cow<'de, str>>,
    >)
        requires
            old(outer).read.wf(),
        ensures
            final(outer).read.wf(),
            final(outer).read.input() == old(outer).read.input(),
            match take_u8(R::source(), old(outer).read.input(), old(outer).read.pos()) {
                Err(e) => r is Err && r->Err_0 == e && final(outer).read.pos() == old(
                    outer,
                ).read.pos(),
                Ok((id, behind_id)) => if id == consts::TYPE_ID_END {
                    &&& r is Ok
                    &&& r->Ok_0 is None
                    &&& final(outer).read.pos() == behind_id
                    &&& final(self).type_id == old(self).type_id
                } else {
                    match take_text(R::source(), old(outer).read.input(), behind_id) {
                        Err(e) => r is Err && r->Err_0 == e && final(outer).read.pos()
                            == pos_after_text(R::source(), old(outer).read.input(), behind_id),
                        Ok((name, behind_head)) => {
                            &&& r is Ok
                            &&& r->Ok_0 is Some
                            &&& r->Ok_0->Some_0@ == name
                            &&& held_as(R::source(), Ok::<Cow<'_, str>, Error>(r->Ok_0->Some_0))
                            &&& final(outer).read.pos() == behind_head
                            &&& final(self).type_id == Some(id)
                        },
                    }
                },
            },
    {
        let type_id = outer.read.read_type_id()?;
        if type_id == consts::TYPE_ID_END {
            return Ok(None);
        }
        let key = outer.read.read_name()?;
        self.type_id = Some(type_id);
        Ok(Some(key))
    }

    /// Decodes the payload of the tag whose name `next_key` has handed out.
    pub fn next_value<'de, R: Read<'de>>(&mut self, outer: &mut Deserializer<R>) -> (r: Result<
        Value,
    >)
        requires
            old(self).type_id is Some,
            old(outer).read.wf(),
        ensures
            final(self).type_id == old(self).type_id,
            decoded(
                old(outer).read,
                final(outer).read,
                r,
                parse_payload(
                    R::source(),
                    old(self).type_id->Some_0,
                    old(outer).read.input(),
                    old(outer).read.pos(),
                ),
                stop_payload(
                    R::source(),
                    old(self).type_id->Some_0,
                    old(outer).read.input(),
                    old(outer).read.pos(),
                ),
            ),
        decreases remaining(old(outer).read.input(), old(outer).read.pos()), 2nat,
    {
        let type_id = match self.type_id {
            Some(type_id) => type_id,
            None => 0,
        };
        proc_deserialize_value(type_id, outer)
    }
}

/// The state of a walk through a list or an array: the kind of the
/// elements, how many were read, and how many there are.
#[derive(Debug)]
pub struct ListOrArrayAccess {
    pub type_id: u8,
    pub cur_len: i32,
    pub total_len: i32,
}

impl ListOrArrayAccess {
    /// The walk's invariant.
    pub open spec fn wf(&self) -> bool {
        0 <= self.cur_len <= self.total_len
    }

    /// Reads the header of a list: the kind of its elements and their number.
    pub fn list<'de, R: Read<'de>>(outer: &mut Deserializer<R>) -> (r: Result<Self>)
        requires
            old(outer).read.wf(),
        ensures
            final(outer).read.wf(),
            final(outer).read.input() == old(outer).read.input(),
            r is Err ==> final(outer).read.pos() == head_stop(
                R::source(),
                consts::TYPE_ID_LIST,
                old(outer).read.input(),
                old(outer).read.pos(),
            ),
            match take_u8(R::source(), old(outer).read.input(), old(outer).read.pos()) {
                Err(e) => r is Err && r->Err_0 == e,
                Ok((id, behind_id)) => match take_len(
                    R::source(),
                    old(outer).read.input(),
                    behind_id,
                ) {
                    Err(e) => r is Err && r->Err_0 == e,
                    Ok((n, behind_head)) => {
                        &&& r is Ok
                        &&& r->Ok_0 == (ListOrArrayAccess {
                            type_id: id,
                            cur_len: 0,
                            total_len: n as i32,
                        })
                        &&& n <= i32::MAX
                        &&& final(outer).read.pos() == behind_head
                        &&& behind_head == old(outer).read.pos() + 5
                    },
                },
            },
    {
        let type_id = outer.read.read_type_id()?;
        let total_len = read_len(outer)?;
        Ok(ListOrArrayAccess { type_id, cur_len: 0, total_len })
    }

    /// Reads the header of a byte array: the number of its elements.
    pub fn byte_array<'de, R: Read<'de>>(outer: &mut Deserializer<R>) -> (r: Result<Self>)
        requires
            old(outer).read.wf(),
        ensures
            Self::array_read(*old(outer), *final(outer), r, consts::TYPE_ID_BYTE),
    {
        let total_len = read_len(outer)?;
        Ok(ListOrArrayAccess { type_id: consts::TYPE_ID_BYTE, cur_len: 0, total_len })
    }

    /// Reads the header of an int array: the number of its elements.
    pub fn int_array<'de, R: Read<'de>>(outer: &mut Deserializer<R>) -> (r: Result<Self>)
        requires
            old(outer).read.wf(),
        ensures
            Self::array_read(*old(outer), *final(outer), r, consts::TYPE_ID_INT),
    {
        let total_len = read_len(outer)?;
        Ok(ListOrArrayAccess { type_id: consts::TYPE_ID_INT, cur_len: 0, total_len })
    }

    /// Reads the header of a long array: the number of its elements.
    pub fn long_array<'de, R: Read<'de>>(outer: &mut Deserializer<R>) -> (r: Result<Self>)
        requires
            old(outer).read.wf(),
        ensures
            Self::array_read(*old(outer), *final(outer), r, consts::TYPE_ID_LONG),
    {
        let total_len = read_len(outer)?;
        Ok(ListOrArrayAccess { type_id: consts::TYPE_ID_LONG, cur_len: 0, total_len })
    }

    /// Whether `r` is the walk through the array of elements of kind
    /// `element_id` whose header `before` stood at, and `after` stands behind
    /// that header.
    pub open spec fn array_read<'de, R: Read<'de>>(
        before: Deserializer<R>,
        after: Deserializer<R>,
        r: Result<Self>,
        element_id: u8,
    ) -> bool {
        &&& after.read.wf()
        &&& after.read.input() == before.read.input()
        &&& match take_len(R::source(), before.read.input(), before.read.pos()) {
            Err(e) => r is Err && r->Err_0 == e && after.read.pos() == len_stop(
                before.read.input(),
                before.read.pos(),
            ),
            Ok((n, at)) => {
                &&& r is Ok
                &&& r->Ok_0 == (ListOrArrayAccess {
                    type_id: element_id,
                    cur_len: 0,
                    total_len: n as i32,
                })
                &&& n <= i32::MAX
                &&& after.read.pos() == at
            },
        }
    }

    /// Decodes the next element, or hands out nothing where all the elements
    /// that the header announced have been read.
    pub fn next_element<'de, R: Read<'de>>(&mut self, outer: &mut Deserializer<R>) -> (r: Result<
        Option<Value>,
    >)
        requires
            old(self).wf(),
            old(outer).read.wf(),
        ensures
            final(outer).read.wf(),
            final(outer).read.input() == old(outer).read.input(),
            final(self).type_id == old(self).type_id,
            final(self).total_len == old(self).total_len,
            old(self).cur_len == old(self).total_len ==> {
                &&& r is Ok
                &&& r->Ok_0 is None
                &&& *final(self) == *old(self)
                &&& final(outer).read.pos() == old(outer).read.pos()
            },
            old(self).cur_len != old(self).total_len ==> match parse_payload(
                R::source(),
                old(self).type_id,
                old(outer).read.input(),
                old(outer).read.pos(),
            ) {
                Ok((v, used)) => {
                    &&& r is Ok
                    &&& r->Ok_0 is Some
                    &&& r->Ok_0->Some_0@ == v
                    &&& final(outer).read.pos() == old(outer).read.pos() + used
                    &&& final(self).cur_len == old(self).cur_len + 1
                    &&& final(self).wf()
                },
                Err(e) => {
                    &&& r is Err
                    &&& r->Err_0 == e
                    &&& *final(self) == *old(self)
                    &&& final(outer).read.pos() == stop_payload(
                        R::source(),
                        old(self).type_id,
                        old(outer).read.input(),
                        old(outer).read.pos(),
                    )
                },
            },
        decreases remaining(old(outer).read.input(), old(outer).read.pos()), 2nat,
    {
        if self.cur_len == self.total_len {
            return Ok(None);
        }
        let value = proc_deserialize_value(self.type_id, outer)?;
        self.cur_len += 1;
        Ok(Some(value))
    }
}

/// Decodes the payload of a tag of kind `type_id` into a tree. After a
/// failure the reader stands behind all that it took before the read that
/// failed: where the kind is none that the format knows, nothing is read.
pub fn proc_deserialize_value<'de, R: Read<'de>>(type_id: u8, outer: &mut Deserializer<R>) -> (r:
    Result<Value>)
    requires
        old(outer).read.wf(),
    ensures
        decoded(
            old(outer).read,
            final(outer).read,
            r,
            parse_payload(
                R::source(),
                type_id,
                old(outer).read.input(),
                old(outer).read.pos(),
            ),
            stop_payload(
                R::source(),
                type_id,
                old(outer).read.input(),
                old(outer).read.pos(),
            ),
        ),
    decreases remaining(old(outer).read.input(), old(outer).read.pos()), 1nat,
{
    let ghost input = outer.read.input();
    let ghost pos = outer.read.pos();
    proof {
        outer.read.wf_bounds();
    }
    if type_id == consts::TYPE_ID_BYTE {
        let v = outer.read.read_byte_inner()?;
        Ok(Value::Byte(v))
    } else if type_id == consts::TYPE_ID_SHORT {
        let v = outer.read.read_short_inner()?;
        Ok(Value::Short(v))
    } else if type_id == consts::TYPE_ID_INT {
        let v = outer.read.read_int_inner()?;
        Ok(Value::Int(v))
    } else if type_id == consts::TYPE_ID_LONG {
        let v = outer.read.read_long_inner()?;
        Ok(Value::Long(v))
    } else if type_id == consts::TYPE_ID_FLOAT {
        let v = outer.read.read_float_inner()?;
        Ok(Value::Float(v))
    } else if type_id == consts::TYPE_ID_DOUBLE {
        let v = outer.read.read_double_inner()?;
        Ok(Value::Double(v))
    } else if type_id == consts::TYPE_ID_STRING {
        let v = outer.read.read_string_inner()?;
        Ok(Value::String(into_owned(v)))
    } else if type_id == consts::TYPE_ID_BYTE_ARRAY {
        let access = ListOrArrayAccess::byte_array(outer)?;
        let items = read_bytes(outer, access.total_len)?;
        Ok(Value::ByteArray(items))
    } else if type_id == consts::TYPE_ID_INT_ARRAY {
        let access = ListOrArrayAccess::int_array(outer)?;
        let items = read_ints(outer, access.total_len)?;
        Ok(Value::IntArray(items))
    } else if type_id == consts::TYPE_ID_LONG_ARRAY {
        let access = ListOrArrayAccess::long_array(outer)?;
        let items = read_longs(outer, access.total_len)?;
        Ok(Value::LongArray(items))
    } else if type_id == consts::TYPE_ID_LIST {
        let mut access = ListOrArrayAccess::list(outer)?;
        let ghost start = outer.read.pos();
        let ghost src = R::source();
        let ghost whole = parse_items(
            src,
            access.type_id,
            input,
            start,
            access.total_len as nat,
            Seq::empty(),
        );
        let ghost goal = parse_payload(src, type_id, input, pos);
        let ghost stop = stop_payload(src, type_id, input, pos);
        assert(whole is Err ==> goal is Err && goal->Err_0 == whole->Err_0);
        assert(whole is Ok ==> goal == Ok::<(ValueView, nat), Error>(
            (ValueView::List(whole->Ok_0.0), (whole->Ok_0.1 - pos) as nat),
        ));
        assert(stop == stop_items(src, access.type_id, input, start, access.total_len as nat));
        let mut items: Vec<Value> = Vec::new();
        let mut done = false;
        while !done
            invariant
                src == R::source(),
                stop == stop_payload(src, type_id, input, pos),
                stop == stop_items(
                    src,
                    access.type_id,
                    input,
                    outer.read.pos(),
                    (access.total_len - access.cur_len) as nat,
                ),
                goal == parse_payload(src, type_id, input, pos),
                whole is Err ==> goal is Err && goal->Err_0 == whole->Err_0,
                whole is Ok ==> goal == Ok::<(ValueView, nat), Error>(
                    (ValueView::List(whole->Ok_0.0), (whole->Ok_0.1 - pos) as nat),
                ),
                outer.read.wf(),
                outer.read.input() == input,
                outer.read.pos() >= start,
                start >= pos,
                access.wf(),
                items@.len() == access.cur_len,
                done ==> access.cur_len == access.total_len,
                whole == parse_items(
                    src,
                    access.type_id,
                    input,
                    outer.read.pos(),
                    (access.total_len - access.cur_len) as nat,
                    items_view(items, items.len() as nat),
                ),
                remaining(input, outer.read.pos()) <= remaining(input, start),
                remaining(input, start) < remaining(input, pos),
                pos == old(outer).read.pos(),
                input == old(outer).read.input(),
            decreases access.total_len - access.cur_len + (if done { 0int } else { 1int }),
        {
            let ghost before = items;
            proof {
                outer.read.wf_bounds();
            }
            match access.next_element(outer) {
                Err(e) => {
                    return Err(e);
                },
                Ok(None) => {
                    done = true;
                },
                Ok(Some(v)) => {
                    items.push(v);
                    proof {
                        outer.read.wf_bounds();
                        lemma_items_view(before, before.len() as nat);
                        lemma_items_view(items, items.len() as nat);
                        assert(items_view(items, items.len() as nat) =~= items_view(
                            before,
                            before.len() as nat,
                        ).push(v@));
                    }
                },
            }
        }
        Ok(Value::List(items))
    } else if type_id == consts::TYPE_ID_COMPOUND {
        let mut access = CompoundAccess::new();
        let ghost src = R::source();
        let ghost whole = parse_entries(src, input, pos, Seq::empty());
        let ghost goal = parse_payload(src, type_id, input, pos);
        let ghost stop = stop_payload(src, type_id, input, pos);
        assert(whole is Err ==> goal is Err && goal->Err_0 == whole->Err_0);
        assert(whole is Ok ==> goal == Ok::<(ValueView, nat), Error>(
            (ValueView::Compound(whole->Ok_0.0), (whole->Ok_0.1 - pos) as nat),
        ));
        let mut map = TagMap::new();
        let mut done = false;
        while !done
            invariant
                src == R::source(),
                stop == stop_payload(src, type_id, input, pos),
                !done ==> stop == stop_entries(src, input, outer.read.pos()),
                goal == parse_payload(src, type_id, input, pos),
                whole is Err ==> goal is Err && goal->Err_0 == whole->Err_0,
                whole is Ok ==> goal == Ok::<(ValueView, nat), Error>(
                    (ValueView::Compound(whole->Ok_0.0), (whole->Ok_0.1 - pos) as nat),
                ),
                outer.read.wf(),
                outer.read.input() == input,
                outer.read.pos() >= pos,
                map.wf(),
                !done ==> whole == parse_entries(src, input, outer.read.pos(), map@),
                done ==> whole == Ok::<(Seq<(Seq<char>, ValueView)>, int), Error>(
                    (map@, outer.read.pos()),
                ),
                pos == old(outer).read.pos(),
                input == old(outer).read.input(),
            decreases remaining(input, outer.read.pos()) + (if done { 0int } else { 1int }),
        {
            proof {
                outer.read.wf_bounds();
            }
            match access.next_key(outer) {
                Err(e) => {
                    return Err(e);
                },
                Ok(None) => {
                    done = true;
                },
                Ok(Some(key)) => {
                    proof {
                        outer.read.wf_bounds();
                    }
                    let value = match access.next_value(outer) {
                        Ok(value) => value,
                        Err(e) => {
                            return Err(e);
                        },
                    };
                    proof {
                        outer.read.wf_bounds();
                    }
                    map.insert(into_owned(key), value);
                },
            }
        }
        Ok(Value::Compound(map))
    } else {
        Err(Error::invalid_id_at(type_id, outer.read.index()))
    }
}

/// Reads the `n` elements of a byte array.
fn read_bytes<'de, R: Read<'de>>(outer: &mut Deserializer<R>, n: i32) -> (r: Result<Vec<i8>>)
    requires
        old(outer).read.wf(),
        n >= 0,
    ensures
        final(outer).read.wf(),
        final(outer).read.input() == old(outer).read.input(),
        match take_bytes(
            R::source(),
            old(outer).read.input(),
            old(outer).read.pos(),
            n as nat,
        ) {
            Ok((v, end)) => r is Ok && r->Ok_0@ == v && final(outer).read.pos() == end,
            Err(e) => r is Err && r->Err_0 == e && final(outer).read.pos() == first_short(
                old(outer).read.input(),
                old(outer).read.pos(),
                1,
            ),
        },
{
    let ghost input = outer.read.input();
    let ghost at = outer.read.pos();
    proof {
        outer.read.wf_bounds();
    }
    let mut items: Vec<i8> = Vec::new();
    let mut i: i32 = 0;
    while i < n
        invariant
            0 <= i <= n,
            0 <= at,
            outer.read.wf(),
            outer.read.input() == input,
            outer.read.pos() == at + i,
            input == old(outer).read.input(),
            at == old(outer).read.pos(),
            items@ =~= Seq::new(i as nat, |k: int| i8_at(input, at + k)),
        decreases n - i,
    {
        proof {
            outer.read.wf_bounds();
        }
        let v = match outer.read.read_byte_inner() {
            Ok(v) => v,
            Err(e) => {
                assert(first_short(input, at, 1) == at + i);
                return Err(e);
            },
        };
        items.push(v);
        i += 1;
    }
    proof {
        outer.read.wf_bounds();
        assert(items@ =~= Seq::new(n as nat, |i: int| i8_at(input, at + i)));
        assert(i == n);
        assert(fits(input, at, n as int));
        assert(take_bytes(R::source(), input, at, n as nat)->Ok_0.0 =~= items@);
    }
    Ok(items)
}

/// Reads the `n` elements of an int array.
fn read_ints<'de, R: Read<'de>>(outer: &mut Deserializer<R>, n: i32) -> (r: Result<Vec<i32>>)
    requires
        old(outer).read.wf(),
        n >= 0,
    ensures
        final(outer).read.wf(),
        final(outer).read.input() == old(outer).read.input(),
        match take_ints(R::source(), old(outer).read.input(), old(outer).read.pos(), n as nat) {
            Ok((v, end)) => r is Ok && r->Ok_0@ == v && final(outer).read.pos() == end,
            Err(e) => r is Err && r->Err_0 == e && final(outer).read.pos() == first_short(
                old(outer).read.input(),
                old(outer).read.pos(),
                4,
            ),
        },
{
    let ghost input = outer.read.input();
    let ghost at = outer.read.pos();
    proof {
        outer.read.wf_bounds();
    }
    let mut items: Vec<i32> = Vec::new();
    let mut i: i32 = 0;
    while i < n
        invariant
            0 <= i <= n,
            0 <= at,
            outer.read.wf(),
            outer.read.input() == input,
            outer.read.pos() == at + 4 * i,
            input == old(outer).read.input(),
            at == old(outer).read.pos(),
            items@ =~= Seq::new(i as nat, |k: int| i32_at(input, at + 4 * k)),
        decreases n - i,
    {
        proof {
            outer.read.wf_bounds();
        }
        let v = match outer.read.read_int_inner() {
            Ok(v) => v,
            Err(e) => {
                assert((input.len() - at) / 4 == i);
                return Err(e);
            },
        };
        items.push(v);
        i += 1;
    }
    proof {
        outer.read.wf_bounds();
        assert(items@ =~= Seq::new(n as nat, |i: int| i32_at(input, at + 4 * i)));
        assert(i == n);
        assert(fits(input, at, 4 * (n as int)));
        assert(take_ints(R::source(), input, at, n as nat)->Ok_0.0 =~= items@);
    }
    Ok(items)
}

/// Reads the `n` elements of a long array.
fn read_longs<'de, R: Read<'de>>(outer: &mut Deserializer<R>, n: i32) -> (r: Result<Vec<i64>>)
    requires
        old(outer).read.wf(),
        n >= 0,
    ensures
        final(outer).read.wf(),
        final(outer).read.input() == old(outer).read.input(),
        match take_longs(
            R::source(),
            old(outer).read.input(),
            old(outer).read.pos(),
            n as nat,
        ) {
            Ok((v, end)) => r is Ok && r->Ok_0@ == v && final(outer).read.pos() == end,
            Err(e) => r is Err && r->Err_0 == e && final(outer).read.pos() == first_short(
                old(outer).read.input(),
                old(outer).read.pos(),
                8,
            ),
        },
{
    let ghost input = outer.read.input();
    let ghost at = outer.read.pos();
    proof {
        outer.read.wf_bounds();
    }
    let mut items: Vec<i64> = Vec::new();
    let mut i: i32 = 0;
    while i < n
        invariant
            0 <= i <= n,
            0 <= at,
            outer.read.wf(),
            outer.read.input() == input,
            outer.read.pos() == at + 8 * i,
            input == old(outer).read.input(),
            at == old(outer).read.pos(),
            items@ =~= Seq::new(i as nat, |k: int| i64_at(input, at + 8 * k)),
        decreases n - i,
    {
        proof {
            outer.read.wf_bounds();
        }
        let v = match outer.read.read_long_inner() {
            Ok(v) => v,
            Err(e) => {
                assert((input.len() - at) / 8 == i);
                return Err(e);
            },
        };
        items.push(v);
        i += 1;
    }
    proof {
        outer.read.wf_bounds();
        assert(items@ =~= Seq::new(n as nat, |i: int| i64_at(input, at + 8 * i)));
        assert(i == n);
        assert(fits(input, at, 8 * (n as int)));
        assert(take_longs(R::source(), input, at, n as nat)->Ok_0.0 =~= items@);
    }
    Ok(items)
}

impl<R> Deserializer<R> {
    /// Decodes the root: one named tag. The value is handed out, the name is
    /// read and dropped.
    pub fn deserialize_any<'de>(&mut self) -> (r: Result<Value>) where R: Read<'de>
        requires
            old(self).read.wf(),
        ensures
            final(self).read.wf(),
            final(self).read.input() == old(self).read.input(),
            match parse_tag(R::source(), old(self).read.input(), old(self).read.pos()) {
                Ok(((name, v), used)) => r is Ok && r->Ok_0@ == v && final(self).read.pos() == old(
                    self,
                ).read.pos() + used,
                Err(e) => r is Err && r->Err_0 == e && final(self).read.pos() == stop_tag(
                    R::source(),
                    old(self).read.input(),
                    old(self).read.pos(),
                ),
            },
    {
        let root = self.deserialize_root()?;
        Ok(root.1)
    }

    /// Decodes the root: one named tag, of which name and value are handed
    /// out.
    pub fn deserialize_root<'de>(&mut self) -> (r: Result<(String, Value)>) where R: Read<'de>
        requires
            old(self).read.wf(),
        ensures
            final(self).read.wf(),
            final(self).read.input() == old(self).read.input(),
            match parse_tag(R::source(), old(self).read.input(), old(self).read.pos()) {
                Ok(((name, v), used)) => r is Ok && r->Ok_0.0@ == name && r->Ok_0.1@ == v
                    && final(self).read.pos() == old(self).read.pos() + used,
                Err(e) => r is Err && r->Err_0 == e && final(self).read.pos() == stop_tag(
                    R::source(),
                    old(self).read.input(),
                    old(self).read.pos(),
                ),
            },
    {
        proof {
            self.read.wf_bounds();
        }
        let type_id = self.read.read_type_id()?;
        let root_name = self.read.read_name()?;
        proof {
            self.read.wf_bounds();
        }
        let value = proc_deserialize_value(type_id, self)?;
        Ok((into_owned(root_name), value))
    }
}

/// The decoder of one payload when the caller says which kind of value it
/// expects.
#[derive(Debug)]
pub struct InnerDeserializer {
    /// The kind of the tag whose payload is next.
    pub type_id: u8,
}

impl InnerDeserializer {
    /// Decodes the payload as whatever the tag's kind says.
    pub fn deserialize_any<'de, R: Read<'de>>(self, outer: &mut Deserializer<R>) -> (r: Result<
        Value,
    >)
        requires
            old(outer).read.wf(),
        ensures
            decoded(
                old(outer).read,
                final(outer).read,
                r,
                parse_payload(
                    R::source(),
                    self.type_id,
                    old(outer).read.input(),
                    old(outer).read.pos(),
                ),
                stop_payload(
                    R::source(),
                    self.type_id,
                    old(outer).read.input(),
                    old(outer).read.pos(),
                ),
            ),
    {
        proc_deserialize_value(self.type_id, outer)
    }

    /// Decodes a boolean: a byte tag that holds 1 or 0. Of a tag of another
    /// kind nothing is read; a byte that is neither 1 nor 0 has been read.
    pub fn deserialize_bool<'de, R: Read<'de>>(self, outer: &mut Deserializer<R>) -> (r: Result<
        bool,
    >)
        requires
            old(outer).read.wf(),
        ensures
            final(outer).read.wf(),
            final(outer).read.input() == old(outer).read.input(),
            r == value_of(
                parse_bool(
                    R::source(),
                    self.type_id,
                    old(outer).read.input(),
                    old(outer).read.pos(),
                ),
            ),
            final(outer).read.pos() == if self.type_id != consts::TYPE_ID_BYTE {
                old(outer).read.pos()
            } else {
                pos_after(
                    take_i8(R::source(), old(outer).read.input(), old(outer).read.pos()),
                    old(outer).read.pos(),
                )
            },
    {
        if self.type_id != consts::TYPE_ID_BYTE {
            return Err(
                Error::mismatch_at(self.type_id, consts::TYPE_ID_BYTE, outer.read.index()),
            );
        }
        let byte = outer.read.read_byte_inner()?;
        if byte == 1 {
            Ok(true)
        } else if byte == 0 {
            Ok(false)
        } else {
            Err(Error::bool_at(byte, outer.read.index()))
        }
    }

    /// Decodes text: a string tag. On a borrowed input the text borrows from
    /// it. Of a tag of another kind nothing is read.
    pub fn deserialize_str<'de, R: Read<'de>>(self, outer: &mut Deserializer<R>) -> (r: Result<
        Cow<'de, str>,
    >)
        requires
            old(outer).read.wf(),
        ensures
            final(outer).read.wf(),
            final(outer).read.input() == old(outer).read.input(),
            text_is(
                r,
                parse_str(
                    R::source(),
                    self.type_id,
                    old(outer).read.input(),
                    old(outer).read.pos(),
                ),
            ),
            held_as(R::source(), r),
            final(outer).read.pos() == if self.type_id != consts::TYPE_ID_STRING {
                old(outer).read.pos()
            } else {
                pos_after_text(R::source(), old(outer).read.input(), old(outer).read.pos())
            },
    {
        if self.type_id != consts::TYPE_ID_STRING {
            return Err(
                Error::mismatch_at(self.type_id, consts::TYPE_ID_STRING, outer.read.index()),
            );
        }
        outer.read.read_string_inner()
    }

    /// Decodes text into an owned string: a string tag. Of a tag of another
    /// kind nothing is read.
    pub fn deserialize_string<'de, R: Read<'de>>(self, outer: &mut Deserializer<R>) -> (r: Result<
        String,
    >)
        requires
            old(outer).read.wf(),
        ensures
            final(outer).read.wf(),
            final(outer).read.input() == old(outer).read.input(),
            match parse_str(
                R::source(),
                self.type_id,
                old(outer).read.input(),
                old(outer).read.pos(),
            ) {
                Ok((text, end)) => r is Ok && r->Ok_0@ == text,
                Err(e) => r is Err && r->Err_0 == e,
            },
            final(outer).read.pos() == if self.type_id != consts::TYPE_ID_STRING {
                old(outer).read.pos()
            } else {
                pos_after_text(R::source(), old(outer).read.input(), old(outer).read.pos())
            },
    {
        if self.type_id != consts::TYPE_ID_STRING {
            return Err(
                Error::mismatch_at(self.type_id, consts::TYPE_ID_STRING, outer.read.index()),
            );
        }
        let text = outer.read.read_string_inner()?;
        Ok(into_owned(text))
    }
}

/// Decodes the root tag of bytes that were taken from a stream.
pub fn from_reader(read: Vec<u8>) -> (r: Result<Value>)
    ensures
        match parse_tag(Source::Stream, read@, 0) {
            Ok(((name, v), used)) => r is Ok && r->Ok_0@ == v,
            Err(e) => r is Err && r->Err_0 == e,
        },
{
    let mut de = Deserializer::io(read);
    de.deserialize_any()
}

/// Decodes the root tag of a byte range.
pub fn from_slice(slice: &[u8]) -> (r: Result<Value>)
    ensures
        match parse_tag(Source::Slice, slice@, 0) {
            Ok(((name, v), used)) => r is Ok && r->Ok_0@ == v,
            Err(e) => r is Err && r->Err_0 == e,
        },
{
    let mut de = Deserializer::slice(slice);
    de.deserialize_any()
}

/// Decodes the root tag of `plain`, the bytes that a compressed stream
/// unpacked to, or reports the failure to unpack it.
pub fn from_unpacked(plain: Option<Vec<u8>>) -> (r: Result<Value>)
    ensures
        match plain {
            Some(bytes) => match parse_tag(Source::Stream, bytes@, 0) {
                Ok(((name, v), used)) => r is Ok && r->Ok_0@ == v,
                Err(e) => r is Err && r->Err_0 == e,
            },
            None => r is Err && r->Err_0 == (Error {
                code: ErrorCode::Io(IoErrorKind::Other),
                index: 0,
            }),
        },
{
    match plain {
        Some(bytes) => from_reader(bytes),
        None => Err(Error::io(IoErrorKind::Other)),
    }
}

/// What decoding the root tag of an unpacked stream comes to.
pub open spec fn unpacked_root(plain: Option<Seq<u8>>) -> Result<ValueView> {
    match plain {
        Some(bytes) => match parse_tag(Source::Stream, bytes, 0) {
            Ok(((name, v), used)) => Ok(v),
            Err(e) => Err(e),
        },
        None => Err(Error { code: ErrorCode::Io(IoErrorKind::Other), index: 0 }),
    }
}

/// Unpacks the gzip stream `read` and decodes the root tag of what it holds.
pub fn from_gzip_reader(read: Vec<u8>) -> (r: Result<Value>)
    ensures
        match unpacked_root(gunzip_image(read@)) {
            Ok(v) => r is Ok && r->Ok_0@ == v,
            Err(e) => r is Err && r->Err_0 == e,
        },
{
    from_unpacked(gunzip(read.as_slice()))
}

/// Unpacks the zlib stream `read` and decodes the root tag of what it holds.
pub fn from_zlib_reader(read: Vec<u8>) -> (r: Result<Value>)
    ensures
        match unpacked_root(unzlib_image(read@)) {
            Ok(v) => r is Ok && r->Ok_0@ == v,
            Err(e) => r is Err && r->Err_0 == e,
        },
{
    from_unpacked(unzlib(read.as_slice()))
}

/// What stands at the head of a payload: a number or text, read in full, or
/// the walk through a list, an array or a compound, whose elements are still
/// to be read.
#[derive(Debug)]
pub enum Payload<'de> {
    Byte(i8),
    Short(i16),
    Int(i32),
    Long(i64),
    Float(u32),
    Double(u64),
    Text(Cow<'de, str>),
    Elements(ListOrArrayAccess),
    Entries(CompoundAccess),
}

/// Whether the walk `access` is that of `n` elements of kind `id`, none of
/// them read yet.
pub open spec fn fresh_walk(access: ListOrArrayAccess, id: u8, n: nat) -> bool {
    access == (ListOrArrayAccess { type_id: id, cur_len: 0, total_len: n as i32 }) && n
        <= i32::MAX
}

/// What stands at the head of the payload of a tag of kind `id` at `pos`,
/// and the offset behind the head.
pub open spec fn head_at(payload: Payload<'_>, src: Source, id: u8, input: Seq<u8>, pos: int) -> (
    bool,
    int,
) {
    if id == consts::TYPE_ID_BYTE {
        (payload == Payload::Byte(i8_at(input, pos)), pos + 1)
    } else if id == consts::TYPE_ID_SHORT {
        (payload == Payload::Short(crate::wire::i16_at(input, pos)), pos + 2)
    } else if id == consts::TYPE_ID_INT {
        (payload == Payload::Int(i32_at(input, pos)), pos + 4)
    } else if id == consts::TYPE_ID_LONG {
        (payload == Payload::Long(i64_at(input, pos)), pos + 8)
    } else if id == consts::TYPE_ID_FLOAT {
        (payload == Payload::Float(crate::wire::u32_at(input, pos)), pos + 4)
    } else if id == consts::TYPE_ID_DOUBLE {
        (payload == Payload::Double(crate::wire::u64_at(input, pos)), pos + 8)
    } else if id == consts::TYPE_ID_STRING {
        (
            payload is Text && payload->Text_0@ == take_text(src, input, pos)->Ok_0.0 && held_as(
                src,
                Ok::<Cow<'_, str>, Error>(payload->Text_0),
            ),
            take_text(src, input, pos)->Ok_0.1,
        )
    } else if id == consts::TYPE_ID_BYTE_ARRAY {
        (
            payload is Elements && fresh_walk(
                payload->Elements_0,
                consts::TYPE_ID_BYTE,
                take_len(src, input, pos)->Ok_0.0,
            ),
            pos + 4,
        )
    } else if id == consts::TYPE_ID_INT_ARRAY {
        (
            payload is Elements && fresh_walk(
                payload->Elements_0,
                consts::TYPE_ID_INT,
                take_len(src, input, pos)->Ok_0.0,
            ),
            pos + 4,
        )
    } else if id == consts::TYPE_ID_LONG_ARRAY {
        (
            payload is Elements && fresh_walk(
                payload->Elements_0,
                consts::TYPE_ID_LONG,
                take_len(src, input, pos)->Ok_0.0,
            ),
            pos + 4,
        )
    } else if id == consts::TYPE_ID_LIST {
        (
            payload is Elements && fresh_walk(
                payload->Elements_0,
                input[pos],
                take_len(src, input, pos + 1)->Ok_0.0,
            ),
            pos + 5,
        )
    } else {
        (payload is Entries && payload->Entries_0.type_id is None, pos)
    }
}

/// The failure to read the head of the payload of a tag of kind `id` at
/// `pos`, or nothing where the head can be read.
pub open spec fn head_failure(src: Source, id: u8, input: Seq<u8>, pos: int) -> Option<Error> {
    if id == consts::TYPE_ID_BYTE {
        take_i8(src, input, pos).err()
    } else if id == consts::TYPE_ID_SHORT {
        take_i16(src, input, pos).err()
    } else if id == consts::TYPE_ID_INT {
        take_i32(src, input, pos).err()
    } else if id == consts::TYPE_ID_LONG {
        take_i64(src, input, pos).err()
    } else if id == consts::TYPE_ID_FLOAT {
        take_u32(src, input, pos).err()
    } else if id == consts::TYPE_ID_DOUBLE {
        take_u64(src, input, pos).err()
    } else if id == consts::TYPE_ID_STRING {
        take_text(src, input, pos).err()
    } else if id == consts::TYPE_ID_BYTE_ARRAY || id == consts::TYPE_ID_INT_ARRAY || id
        == consts::TYPE_ID_LONG_ARRAY {
        take_len(src, input, pos).err()
    } else if id == consts::TYPE_ID_LIST {
        match take_u8(src, input, pos) {
            Err(e) => Some(e),
            Ok((_, behind_id)) => take_len(src, input, behind_id).err(),
        }
    } else if id == consts::TYPE_ID_COMPOUND {
        None
    } else {
        Some(Error { code: ErrorCode::TypeIdInvalid(id), index: pos as usize })
    }
}

/// Whether a reader that stood as `before` at the payload of a tag of kind
/// `id` stands as `after` where reading the head of the payload leaves it,
/// if the head cannot be read.
pub open spec fn stopped_at_head<'de, R: Read<'de>>(before: R, after: R, id: u8) -> bool {
    head_failure(R::source(), id, before.input(), before.pos()) is Some ==> after.pos()
        == head_stop(R::source(), id, before.input(), before.pos())
}

impl InnerDeserializer {
    /// Reads the head of the payload: a number or text in full; of a list or
    /// an array the header; of a compound nothing. A caller that walks on
    /// through the elements or entries reads the payload piece by piece.
    pub fn open<'de, R: Read<'de>>(self, outer: &mut Deserializer<R>) -> (r: Result<Payload<'de>>)
        requires
            old(outer).read.wf(),
        ensures
            final(outer).read.wf(),
            final(outer).read.input() == old(outer).read.input(),
            stopped_at_head(old(outer).read, final(outer).read, self.type_id),
            match head_failure(
                R::source(),
                self.type_id,
                old(outer).read.input(),
                old(outer).read.pos(),
            ) {
                Some(e) => r is Err && r->Err_0 == e,
                None => {
                    &&& r is Ok
                    &&& head_at(
                        r->Ok_0,
                        R::source(),
                        self.type_id,
                        old(outer).read.input(),
                        old(outer).read.pos(),
                    ).0
                    &&& final(outer).read.pos() == head_at(
                        r->Ok_0,
                        R::source(),
                        self.type_id,
                        old(outer).read.input(),
                        old(outer).read.pos(),
                    ).1
                },
            },
    {
        let type_id = self.type_id;
        if type_id == consts::TYPE_ID_BYTE {
            Ok(Payload::Byte(outer.read.read_byte_inner()?))
        } else if type_id == consts::TYPE_ID_SHORT {
            Ok(Payload::Short(outer.read.read_short_inner()?))
        } else if type_id == consts::TYPE_ID_INT {
            Ok(Payload::Int(outer.read.read_int_inner()?))
        } else if type_id == consts::TYPE_ID_LONG {
            Ok(Payload::Long(outer.read.read_long_inner()?))
        } else if type_id == consts::TYPE_ID_FLOAT {
            Ok(Payload::Float(outer.read.read_float_inner()?))
        } else if type_id == consts::TYPE_ID_DOUBLE {
            Ok(Payload::Double(outer.read.read_double_inner()?))
        } else if type_id == consts::TYPE_ID_STRING {
            Ok(Payload::Text(outer.read.read_string_inner()?))
        } else if type_id == consts::TYPE_ID_BYTE_ARRAY {
            Ok(Payload::Elements(ListOrArrayAccess::byte_array(outer)?))
        } else if type_id == consts::TYPE_ID_INT_ARRAY {
            Ok(Payload::Elements(ListOrArrayAccess::int_array(outer)?))
        } else if type_id == consts::TYPE_ID_LONG_ARRAY {
            Ok(Payload::Elements(ListOrArrayAccess::long_array(outer)?))
        } else if type_id == consts::TYPE_ID_LIST {
            Ok(Payload::Elements(ListOrArrayAccess::list(outer)?))
        } else if type_id == consts::TYPE_ID_COMPOUND {
            Ok(Payload::Entries(CompoundAccess::new()))
        } else {
            Err(Error::invalid_id_at(type_id, outer.read.index()))
        }
    }
}

impl ListOrArrayAccess {
    /// Steps on to the next element: hands out the decoder of its payload,
    /// or nothing where all the elements that the header announced have been
    /// stepped to.
    pub fn step(&mut self) -> (r: Option<InnerDeserializer>)
        requires
            old(self).wf(),
        ensures
            final(self).wf(),
            final(self).type_id == old(self).type_id,
            final(self).total_len == old(self).total_len,
            old(self).cur_len == old(self).total_len ==> r is None && final(self).cur_len == old(
                self,
            ).cur_len,
            old(self).cur_len != old(self).total_len ==> r == Some(
                InnerDeserializer { type_id: old(self).type_id },
            ) && final(self).cur_len == old(self).cur_len + 1,
    {
        if self.cur_len == self.total_len {
            return None;
        }
        self.cur_len += 1;
        Some(InnerDeserializer { type_id: self.type_id })
    }
}

impl CompoundAccess {
    /// The decoder of the payload of the tag whose name `next_key` has handed
    /// out.
    pub fn value(&self) -> (r: InnerDeserializer)
        requires
            self.type_id is Some,
        ensures
            r.type_id == self.type_id->Some_0,
    {
        match self.type_id {
            Some(type_id) => InnerDeserializer { type_id },
            None => InnerDeserializer { type_id: consts::TYPE_ID_END },
        }
    }
}

} // verus!
