//! The formatters: how a tag is rendered, on the wire or as a line of a transcript.

use crate::consts;
use crate::text::{decimal, push_decimal, shown_text, utf8_lossy};
use crate::wire::{
    be_bytes_u16, be_bytes_u32, be_bytes_u64, be_i16, be_i32, be_i64, be_i8, be_u32, be_u64,
};
use vstd::prelude::*;
use vstd::string::StringExecFns;
use vstd::utf8::encode_utf8;

verus! {

/// A tag's name as a formatter receives it: the length that goes into the
/// header, and the bytes.
pub struct Label {
    pub len: i16,
    pub bytes: Seq<u8>,
}

/// One call of a formatter.
#[allow(inconsistent_fields)]
pub enum Event {
    CompoundTag { name: Label },
    EndTag,
    ByteTag { name: Label, value: i8 },
    ShortTag { name: Label, value: i16 },
    IntTag { name: Label, value: i32 },
    LongTag { name: Label, value: i64 },
    FloatTag { name: Label, bits: u32, text: Seq<char> },
    DoubleTag { name: Label, bits: u64, text: Seq<char> },
    StringTag { name: Label, len: i16, bytes: Seq<u8> },
    ListTag { type_id: u8, len: i32, name: Label },
    CloseList,
    ArrayHead { type_id: u8, len: i32, name: Label },
    CloseArray,
    CompoundInner,
    ByteInner { value: i8 },
    ShortInner { value: i16 },
    IntInner { value: i32 },
    LongInner { value: i64 },
    FloatInner { bits: u32, text: Seq<char> },
    DoubleInner { bits: u64, text: Seq<char> },
    StringInner { len: i16, bytes: Seq<u8> },
}

/// Whether `id` is the id of one of the three array kinds.
pub open spec fn is_array_id(id: u8) -> bool {
    id == consts::TYPE_ID_BYTE_ARRAY || id == consts::TYPE_ID_INT_ARRAY || id
        == consts::TYPE_ID_LONG_ARRAY
}

/// The head of a named tag on the wire: id, length of the name, name.
pub open spec fn binary_head(id: u8, name: Label) -> Seq<u8> {
    seq![id] + be_i16(name.len) + name.bytes
}

/// The bytes that one formatter call puts on the wire.
pub open spec fn binary(e: Event) -> Seq<u8> {
    match e {
        Event::CompoundTag { name } => binary_head(consts::TYPE_ID_COMPOUND, name),
        Event::EndTag => seq![consts::TYPE_ID_END],
        Event::ByteTag { name, value } => binary_head(consts::TYPE_ID_BYTE, name) + be_i8(value),
        Event::ShortTag { name, value } => binary_head(consts::TYPE_ID_SHORT, name) + be_i16(
            value,
        ),
        Event::IntTag { name, value } => binary_head(consts::TYPE_ID_INT, name) + be_i32(value),
        Event::LongTag { name, value } => binary_head(consts::TYPE_ID_LONG, name) + be_i64(value),
        Event::FloatTag { name, bits, text } => binary_head(consts::TYPE_ID_FLOAT, name) + be_u32(
            bits,
        ),
        Event::DoubleTag { name, bits, text } => binary_head(consts::TYPE_ID_DOUBLE, name)
            + be_u64(bits),
        Event::StringTag { name, len, bytes } => binary_head(consts::TYPE_ID_STRING, name)
            + be_i16(len) + bytes,
        Event::ListTag { type_id, len, name } => binary_head(consts::TYPE_ID_LIST, name)
            + seq![type_id] + be_i32(len),
        Event::CloseList => Seq::empty(),
        Event::ArrayHead { type_id, len, name } => binary_head(type_id, name) + be_i32(len),
        Event::CloseArray => Seq::empty(),
        Event::CompoundInner => Seq::empty(),
        Event::ByteInner { value } => be_i8(value),
        Event::ShortInner { value } => be_i16(value),
        Event::IntInner { value } => be_i32(value),
        Event::LongInner { value } => be_i64(value),
        Event::FloatInner { bits, text } => be_u32(bits),
        Event::DoubleInner { bits, text } => be_u64(bits),
        Event::StringInner { len, bytes } => be_i16(len) + bytes,
    }
}

/// The capability by which the encoder renders tags. Every method receives
/// the name, because a tag carries its name in its header.
pub trait Formatter: Sized {
    /// The bytes that this formatter, as it stands, writes for the call `e`.
    spec fn rendered(&self, e: Event) -> Seq<u8>;

    /// The formatter after the call `e`.
    spec fn advanced(&self, e: Event) -> Self;

    fn write_compound_tag(&mut self, w: &mut Vec<u8>, name_len: i16, name_bytes: &[u8])
        ensures
            final(w)@ == old(w)@ + old(self).rendered(
                Event::CompoundTag { name: Label { len: name_len, bytes: name_bytes@ } },
            ),
            *final(self) == old(self).advanced(
                Event::CompoundTag { name: Label { len: name_len, bytes: name_bytes@ } },
            ),
    ;

    fn write_end_tag(&mut self, w: &mut Vec<u8>)
        ensures
            final(w)@ == old(w)@ + old(self).rendered(Event::EndTag),
            *final(self) == old(self).advanced(Event::EndTag),
    ;

    fn write_byte_tag(&mut self, w: &mut Vec<u8>, name_len: i16, name_bytes: &[u8], value: i8)
        ensures
            final(w)@ == old(w)@ + old(self).rendered(
                Event::ByteTag { name: Label { len: name_len, bytes: name_bytes@ }, value },
            ),
            *final(self) == old(self).advanced(
                Event::ByteTag { name: Label { len: name_len, bytes: name_bytes@ }, value },
            ),
    ;

    fn write_short_tag(&mut self, w: &mut Vec<u8>, name_len: i16, name_bytes: &[u8], value: i16)
        ensures
            final(w)@ == old(w)@ + old(self).rendered(
                Event::ShortTag { name: Label { len: name_len, bytes: name_bytes@ }, value },
            ),
            *final(self) == old(self).advanced(
                Event::ShortTag { name: Label { len: name_len, bytes: name_bytes@ }, value },
            ),
    ;

    fn write_int_tag(&mut self, w: &mut Vec<u8>, name_len: i16, name_bytes: &[u8], value: i32)
        ensures
            final(w)@ == old(w)@ + old(self).rendered(
                Event::IntTag { name: Label { len: name_len, bytes: name_bytes@ }, value },
            ),
            *final(self) == old(self).advanced(
                Event::IntTag { name: Label { len: name_len, bytes: name_bytes@ }, value },
            ),
    ;

    fn write_long_tag(&mut self, w: &mut Vec<u8>, name_len: i16, name_bytes: &[u8], value: i64)
        ensures
            final(w)@ == old(w)@ + old(self).rendered(
                Event::LongTag { name: Label { len: name_len, bytes: name_bytes@ }, value },
            ),
            *final(self) == old(self).advanced(
                Event::LongTag { name: Label { len: name_len, bytes: name_bytes@ }, value },
            ),
    ;

    /// `value` is the number's bit pattern, `text` its decimal rendering.
    fn write_float_tag(
        &mut self,
        w: &mut Vec<u8>,
        name_len: i16,
        name_bytes: &[u8],
        value: u32,
        text: &str,
    )
        ensures
            final(w)@ == old(w)@ + old(self).rendered(
                Event::FloatTag {
                    name: Label { len: name_len, bytes: name_bytes@ },
                    bits: value,
                    text: text@,
                },
            ),
            *final(self) == old(self).advanced(
                Event::FloatTag {
                    name: Label { len: name_len, bytes: name_bytes@ },
                    bits: value,
                    text: text@,
                },
            ),
    ;

    /// `value` is the number's bit pattern, `text` its decimal rendering.
    fn write_double_tag(
        &mut self,
        w: &mut Vec<u8>,
        name_len: i16,
        name_bytes: &[u8],
        value: u64,
        text: &str,
    )
        ensures
            final(w)@ == old(w)@ + old(self).rendered(
                Event::DoubleTag {
                    name: Label { len: name_len, bytes: name_bytes@ },
                    bits: value,
                    text: text@,
                },
            ),
            *final(self) == old(self).advanced(
                Event::DoubleTag {
                    name: Label { len: name_len, bytes: name_bytes@ },
                    bits: value,
                    text: text@,
                },
            ),
    ;

    fn write_string_tag(
        &mut self,
        w: &mut Vec<u8>,
        name_len: i16,
        name_bytes: &[u8],
        string_len: i16,
        string_bytes: &[u8],
    )
        ensures
            final(w)@ == old(w)@ + old(self).rendered(
                Event::StringTag {
                    name: Label { len: name_len, bytes: name_bytes@ },
                    len: string_len,
                    bytes: string_bytes@,
                },
            ),
            *final(self) == old(self).advanced(
                Event::StringTag {
                    name: Label { len: name_len, bytes: name_bytes@ },
                    len: string_len,
                    bytes: string_bytes@,
                },
            ),
    ;

    fn write_list_tag(
        &mut self,
        w: &mut Vec<u8>,
        type_id: u8,
        len: i32,
        name_len: i16,
        name_bytes: &[u8],
    )
        ensures
            final(w)@ == old(w)@ + old(self).rendered(
                Event::ListTag { type_id, len, name: Label { len: name_len, bytes: name_bytes@ } },
            ),
            *final(self) == old(self).advanced(
                Event::ListTag { type_id, len, name: Label { len: name_len, bytes: name_bytes@ } },
            ),
    ;

    fn close_list(&mut self, w: &mut Vec<u8>)
        ensures
            final(w)@ == old(w)@ + old(self).rendered(Event::CloseList),
            *final(self) == old(self).advanced(Event::CloseList),
    ;

    fn write_array_head(
        &mut self,
        w: &mut Vec<u8>,
        type_id: u8,
        len: i32,
        name_len: i16,
        name_bytes: &[u8],
    )
        requires
            is_array_id(type_id),
        ensures
            final(w)@ == old(w)@ + old(self).rendered(
                Event::ArrayHead {
                    type_id,
                    len,
                    name: Label { len: name_len, bytes: name_bytes@ },
                },
            ),
            *final(self) == old(self).advanced(
                Event::ArrayHead {
                    type_id,
                    len,
                    name: Label { len: name_len, bytes: name_bytes@ },
                },
            ),
    ;

    fn close_array(&mut self, w: &mut Vec<u8>)
        ensures
            final(w)@ == old(w)@ + old(self).rendered(Event::CloseArray),
            *final(self) == old(self).advanced(Event::CloseArray),
    ;

    fn write_compound_inner(&mut self, w: &mut Vec<u8>)
        ensures
            final(w)@ == old(w)@ + old(self).rendered(Event::CompoundInner),
            *final(self) == old(self).advanced(Event::CompoundInner),
    ;

    fn write_byte_inner(&mut self, w: &mut Vec<u8>, value: i8)
        ensures
            final(w)@ == old(w)@ + old(self).rendered(Event::ByteInner { value }),
            *final(self) == old(self).advanced(Event::ByteInner { value }),
    ;

    fn write_short_inner(&mut self, w: &mut Vec<u8>, value: i16)
        ensures
            final(w)@ == old(w)@ + old(self).rendered(Event::ShortInner { value }),
            *final(self) == old(self).advanced(Event::ShortInner { value }),
    ;

    fn write_int_inner(&mut self, w: &mut Vec<u8>, value: i32)
        ensures
            final(w)@ == old(w)@ + old(self).rendered(Event::IntInner { value }),
            *final(self) == old(self).advanced(Event::IntInner { value }),
    ;

    fn write_long_inner(&mut self, w: &mut Vec<u8>, value: i64)
        ensures
            final(w)@ == old(w)@ + old(self).rendered(Event::LongInner { value }),
            *final(self) == old(self).advanced(Event::LongInner { value }),
    ;

    fn write_float_inner(&mut self, w: &mut Vec<u8>, value: u32, text: &str)
        ensures
            final(w)@ == old(w)@ + old(self).rendered(
                Event::FloatInner { bits: value, text: text@ },
            ),
            *final(self) == old(self).advanced(Event::FloatInner { bits: value, text: text@ }),
    ;

    fn write_double_inner(&mut self, w: &mut Vec<u8>, value: u64, text: &str)
        ensures
            final(w)@ == old(w)@ + old(self).rendered(
                Event::DoubleInner { bits: value, text: text@ },
            ),
            *final(self) == old(self).advanced(Event::DoubleInner { bits: value, text: text@ }),
    ;

    fn write_string_inner(&mut self, w: &mut Vec<u8>, string_len: i16, string_bytes: &[u8])
        ensures
            final(w)@ == old(w)@ + old(self).rendered(
                Event::StringInner { len: string_len, bytes: string_bytes@ },
            ),
            *final(self) == old(self).advanced(
                Event::StringInner { len: string_len, bytes: string_bytes@ },
            ),
    ;
}

/// Appends `bytes` to `w`.
pub(crate) fn put_bytes(w: &mut Vec<u8>, bytes: &[u8])
    ensures
        final(w)@ == old(w)@ + bytes@,
{
    w.extend_from_slice(bytes);
    assert(w@ =~= old(w)@ + bytes@);
}

/// Appends the big-endian bytes of `n` to `w`.
pub(crate) fn put_i16(w: &mut Vec<u8>, n: i16)
    ensures
        final(w)@ == old(w)@ + be_i16(n),
{
    let b = be_bytes_u16(#[verifier::truncate] (n as u16));
    put_bytes(w, b.as_slice());
}

/// Appends the big-endian bytes of `n` to `w`.
pub(crate) fn put_u32(w: &mut Vec<u8>, n: u32)
    ensures
        final(w)@ == old(w)@ + be_u32(n),
{
    let b = be_bytes_u32(n);
    put_bytes(w, b.as_slice());
}

/// Appends the big-endian bytes of `n` to `w`.
pub(crate) fn put_i32(w: &mut Vec<u8>, n: i32)
    ensures
        final(w)@ == old(w)@ + be_i32(n),
{
    put_u32(w, #[verifier::truncate] (n as u32));
}

/// Appends the big-endian bytes of `n` to `w`.
pub(crate) fn put_u64(w: &mut Vec<u8>, n: u64)
    ensures
        final(w)@ == old(w)@ + be_u64(n),
{
    let b = be_bytes_u64(n);
    put_bytes(w, b.as_slice());
}

/// Appends the big-endian bytes of `n` to `w`.
pub(crate) fn put_i64(w: &mut Vec<u8>, n: i64)
    ensures
        final(w)@ == old(w)@ + be_i64(n),
{
    put_u64(w, #[verifier::truncate] (n as u64));
}

/// Appends the one byte of `n` to `w`.
pub(crate) fn put_i8(w: &mut Vec<u8>, n: i8)
    ensures
        final(w)@ == old(w)@ + be_i8(n),
{
    w.push(#[verifier::truncate] (n as u8));
    assert(w@ =~= old(w)@ + be_i8(n));
}

/// Appends the head of a named tag to `w`.
pub(crate) fn put_head(w: &mut Vec<u8>, id: u8, name_len: i16, name_bytes: &[u8])
    ensures
        final(w)@ == old(w)@ + binary_head(id, Label { len: name_len, bytes: name_bytes@ }),
{
    w.push(id);
    put_i16(w, name_len);
    put_bytes(w, name_bytes);
    assert(w@ =~= old(w)@ + binary_head(id, Label { len: name_len, bytes: name_bytes@ }));
}

/// The formatter of the wire format. It keeps no state.
pub struct BinaryFormatter;

impl Formatter for BinaryFormatter {
    open spec fn rendered(&self, e: Event) -> Seq<u8> {
        binary(e)
    }

    open spec fn advanced(&self, e: Event) -> Self {
        *self
    }

    fn write_compound_tag(&mut self, w: &mut Vec<u8>, name_len: i16, name_bytes: &[u8]) {
        put_head(w, consts::TYPE_ID_COMPOUND, name_len, name_bytes);
    }

    fn write_end_tag(&mut self, w: &mut Vec<u8>) {
        w.push(consts::TYPE_ID_END);
        assert(w@ =~= old(w)@ + seq![consts::TYPE_ID_END]);
    }

    fn write_byte_tag(&mut self, w: &mut Vec<u8>, name_len: i16, name_bytes: &[u8], value: i8) {
        put_head(w, consts::TYPE_ID_BYTE, name_len, name_bytes);
        put_i8(w, value);
        assert(w@ =~= old(w)@ + binary(
            Event::ByteTag { name: Label { len: name_len, bytes: name_bytes@ }, value },
        ));
    }

    fn write_short_tag(&mut self, w: &mut Vec<u8>, name_len: i16, name_bytes: &[u8], value: i16) {
        put_head(w, consts::TYPE_ID_SHORT, name_len, name_bytes);
        put_i16(w, value);
        assert(w@ =~= old(w)@ + binary(
            Event::ShortTag { name: Label { len: name_len, bytes: name_bytes@ }, value },
        ));
    }

    fn write_int_tag(&mut self, w: &mut Vec<u8>, name_len: i16, name_bytes: &[u8], value: i32) {
        put_head(w, consts::TYPE_ID_INT, name_len, name_bytes);
        put_i32(w, value);
        assert(w@ =~= old(w)@ + binary(
            Event::IntTag { name: Label { len: name_len, bytes: name_bytes@ }, value },
        ));
    }

    fn write_long_tag(&mut self, w: &mut Vec<u8>, name_len: i16, name_bytes: &[u8], value: i64) {
        put_head(w, consts::TYPE_ID_LONG, name_len, name_bytes);
        put_i64(w, value);
        assert(w@ =~= old(w)@ + binary(
            Event::LongTag { name: Label { len: name_len, bytes: name_bytes@ }, value },
        ));
    }

    fn write_float_tag(
        &mut self,
        w: &mut Vec<u8>,
        name_len: i16,
        name_bytes: &[u8],
        value: u32,
        text: &str,
    ) {
        put_head(w, consts::TYPE_ID_FLOAT, name_len, name_bytes);
        put_u32(w, value);
        assert(w@ =~= old(w)@ + binary(
            Event::FloatTag {
                name: Label { len: name_len, bytes: name_bytes@ },
                bits: value,
                text: text@,
            },
        ));
    }

    fn write_double_tag(
        &mut self,
        w: &mut Vec<u8>,
        name_len: i16,
        name_bytes: &[u8],
        value: u64,
        text: &str,
    ) {
        put_head(w, consts::TYPE_ID_DOUBLE, name_len, name_bytes);
        put_u64(w, value);
        assert(w@ =~= old(w)@ + binary(
            Event::DoubleTag {
                name: Label { len: name_len, bytes: name_bytes@ },
                bits: value,
                text: text@,
            },
        ));
    }

    fn write_string_tag(
        &mut self,
        w: &mut Vec<u8>,
        name_len: i16,
        name_bytes: &[u8],
        string_len: i16,
        string_bytes: &[u8],
    ) {
        put_head(w, consts::TYPE_ID_STRING, name_len, name_bytes);
        put_i16(w, string_len);
        put_bytes(w, string_bytes);
        assert(w@ =~= old(w)@ + binary(
            Event::StringTag {
                name: Label { len: name_len, bytes: name_bytes@ },
                len: string_len,
                bytes: string_bytes@,
            },
        ));
    }

    fn write_list_tag(
        &mut self,
        w: &mut Vec<u8>,
        type_id: u8,
        len: i32,
        name_len: i16,
        name_bytes: &[u8],
    ) {
        put_head(w, consts::TYPE_ID_LIST, name_len, name_bytes);
        w.push(type_id);
        put_i32(w, len);
        assert(w@ =~= old(w)@ + binary(
            Event::ListTag { type_id, len, name: Label { len: name_len, bytes: name_bytes@ } },
        ));
    }

    fn close_list(&mut self, w: &mut Vec<u8>) {
        assert(w@ =~= old(w)@ + Seq::<u8>::empty());
    }

    fn write_array_head(
        &mut self,
        w: &mut Vec<u8>,
        type_id: u8,
        len: i32,
        name_len: i16,
        name_bytes: &[u8],
    ) {
        put_head(w, type_id, name_len, name_bytes);
        put_i32(w, len);
        assert(w@ =~= old(w)@ + binary(
            Event::ArrayHead { type_id, len, name: Label { len: name_len, bytes: name_bytes@ } },
        ));
    }

    fn close_array(&mut self, w: &mut Vec<u8>) {
        assert(w@ =~= old(w)@ + Seq::<u8>::empty());
    }

    fn write_compound_inner(&mut self, w: &mut Vec<u8>) {
        assert(w@ =~= old(w)@ + Seq::<u8>::empty());
    }

    fn write_byte_inner(&mut self, w: &mut Vec<u8>, value: i8) {
        put_i8(w, value);
    }

    fn write_short_inner(&mut self, w: &mut Vec<u8>, value: i16) {
        put_i16(w, value);
    }

    fn write_int_inner(&mut self, w: &mut Vec<u8>, value: i32) {
        put_i32(w, value);
    }

    fn write_long_inner(&mut self, w: &mut Vec<u8>, value: i64) {
        put_i64(w, value);
    }

    fn write_float_inner(&mut self, w: &mut Vec<u8>, value: u32, text: &str) {
        put_u32(w, value);
    }

    fn write_double_inner(&mut self, w: &mut Vec<u8>, value: u64, text: &str) {
        put_u64(w, value);
    }

    fn write_string_inner(&mut self, w: &mut Vec<u8>, string_len: i16, string_bytes: &[u8]) {
        put_i16(w, string_len);
        put_bytes(w, string_bytes);
        assert(w@ =~= old(w)@ + binary(
            Event::StringInner { len: string_len, bytes: string_bytes@ },
        ));
    }
}

/// The formatter of transcripts: one indented line of text for each call.
pub struct TranscriptFormatter<'a> {
    /// How many containers are open.
    pub current_indent: usize,
    /// The bytes of one step of indentation.
    pub indent: &'a [u8],
}

/// `n` steps of indentation.
pub open spec fn margin(indent: Seq<u8>, n: nat) -> Seq<u8>
    decreases n,
{
    if n == 0 {
        Seq::empty()
    } else {
        margin(indent, (n - 1) as nat) + indent
    }
}

/// Whether the call opens a container.
pub open spec fn opens(e: Event) -> bool {
    e is CompoundTag || e is ListTag || e is ArrayHead || e is CompoundInner
}

/// Whether the call closes a container.
pub open spec fn closes(e: Event) -> bool {
    e is EndTag || e is CloseList || e is CloseArray
}

/// The number of open containers after the call `e`, where `depth` were open
/// before it. The count neither leaves its type's range nor falls below zero.
pub open spec fn depth_after(e: Event, depth: usize) -> usize {
    if opens(e) {
        if depth < usize::MAX {
            (depth + 1) as usize
        } else {
            depth
        }
    } else if closes(e) {
        if depth > 0 {
            (depth - 1) as usize
        } else {
            0
        }
    } else {
        depth
    }
}

/// The depth at which the line of `e` is written: a closing line stands at
/// the depth of the line that opened the container.
pub open spec fn line_depth(e: Event, depth: usize) -> usize {
    if closes(e) {
        depth_after(e, depth)
    } else {
        depth
    }
}

/// Whether the line of `e` ends in a newline. Lines that open a container and
/// lines inside a list or an array always do; a named tag and a closing line
/// do unless they stand at depth 0, so that a transcript does not end in one.
pub open spec fn ends_line(e: Event, depth: usize) -> bool {
    if opens(e) {
        true
    } else {
        match e {
            Event::ByteInner { .. }
            | Event::ShortInner { .. }
            | Event::IntInner { .. }
            | Event::LongInner { .. }
            | Event::FloatInner { .. }
            | Event::DoubleInner { .. }
            | Event::StringInner { .. } => true,
            _ => line_depth(e, depth) != 0,
        }
    }
}

/// The word for an array kind.
pub open spec fn array_word(id: u8) -> Seq<char> {
    if id == consts::TYPE_ID_BYTE_ARRAY {
        "ByteArray"@
    } else if id == consts::TYPE_ID_INT_ARRAY {
        "IntArray"@
    } else {
        "LongArray"@
    }
}

/// The word for the kind of an array's elements.
pub open spec fn array_inner_word(id: u8) -> Seq<char> {
    if id == consts::TYPE_ID_BYTE_ARRAY {
        "Byte"@
    } else if id == consts::TYPE_ID_INT_ARRAY {
        "Int"@
    } else {
        "Long"@
    }
}

/// The line of a named tag that holds one value.
pub open spec fn tag_line(kind: Seq<char>, name: Seq<u8>, value: Seq<char>) -> Seq<char> {
    kind + " '"@ + shown_text(name) + "' "@ + value
}

/// The line of a value inside a list or an array.
pub open spec fn inner_line(kind: Seq<char>, value: Seq<char>) -> Seq<char> {
    kind + " "@ + value
}

/// The line of a list's or an array's header.
pub open spec fn head_line(kind: Seq<char>, name: Seq<u8>, of: Seq<char>, len: i32) -> Seq<char> {
    kind + " '"@ + shown_text(name) + "': ["@ + of + "; "@ + decimal(len as int) + "]"@
}

/// The text of the line for `e`, without indentation and newline.
pub open spec fn transcript_line(e: Event) -> Seq<char> {
    match e {
        Event::CompoundTag { name } => "Compound '"@ + shown_text(name.bytes) + "'"@,
        Event::EndTag => "EndCompound"@,
        Event::ByteTag { name, value } => tag_line("Byte"@, name.bytes, decimal(value as int)),
        Event::ShortTag { name, value } => tag_line("Short"@, name.bytes, decimal(value as int)),
        Event::IntTag { name, value } => tag_line("Int"@, name.bytes, decimal(value as int)),
        Event::LongTag { name, value } => tag_line("Long"@, name.bytes, decimal(value as int)),
        Event::FloatTag { name, bits, text } => tag_line("Float"@, name.bytes, text),
        Event::DoubleTag { name, bits, text } => tag_line("Double"@, name.bytes, text),
        Event::StringTag { name, len, bytes } => tag_line("String"@, name.bytes, shown_text(bytes)),
        Event::ListTag { type_id, len, name } => head_line(
            "List"@,
            name.bytes,
            decimal(type_id as int),
            len,
        ),
        Event::CloseList => "EndList"@,
        Event::ArrayHead { type_id, len, name } => head_line(
            array_word(type_id),
            name.bytes,
            array_inner_word(type_id),
            len,
        ),
        Event::CloseArray => "EndArray"@,
        Event::CompoundInner => "Compound"@,
        Event::ByteInner { value } => inner_line("Byte"@, decimal(value as int)),
        Event::ShortInner { value } => inner_line("Short"@, decimal(value as int)),
        Event::IntInner { value } => inner_line("Int"@, decimal(value as int)),
        Event::LongInner { value } => inner_line("Long"@, decimal(value as int)),
        Event::FloatInner { bits, text } => inner_line("Float"@, text),
        Event::DoubleInner { bits, text } => inner_line("Double"@, text),
        Event::StringInner { len, bytes } => inner_line("String"@, shown_text(bytes)),
    }
}

/// The end of a line: a newline or nothing.
pub open spec fn line_end(newline: bool) -> Seq<char> {
    if newline {
        "\n"@
    } else {
        Seq::empty()
    }
}

/// The bytes that a transcript formatter with the indentation step `indent`
/// and `depth` open containers writes for the call `e`.
pub open spec fn transcript(e: Event, indent: Seq<u8>, depth: usize) -> Seq<u8> {
    margin(indent, line_depth(e, depth) as nat) + encode_utf8(
        transcript_line(e) + line_end(ends_line(e, depth)),
    )
}

/// Writes `n` steps of indentation.
pub fn indent(w: &mut Vec<u8>, n: usize, s: &[u8])
    ensures
        final(w)@ == old(w)@ + margin(s@, n as nat),
{
    let mut i: usize = 0;
    assert(w@ =~= old(w)@ + margin(s@, 0));
    while i < n
        invariant
            i <= n,
            w@ == old(w)@ + margin(s@, i as nat),
        decreases n - i,
    {
        put_bytes(w, s);
        i += 1;
        assert(w@ =~= old(w)@ + margin(s@, i as nat));
    }
}

impl<'a> TranscriptFormatter<'a> {
    /// A formatter that indents by two spaces.
    pub fn new() -> (r: Self)
        ensures
            r.current_indent == 0,
            r.indent@ == encode_utf8("  "@),
    {
        Self::with_indent("  ".as_bytes())
    }

    /// A formatter that indents by `indent`.
    pub fn with_indent(indent: &'a [u8]) -> (r: Self)
        ensures
            r.current_indent == 0,
            r.indent == indent,
    {
        TranscriptFormatter { current_indent: 0, indent }
    }

    /// Writes the line of `e`, whose text is `line`, and steps in or out as
    /// `e` asks.
    fn put_line(&mut self, w: &mut Vec<u8>, line: String, Ghost(e): Ghost<Event>, kind: u8)
        requires
            line@ == transcript_line(e),
            kind == 0 <==> opens(e),
            kind == 1 <==> closes(e),
            kind == 2 <==> !opens(e) && !closes(e) && ends_line(e, 0),
            kind <= 3,
        ensures
            final(w)@ == old(w)@ + transcript(e, old(self).indent@, old(self).current_indent),
            *final(self) == (TranscriptFormatter {
                current_indent: depth_after(e, old(self).current_indent),
                indent: old(self).indent,
            }),
    {
        let mut line = line;
        if kind == 1 && self.current_indent > 0 {
            self.current_indent -= 1;
        }
        if kind == 0 || kind == 2 || self.current_indent != 0 {
            line.append("\n");
        }
        assert(line@ =~= transcript_line(e) + line_end(ends_line(e, old(self).current_indent)));
        indent(w, self.current_indent, self.indent);
        put_bytes(w, line.as_str().as_bytes());
        if kind == 0 && self.current_indent < usize::MAX {
            self.current_indent += 1;
        }
        assert(w@ =~= old(w)@ + transcript(e, old(self).indent@, old(self).current_indent));
    }
}

impl<'a> Default for TranscriptFormatter<'a> {
    fn default() -> (r: Self)
        ensures
            r.current_indent == 0,
            r.indent@ == encode_utf8("  "@),
    {
        Self::new()
    }
}

/// `n` in decimal.
fn decimal_string(n: i64) -> (r: String)
    ensures
        r@ == decimal(n as int),
{
    let mut r = String::new();
    push_decimal(&mut r, n);
    assert(r@ =~= decimal(n as int));
    r
}

/// The line of a named tag that holds one value.
fn tag_text(kind: &str, name_bytes: &[u8], value: &str) -> (r: String)
    ensures
        r@ == tag_line(kind@, name_bytes@, value@),
{
    let name = utf8_lossy(name_bytes);
    let mut r = String::from_str(kind);
    r.append(" '");
    r.append(name.as_str());
    r.append("' ");
    r.append(value);
    r
}

/// The line of a value inside a list or an array.
fn inner_text(kind: &str, value: &str) -> (r: String)
    ensures
        r@ == inner_line(kind@, value@),
{
    let mut r = String::from_str(kind);
    r.append(" ");
    r.append(value);
    r
}

/// The line of a list's or an array's header.
fn head_text(kind: &str, name_bytes: &[u8], of: &str, len: i32) -> (r: String)
    ensures
        r@ == head_line(kind@, name_bytes@, of@, len),
{
    let name = utf8_lossy(name_bytes);
    let shown = decimal_string(len as i64);
    let mut r = String::from_str(kind);
    r.append(" '");
    r.append(name.as_str());
    r.append("': [");
    r.append(of);
    r.append("; ");
    r.append(shown.as_str());
    r.append("]");
    r
}

impl<'a> Formatter for TranscriptFormatter<'a> {
    open spec fn rendered(&self, e: Event) -> Seq<u8> {
        transcript(e, self.indent@, self.current_indent)
    }

    open spec fn advanced(&self, e: Event) -> Self {
        TranscriptFormatter {
            current_indent: depth_after(e, self.current_indent),
            indent: self.indent,
        }
    }

    fn write_compound_tag(&mut self, w: &mut Vec<u8>, name_len: i16, name_bytes: &[u8]) {
        let name = utf8_lossy(name_bytes);
        let mut line = String::from_str("Compound '");
        line.append(name.as_str());
        line.append("'");
        let ghost e = Event::CompoundTag { name: Label { len: name_len, bytes: name_bytes@ } };
        self.put_line(w, line, Ghost(e), 0);
    }

    fn write_end_tag(&mut self, w: &mut Vec<u8>) {
        let line = String::from_str("EndCompound");
        self.put_line(w, line, Ghost(Event::EndTag), 1);
    }

    fn write_byte_tag(&mut self, w: &mut Vec<u8>, name_len: i16, name_bytes: &[u8], value: i8) {
        let shown = decimal_string(value as i64);
        let line = tag_text("Byte", name_bytes, shown.as_str());
        let ghost e = Event::ByteTag { name: Label { len: name_len, bytes: name_bytes@ }, value };
        self.put_line(w, line, Ghost(e), 3);
    }

    fn write_short_tag(&mut self, w: &mut Vec<u8>, name_len: i16, name_bytes: &[u8], value: i16) {
        let shown = decimal_string(value as i64);
        let line = tag_text("Short", name_bytes, shown.as_str());
        let ghost e = Event::ShortTag { name: Label { len: name_len, bytes: name_bytes@ }, value };
        self.put_line(w, line, Ghost(e), 3);
    }

    fn write_int_tag(&mut self, w: &mut Vec<u8>, name_len: i16, name_bytes: &[u8], value: i32) {
        let shown = decimal_string(value as i64);
        let line = tag_text("Int", name_bytes, shown.as_str());
        let ghost e = Event::IntTag { name: Label { len: name_len, bytes: name_bytes@ }, value };
        self.put_line(w, line, Ghost(e), 3);
    }

    fn write_long_tag(&mut self, w: &mut Vec<u8>, name_len: i16, name_bytes: &[u8], value: i64) {
        let shown = decimal_string(value);
        let line = tag_text("Long", name_bytes, shown.as_str());
        let ghost e = Event::LongTag { name: Label { len: name_len, bytes: name_bytes@ }, value };
        self.put_line(w, line, Ghost(e), 3);
    }

    fn write_float_tag(
        &mut self,
        w: &mut Vec<u8>,
        name_len: i16,
        name_bytes: &[u8],
        value: u32,
        text: &str,
    ) {
        let line = tag_text("Float", name_bytes, text);
        let ghost e = Event::FloatTag {
            name: Label { len: name_len, bytes: name_bytes@ },
            bits: value,
            text: text@,
        };
        self.put_line(w, line, Ghost(e), 3);
    }

    fn write_double_tag(
        &mut self,
        w: &mut Vec<u8>,
        name_len: i16,
        name_bytes: &[u8],
        value: u64,
        text: &str,
    ) {
        let line = tag_text("Double", name_bytes, text);
        let ghost e = Event::DoubleTag {
            name: Label { len: name_len, bytes: name_bytes@ },
            bits: value,
            text: text@,
        };
        self.put_line(w, line, Ghost(e), 3);
    }

    fn write_string_tag(
        &mut self,
        w: &mut Vec<u8>,
        name_len: i16,
        name_bytes: &[u8],
        string_len: i16,
        string_bytes: &[u8],
    ) {
        let string = utf8_lossy(string_bytes);
        let line = tag_text("String", name_bytes, string.as_str());
        let ghost e = Event::StringTag {
            name: Label { len: name_len, bytes: name_bytes@ },
            len: string_len,
            bytes: string_bytes@,
        };
        self.put_line(w, line, Ghost(e), 3);
    }

    fn write_list_tag(
        &mut self,
        w: &mut Vec<u8>,
        type_id: u8,
        len: i32,
        name_len: i16,
        name_bytes: &[u8],
    ) {
        let of = decimal_string(type_id as i64);
        let line = head_text("List", name_bytes, of.as_str(), len);
        let ghost e = Event::ListTag {
            type_id,
            len,
            name: Label { len: name_len, bytes: name_bytes@ },
        };
        self.put_line(w, line, Ghost(e), 0);
    }

    fn close_list(&mut self, w: &mut Vec<u8>) {
        let line = String::from_str("EndList");
        self.put_line(w, line, Ghost(Event::CloseList), 1);
    }

    fn write_array_head(
        &mut self,
        w: &mut Vec<u8>,
        type_id: u8,
        len: i32,
        name_len: i16,
        name_bytes: &[u8],
    ) {
        let line = if type_id == consts::TYPE_ID_BYTE_ARRAY {
            head_text("ByteArray", name_bytes, "Byte", len)
        } else if type_id == consts::TYPE_ID_INT_ARRAY {
            head_text("IntArray", name_bytes, "Int", len)
        } else {
            head_text("LongArray", name_bytes, "Long", len)
        };
        let ghost e = Event::ArrayHead {
            type_id,
            len,
            name: Label { len: name_len, bytes: name_bytes@ },
        };
        self.put_line(w, line, Ghost(e), 0);
    }

    fn close_array(&mut self, w: &mut Vec<u8>) {
        let line = String::from_str("EndArray");
        self.put_line(w, line, Ghost(Event::CloseArray), 1);
    }

    fn write_compound_inner(&mut self, w: &mut Vec<u8>) {
        let line = String::from_str("Compound");
        self.put_line(w, line, Ghost(Event::CompoundInner), 0);
    }

    fn write_byte_inner(&mut self, w: &mut Vec<u8>, value: i8) {
        let shown = decimal_string(value as i64);
        let line = inner_text("Byte", shown.as_str());
        self.put_line(w, line, Ghost(Event::ByteInner { value }), 2);
    }

    fn write_short_inner(&mut self, w: &mut Vec<u8>, value: i16) {
        let shown = decimal_string(value as i64);
        let line = inner_text("Short", shown.as_str());
        self.put_line(w, line, Ghost(Event::ShortInner { value }), 2);
    }

    fn write_int_inner(&mut self, w: &mut Vec<u8>, value: i32) {
        let shown = decimal_string(value as i64);
        let line = inner_text("Int", shown.as_str());
        self.put_line(w, line, Ghost(Event::IntInner { value }), 2);
    }

    fn write_long_inner(&mut self, w: &mut Vec<u8>, value: i64) {
        let shown = decimal_string(value);
        let line = inner_text("Long", shown.as_str());
        self.put_line(w, line, Ghost(Event::LongInner { value }), 2);
    }

    fn write_float_inner(&mut self, w: &mut Vec<u8>, value: u32, text: &str) {
        let line = inner_text("Float", text);
        self.put_line(w, line, Ghost(Event::FloatInner { bits: value, text: text@ }), 2);
    }

    fn write_double_inner(&mut self, w: &mut Vec<u8>, value: u64, text: &str) {
        let line = inner_text("Double", text);
        self.put_line(w, line, Ghost(Event::DoubleInner { bits: value, text: text@ }), 2);
    }

    fn write_string_inner(&mut self, w: &mut Vec<u8>, string_len: i16, string_bytes: &[u8]) {
        let string = utf8_lossy(string_bytes);
        let line = inner_text("String", string.as_str());
        self.put_line(
            w,
            line,
            Ghost(Event::StringInner { len: string_len, bytes: string_bytes@ }),
            2,
        );
    }
}

} // verus!
