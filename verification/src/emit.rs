//! What encoding comes to: the formatter calls that the encoder makes for a
//! piece of data, and what a formatter renders them to.

use crate::as_nbt_array::TOKEN_ARRAY;
use crate::consts;
use crate::data::Data;
use crate::error::ErrorCode;
use crate::formatter::{
    depth_after, ends_line, line_depth, line_end, margin, transcript, transcript_line,
    BinaryFormatter, Event, Formatter, Label, TranscriptFormatter,
};
use crate::text::lemma_encode_concat;
use vstd::prelude::*;
use vstd::utf8::encode_utf8;

verus! {

/// What encoding a piece of data comes to: the formatter calls, in order, and
/// whether the encoder still waits for the root's name.
pub struct Emitted {
    pub events: Seq<Event>,
    pub root: bool,
}

/// A failure of the encoder: what went wrong, and the formatter calls that
/// were made before it was found.
pub struct Failed {
    pub code: ErrorCode,
    pub events: Seq<Event>,
}

/// What the encoder makes of a piece of data: formatter calls, or the first
/// failure.
pub type Outcome = core::result::Result<Emitted, Failed>;

/// The failure `code`, found before any formatter call.
pub open spec fn refuse<T>(code: ErrorCode) -> core::result::Result<T, Failed> {
    Err(Failed { code, events: Seq::empty() })
}

/// The failure `f`, found after the formatter calls `before`.
pub open spec fn behind(before: Seq<Event>, f: Failed) -> Failed {
    Failed { code: f.code, events: before + f.events }
}

/// Whether the UTF-8 bytes of `text` can be counted by a length prefix.
pub open spec fn fits_prefix(text: Seq<char>) -> bool {
    encode_utf8(text).len() <= i16::MAX
}

/// `name` as a formatter receives it.
pub open spec fn label(name: Seq<char>) -> Label {
    Label { len: encode_utf8(name).len() as i16, bytes: encode_utf8(name) }
}

/// `events`, written under the pending name `name`.
pub open spec fn named(name: Seq<char>, root: bool, events: Seq<Event>) -> Outcome {
    if fits_prefix(name) {
        Ok(Emitted { events, root })
    } else {
        refuse(ErrorCode::InvalidStringLength)
    }
}

/// `inner` between the calls `open` and `close`.
pub open spec fn enclosed(open: Event, inner: Outcome, close: Event) -> Outcome {
    match inner {
        Ok(em) => Ok(Emitted { events: seq![open] + em.events + seq![close], root: em.root }),
        Err(f) => Err(behind(seq![open], f)),
    }
}

/// The payload `e` of an element whose kind is `kind`, in a list or an array
/// whose header announced `id`.
pub open spec fn element(id: u8, kind: u8, e: Event, root: bool, mismatch: ErrorCode) -> Outcome {
    if id == kind {
        Ok(Emitted { events: seq![e], root })
    } else {
        refuse(mismatch)
    }
}

/// The byte for a boolean.
pub open spec fn bool_byte(b: bool) -> i8 {
    if b {
        1
    } else {
        0
    }
}

/// The pending name that a map key sets: a string, the name of a unit
/// variant, or a newtype struct around one of them.
pub open spec fn key_name(key: Data) -> core::result::Result<Seq<char>, ErrorCode>
    decreases key,
{
    match key {
        Data::Str(s) => Ok(s@),
        Data::UnitVariant(variant) => Ok(variant@),
        Data::NewtypeStruct(_, inner) => key_name(*inner),
        _ => Err(ErrorCode::KeyMustBeAString),
    }
}

/// The element id that a list announces when `first` is its first element.
pub open spec fn list_kind(first: Data) -> core::result::Result<u8, ErrorCode>
    decreases first,
{
    match first {
        Data::Bool(_) | Data::I8(_) => Ok(consts::TYPE_ID_BYTE),
        Data::I16(_) => Ok(consts::TYPE_ID_SHORT),
        Data::I32(_) => Ok(consts::TYPE_ID_INT),
        Data::I64(_) => Ok(consts::TYPE_ID_LONG),
        Data::F32 { .. } => Ok(consts::TYPE_ID_FLOAT),
        Data::F64 { .. } => Ok(consts::TYPE_ID_DOUBLE),
        Data::Char(_) | Data::Str(_) | Data::UnitVariant(_) => Ok(consts::TYPE_ID_STRING),
        Data::Table(_) | Data::Struct(_, _) => Ok(consts::TYPE_ID_COMPOUND),
        Data::Just(inner) => list_kind(*inner),
        Data::NewtypeStruct(_, inner) => list_kind(*inner),
        _ => Err(ErrorCode::UnsupportedListInnerType),
    }
}

/// The id of the array that begins with `first`.
pub open spec fn array_kind(first: Data) -> core::result::Result<u8, ErrorCode>
    decreases first,
{
    match first {
        Data::I8(_) => Ok(consts::TYPE_ID_BYTE_ARRAY),
        Data::I32(_) => Ok(consts::TYPE_ID_INT_ARRAY),
        Data::I64(_) => Ok(consts::TYPE_ID_LONG_ARRAY),
        Data::NewtypeStruct(_, inner) => array_kind(*inner),
        _ => Err(ErrorCode::UnsupportedArrayInnerType),
    }
}

/// The payload of one element of an array of kind `id`.
pub open spec fn array_element(item: Data, id: u8) -> core::result::Result<Event, ErrorCode>
    decreases item,
{
    match item {
        Data::I8(value) => if id == consts::TYPE_ID_BYTE_ARRAY {
            Ok(Event::ByteInner { value })
        } else {
            Err(ErrorCode::ArrayDifferentType)
        },
        Data::I32(value) => if id == consts::TYPE_ID_INT_ARRAY {
            Ok(Event::IntInner { value })
        } else {
            Err(ErrorCode::ArrayDifferentType)
        },
        Data::I64(value) => if id == consts::TYPE_ID_LONG_ARRAY {
            Ok(Event::LongInner { value })
        } else {
            Err(ErrorCode::ArrayDifferentType)
        },
        Data::NewtypeStruct(_, inner) => array_element(*inner, id),
        _ => Err(ErrorCode::UnsupportedArrayInnerType),
    }
}

/// The payloads of the first `n` elements of an array of kind `id`.
pub open spec fn array_elements(items: Vec<Data>, n: nat, id: u8) -> core::result::Result<
    Seq<Event>,
    Failed,
>
    recommends
        n <= items.len(),
    decreases n,
{
    if n == 0 {
        Ok(Seq::empty())
    } else {
        match array_elements(items, (n - 1) as nat, id) {
            Err(f) => Err(f),
            Ok(before) => match array_element(items[n - 1], id) {
                Err(code) => Err(Failed { code, events: before }),
                Ok(e) => Ok(before.push(e)),
            },
        }
    }
}

/// What the encoder makes of `value` under the array marker: the header of
/// the array kind that the first element calls for, the elements, the close.
/// A sequence without elements leaves no trace. The marker applied again
/// changes nothing.
pub open spec fn emit_array(value: Data, name: Seq<char>) -> core::result::Result<
    Seq<Event>,
    Failed,
>
    decreases value,
{
    match value {
        Data::Sequence { sized, items } => {
            if !sized {
                refuse(ErrorCode::SequenceSizeUnknown)
            } else if items.len() > i32::MAX {
                refuse(ErrorCode::UnsupportedType)
            } else if items.len() == 0 {
                Ok(Seq::empty())
            } else {
                match array_kind(items[0]) {
                    Err(code) => refuse(code),
                    Ok(id) => if !fits_prefix(name) {
                        refuse(ErrorCode::InvalidStringLength)
                    } else {
                        match array_elements(items, items.len() as nat, id) {
                            Err(f) => Err(
                                behind(
                                    seq![
                                        Event::ArrayHead {
                                            type_id: id,
                                            len: items.len() as i32,
                                            name: label(name),
                                        },
                                    ],
                                    f,
                                ),
                            ),
                            Ok(payloads) => Ok(
                                seq![
                                    Event::ArrayHead {
                                        type_id: id,
                                        len: items.len() as i32,
                                        name: label(name),
                                    },
                                ] + payloads + seq![Event::CloseArray],
                            ),
                        }
                    },
                }
            }
        },
        Data::NewtypeStruct(nominal, inner) => if nominal@ == TOKEN_ARRAY@ {
            emit_array(*inner, name)
        } else {
            refuse(ErrorCode::UnsupportedArrayType)
        },
        _ => refuse(ErrorCode::UnsupportedArrayType),
    }
}

/// What the encoder makes of `value` when `name` is the pending name and
/// `root` says whether the root's name is still to be settled.
pub open spec fn emit(value: Data, name: Seq<char>, root: bool) -> Outcome
    decreases value, 0nat,
{
    match value {
        Data::Bool(b) => named(
            name,
            root,
            seq![Event::ByteTag { name: label(name), value: bool_byte(b) }],
        ),
        Data::I8(value) => named(name, root, seq![Event::ByteTag { name: label(name), value }]),
        Data::I16(value) => named(name, root, seq![Event::ShortTag { name: label(name), value }]),
        Data::I32(value) => named(name, root, seq![Event::IntTag { name: label(name), value }]),
        Data::I64(value) => named(name, root, seq![Event::LongTag { name: label(name), value }]),
        Data::F32 { bits, text } => named(
            name,
            root,
            seq![Event::FloatTag { name: label(name), bits, text: text@ }],
        ),
        Data::F64 { bits, text } => named(
            name,
            root,
            seq![Event::DoubleTag { name: label(name), bits, text: text@ }],
        ),
        Data::Char(c) => named(
            name,
            root,
            seq![
                Event::StringTag {
                    name: label(name),
                    len: encode_utf8(seq![c]).len() as i16,
                    bytes: encode_utf8(seq![c]),
                },
            ],
        ),
        Data::Str(s) => if !fits_prefix(s@) {
            refuse(ErrorCode::InvalidStringLength)
        } else {
            named(
                name,
                root,
                seq![
                    Event::StringTag {
                        name: label(name),
                        len: encode_utf8(s@).len() as i16,
                        bytes: encode_utf8(s@),
                    },
                ],
            )
        },
        Data::Nothing => Ok(Emitted { events: Seq::empty(), root }),
        Data::Just(inner) => emit(*inner, name, root),
        Data::UnitStruct(_) => named(
            name,
            root,
            seq![Event::CompoundTag { name: label(name) }, Event::EndTag],
        ),
        Data::NewtypeStruct(nominal, inner) => if nominal@ == TOKEN_ARRAY@ {
            match emit_array(*inner, name) {
                Ok(events) => Ok(Emitted { events, root }),
                Err(f) => Err(f),
            }
        } else {
            emit(*inner, name, root)
        },
        Data::Sequence { sized, items } => if !sized {
            refuse(ErrorCode::SequenceSizeUnknown)
        } else {
            emit_list(items, name, root)
        },
        Data::Tuple(items) => emit_list(items, name, root),
        Data::Table(entries) => if !fits_prefix(name) {
            refuse(ErrorCode::InvalidStringLength)
        } else {
            enclosed(
                Event::CompoundTag { name: label(name) },
                emit_entries(entries, entries.len() as nat, root),
                Event::EndTag,
            )
        },
        Data::Struct(nominal, fields) => {
            let shown = if root && name.len() == 0 {
                nominal@
            } else {
                name
            };
            if !fits_prefix(shown) {
                refuse(ErrorCode::InvalidStringLength)
            } else {
                enclosed(
                    Event::CompoundTag { name: label(shown) },
                    emit_fields(fields, fields.len() as nat, root && name.len() != 0),
                    Event::EndTag,
                )
            }
        },
        _ => refuse(ErrorCode::UnsupportedType),
    }
}

/// What the encoder makes of a list of `items`: the header, which announces
/// the kind of the first element and the number of elements, then the
/// elements, then the close. A list without elements announces the id 0.
pub open spec fn emit_list(items: Vec<Data>, name: Seq<char>, root: bool) -> Outcome
    decreases items, items.len() + 1,
{
    if items.len() > i32::MAX {
        refuse(ErrorCode::UnsupportedType)
    } else if items.len() == 0 {
        named(
            name,
            root,
            seq![
                Event::ListTag { type_id: consts::TYPE_ID_END, len: 0, name: label(name) },
                Event::CloseList,
            ],
        )
    } else {
        match list_kind(items[0]) {
            Err(code) => refuse(code),
            Ok(id) => if !fits_prefix(name) {
                refuse(ErrorCode::InvalidStringLength)
            } else {
                enclosed(
                    Event::ListTag { type_id: id, len: items.len() as i32, name: label(name) },
                    emit_elements(items, items.len() as nat, id, root),
                    Event::CloseList,
                )
            },
        }
    }
}

/// What the encoder makes of the first `n` elements of a list of kind `id`.
pub open spec fn emit_elements(items: Vec<Data>, n: nat, id: u8, root: bool) -> Outcome
    recommends
        n <= items.len(),
    decreases items, n,
{
    if n == 0 || n > items.len() {
        Ok(Emitted { events: Seq::empty(), root })
    } else {
        match emit_elements(items, (n - 1) as nat, id, root) {
            Err(f) => Err(f),
            Ok(before) => match emit_inner(items[n - 1], id, before.root) {
                Err(f) => Err(behind(before.events, f)),
                Ok(last) => Ok(Emitted { events: before.events + last.events, root: last.root }),
            },
        }
    }
}

/// What the encoder makes of one element of a list of kind `id`: the payload
/// without a header, where the element is of that kind.
pub open spec fn emit_inner(item: Data, id: u8, root: bool) -> Outcome
    decreases item, 0nat,
{
    match item {
        Data::Bool(b) => element(
            id,
            consts::TYPE_ID_BYTE,
            Event::ByteInner { value: bool_byte(b) },
            root,
            ErrorCode::ListDifferentType,
        ),
        Data::I8(value) => element(
            id,
            consts::TYPE_ID_BYTE,
            Event::ByteInner { value },
            root,
            ErrorCode::ListDifferentType,
        ),
        Data::I16(value) => element(
            id,
            consts::TYPE_ID_SHORT,
            Event::ShortInner { value },
            root,
            ErrorCode::ListDifferentType,
        ),
        Data::I32(value) => element(
            id,
            consts::TYPE_ID_INT,
            Event::IntInner { value },
            root,
            ErrorCode::ListDifferentType,
        ),
        Data::I64(value) => element(
            id,
            consts::TYPE_ID_LONG,
            Event::LongInner { value },
            root,
            ErrorCode::ListDifferentType,
        ),
        Data::F32 { bits, text } => element(
            id,
            consts::TYPE_ID_FLOAT,
            Event::FloatInner { bits, text: text@ },
            root,
            ErrorCode::ListDifferentType,
        ),
        Data::F64 { bits, text } => element(
            id,
            consts::TYPE_ID_DOUBLE,
            Event::DoubleInner { bits, text: text@ },
            root,
            ErrorCode::ListDifferentType,
        ),
        Data::Char(c) => element(
            id,
            consts::TYPE_ID_STRING,
            Event::StringInner {
                len: encode_utf8(seq![c]).len() as i16,
                bytes: encode_utf8(seq![c]),
            },
            root,
            ErrorCode::ListDifferentType,
        ),
        Data::Str(s) => inner_string(s@, id, root),
        Data::UnitVariant(variant) => inner_string(variant@, id, root),
        Data::Just(inner) => emit_inner(*inner, id, root),
        Data::NewtypeStruct(_, inner) => emit_inner(*inner, id, root),
        Data::Table(entries) => if id != consts::TYPE_ID_COMPOUND {
            refuse(ErrorCode::ListDifferentType)
        } else {
            enclosed(
                Event::CompoundInner,
                emit_entries(entries, entries.len() as nat, root),
                Event::EndTag,
            )
        },
        Data::Struct(_, fields) => if id != consts::TYPE_ID_COMPOUND {
            refuse(ErrorCode::ListDifferentType)
        } else {
            enclosed(
                Event::CompoundInner,
                emit_fields(fields, fields.len() as nat, root),
                Event::EndTag,
            )
        },
        _ => refuse(ErrorCode::UnsupportedListInnerType),
    }
}

/// A string as an element of a list of kind `id`.
pub open spec fn inner_string(s: Seq<char>, id: u8, root: bool) -> Outcome {
    if id != consts::TYPE_ID_STRING {
        refuse(ErrorCode::ListDifferentType)
    } else if !fits_prefix(s) {
        refuse(ErrorCode::InvalidStringLength)
    } else {
        Ok(
            Emitted {
                events: seq![
                    Event::StringInner {
                        len: encode_utf8(s).len() as i16,
                        bytes: encode_utf8(s),
                    },
                ],
                root,
            },
        )
    }
}

/// What the encoder makes of the first `n` entries of a map: each key sets
/// the pending name, under which the value is written.
pub open spec fn emit_entries(entries: Vec<(Data, Data)>, n: nat, root: bool) -> Outcome
    recommends
        n <= entries.len(),
    decreases entries, n,
{
    if n == 0 || n > entries.len() {
        Ok(Emitted { events: Seq::empty(), root })
    } else {
        match emit_entries(entries, (n - 1) as nat, root) {
            Err(f) => Err(f),
            Ok(before) => match key_name(entries[n - 1].0) {
                Err(code) => Err(Failed { code, events: before.events }),
                Ok(name) => match emit(entries[n - 1].1, name, before.root) {
                    Err(f) => Err(behind(before.events, f)),
                    Ok(last) => Ok(
                        Emitted { events: before.events + last.events, root: last.root },
                    ),
                },
            },
        }
    }
}

/// What the encoder makes of the first `n` fields of a struct: each field is
/// written under its own name.
pub open spec fn emit_fields(fields: Vec<(String, Data)>, n: nat, root: bool) -> Outcome
    recommends
        n <= fields.len(),
    decreases fields, n,
{
    if n == 0 || n > fields.len() {
        Ok(Emitted { events: Seq::empty(), root })
    } else {
        match emit_fields(fields, (n - 1) as nat, root) {
            Err(f) => Err(f),
            Ok(before) => match emit(fields[n - 1].1, fields[n - 1].0@, before.root) {
                Err(f) => Err(behind(before.events, f)),
                Ok(last) => Ok(Emitted { events: before.events + last.events, root: last.root }),
            },
        }
    }
}

/// What the encoder makes of the next element of a list: the payload, and
/// before the payload of the first element the header.
pub open spec fn emit_element(
    type_id: Option<u8>,
    len: usize,
    value: Data,
    name: Seq<char>,
    root: bool,
) -> Outcome {
    match type_id {
        Some(id) => emit_inner(value, id, root),
        None => if len > i32::MAX {
            refuse(ErrorCode::UnsupportedType)
        } else {
            match list_kind(value) {
                Err(code) => refuse(code),
                Ok(id) => if !fits_prefix(name) {
                    refuse(ErrorCode::InvalidStringLength)
                } else {
                    match emit_inner(value, id, root) {
                        Err(f) => Err(
                            behind(
                                seq![
                                    Event::ListTag {
                                        type_id: id,
                                        len: len as i32,
                                        name: label(name),
                                    },
                                ],
                                f,
                            ),
                        ),
                        Ok(em) => Ok(
                            Emitted {
                                events: seq![
                                    Event::ListTag {
                                        type_id: id,
                                        len: len as i32,
                                        name: label(name),
                                    },
                                ] + em.events,
                                root: em.root,
                            },
                        ),
                    }
                },
            }
        },
    }
}

/// What the encoder makes of the end of a list: the close, and before it the
/// header of a list without elements where no element has been written.
pub open spec fn emit_end(type_id: Option<u8>, name: Seq<char>, root: bool) -> Outcome {
    match type_id {
        Some(_) => Ok(Emitted { events: seq![Event::CloseList], root }),
        None => named(
            name,
            root,
            seq![
                Event::ListTag { type_id: consts::TYPE_ID_END, len: 0, name: label(name) },
                Event::CloseList,
            ],
        ),
    }
}

/// The header of an array of kind `id` with `len` elements under the name
/// `name`.
pub open spec fn array_head(id: u8, len: usize, name: Seq<char>) -> Event {
    Event::ArrayHead { type_id: id, len: len as i32, name: label(name) }
}

/// What the encoder makes of the next element of an array: the payload, and
/// before the payload of the first element the header of the array kind that
/// the element calls for.
pub open spec fn emit_array_element(
    type_id: Option<u8>,
    len: usize,
    value: Data,
    name: Seq<char>,
) -> core::result::Result<Seq<Event>, Failed> {
    match type_id {
        Some(id) => match array_element(value, id) {
            Ok(e) => Ok(seq![e]),
            Err(code) => refuse(code),
        },
        None => if len > i32::MAX {
            refuse(ErrorCode::UnsupportedType)
        } else {
            match array_kind(value) {
                Err(code) => refuse(code),
                Ok(id) => if !fits_prefix(name) {
                    refuse(ErrorCode::InvalidStringLength)
                } else {
                    match array_element(value, id) {
                        Ok(e) => Ok(seq![array_head(id, len, name), e]),
                        Err(code) => Err(
                            Failed { code, events: seq![array_head(id, len, name)] },
                        ),
                    }
                },
            }
        },
    }
}

/// What the encoder makes of the end of an array: the close, or nothing
/// where no element has been written.
pub open spec fn emit_array_end(type_id: Option<u8>) -> Seq<Event> {
    match type_id {
        Some(_) => seq![Event::CloseArray],
        None => Seq::empty(),
    }
}

/// An array with elements, element by element: its first element, written
/// through a fresh [`SerializeArray`], fails as the array does; where it
/// does not fail, it makes the header and the first payload.
pub proof fn lemma_array_by_elements(items: Vec<Data>, name: Seq<char>)
    requires
        0 < items.len() <= i32::MAX,
    ensures
        match emit_array_element(None, items.len(), items[0], name) {
            Err(f) => emit_array(Data::Sequence { sized: true, items }, name) == Err::<
                Seq<Event>,
                Failed,
            >(f),
            Ok(events) => {
                &&& array_kind(items[0]) is Ok
                &&& fits_prefix(name)
                &&& array_elements(items, 1, array_kind(items[0])->Ok_0) is Ok
                &&& events == seq![array_head(array_kind(items[0])->Ok_0, items.len(), name)]
                    + array_elements(items, 1, array_kind(items[0])->Ok_0)->Ok_0
            },
        },
{
    if array_kind(items[0]) is Ok && fits_prefix(name) {
        let id = array_kind(items[0])->Ok_0;
        let head = array_head(id, items.len(), name);
        let none = array_elements(items, 0, id);
        assert(none == Ok::<Seq<Event>, Failed>(Seq::empty()));
        match array_element(items[0], id) {
            Ok(e) => {
                assert(Seq::<Event>::empty().push(e) =~= seq![e]);
                assert(array_elements(items, 1, id) == Ok::<Seq<Event>, Failed>(seq![e]));
                assert(seq![head, e] =~= seq![head] + seq![e]);
            },
            Err(code) => {
                assert(array_elements(items, 1, id) == Err::<Seq<Event>, Failed>(
                    Failed { code, events: Seq::empty() },
                ));
                lemma_array_elements_fail(items, 1, items.len() as nat, id);
                assert(seq![head] + Seq::<Event>::empty() =~= seq![head]);
            },
        }
    }
}

/// A failure among the first `n` array elements is the failure of the whole.
pub proof fn lemma_array_elements_fail(items: Vec<Data>, n: nat, m: nat, id: u8)
    requires
        n <= m,
        array_elements(items, n, id) is Err,
    ensures
        array_elements(items, m, id) == array_elements(items, n, id),
    decreases m,
{
    if n < m {
        lemma_array_elements_fail(items, n, (m - 1) as nat, id);
    }
}

/// A failure among the first `n` list elements is the failure of the whole.
pub proof fn lemma_elements_fail(items: Vec<Data>, n: nat, m: nat, id: u8, root: bool)
    requires
        n <= m <= items.len(),
        emit_elements(items, n, id, root) is Err,
    ensures
        emit_elements(items, m, id, root) == emit_elements(items, n, id, root),
    decreases m,
{
    if n < m {
        lemma_elements_fail(items, n, (m - 1) as nat, id, root);
    }
}

/// A failure among the first `n` entries is the failure of the whole.
pub proof fn lemma_entries_fail(entries: Vec<(Data, Data)>, n: nat, m: nat, root: bool)
    requires
        n <= m <= entries.len(),
        emit_entries(entries, n, root) is Err,
    ensures
        emit_entries(entries, m, root) == emit_entries(entries, n, root),
    decreases m,
{
    if n < m {
        lemma_entries_fail(entries, n, (m - 1) as nat, root);
    }
}

/// A failure among the first `n` fields is the failure of the whole.
pub proof fn lemma_fields_fail(fields: Vec<(String, Data)>, n: nat, m: nat, root: bool)
    requires
        n <= m <= fields.len(),
        emit_fields(fields, n, root) is Err,
    ensures
        emit_fields(fields, m, root) == emit_fields(fields, n, root),
    decreases m,
{
    if n < m {
        lemma_fields_fail(fields, n, (m - 1) as nat, root);
    }
}

/// A list with elements, element by element: its first element, written
/// through a fresh [`SerializeList`], fails as the list does; where it does
/// not fail, it makes the header and the first payload, and the list is the
/// header, the payloads and the close.
pub proof fn lemma_list_by_elements(items: Vec<Data>, name: Seq<char>, root: bool)
    requires
        0 < items.len() <= i32::MAX,
    ensures
        match emit_element(None, items.len(), items[0], name, root) {
            Err(f) => emit_list(items, name, root) == Err::<Emitted, Failed>(f),
            Ok(em) => {
                &&& list_kind(items[0]) is Ok
                &&& emit_elements(items, 1, list_kind(items[0])->Ok_0, root) is Ok
                &&& em.events == seq![
                    Event::ListTag {
                        type_id: list_kind(items[0])->Ok_0,
                        len: items.len() as i32,
                        name: label(name),
                    },
                ] + emit_elements(items, 1, list_kind(items[0])->Ok_0, root)->Ok_0.events
                &&& em.root == emit_elements(items, 1, list_kind(items[0])->Ok_0, root)->Ok_0.root
                &&& emit_list(items, name, root) == enclosed(
                    Event::ListTag {
                        type_id: list_kind(items[0])->Ok_0,
                        len: items.len() as i32,
                        name: label(name),
                    },
                    emit_elements(items, items.len() as nat, list_kind(items[0])->Ok_0, root),
                    Event::CloseList,
                )
            },
        },
{
    if list_kind(items[0]) is Ok && fits_prefix(name) {
        let id = list_kind(items[0])->Ok_0;
        let none = emit_elements(items, 0, id, root);
        assert(none == Ok::<Emitted, Failed>(Emitted { events: Seq::empty(), root }));
        let first = emit_inner(items[0], id, root);
        match first {
            Ok(em) => {
                assert(Seq::<Event>::empty() + em.events =~= em.events);
                assert(emit_elements(items, 1, id, root) == Ok::<Emitted, Failed>(em));
            },
            Err(f) => {
                assert(Seq::<Event>::empty() + f.events =~= f.events);
                assert(emit_elements(items, 1, id, root) == Err::<Emitted, Failed>(f));
                lemma_elements_fail(items, 1, items.len() as nat, id, root);
            },
        }
    }
}

/// What `events` come to when a formatter that stands as `f` renders them in
/// order: the bytes, and the formatter afterwards.
pub open spec fn render_all<F: Formatter>(f: F, events: Seq<Event>) -> (Seq<u8>, F)
    decreases events.len(),
{
    if events.len() == 0 {
        (Seq::empty(), f)
    } else {
        let (bytes, g) = render_all(f, events.drop_last());
        (bytes + g.rendered(events.last()), g.advanced(events.last()))
    }
}

/// Whether a writer that held `w0`, with its formatter standing as `f0`,
/// holds `w1` and has its formatter standing as `f1` once `events` are
/// rendered.
pub open spec fn advanced_by<F: Formatter>(
    w0: Seq<u8>,
    f0: F,
    w1: Seq<u8>,
    f1: F,
    events: Seq<Event>,
) -> bool {
    w1 == w0 + render_all(f0, events).0 && f1 == render_all(f0, events).1
}

/// Rendering `a` and then `b` is rendering `a + b`.
pub proof fn lemma_render_concat<F: Formatter>(f: F, a: Seq<Event>, b: Seq<Event>)
    ensures
        render_all(f, a + b).0 == render_all(f, a).0 + render_all(render_all(f, a).1, b).0,
        render_all(f, a + b).1 == render_all(render_all(f, a).1, b).1,
    decreases b.len(),
{
    if b.len() == 0 {
        assert(a + b =~= a);
        assert(render_all(f, a).0 + Seq::<u8>::empty() =~= render_all(f, a).0);
    } else {
        lemma_render_concat(f, a, b.drop_last());
        assert((a + b).drop_last() =~= a + b.drop_last());
        assert((a + b).last() == b.last());
        let g = render_all(f, a).1;
        let h = render_all(g, b.drop_last()).1;
        assert(render_all(f, a).0 + (render_all(g, b.drop_last()).0 + h.rendered(b.last()))
            =~= (render_all(f, a).0 + render_all(g, b.drop_last()).0) + h.rendered(b.last()));
    }
}

/// Rendering one call.
pub proof fn lemma_render_one<F: Formatter>(f: F, e: Event)
    ensures
        render_all(f, seq![e]) == (f.rendered(e), f.advanced(e)),
{
    let one = seq![e];
    assert(one.drop_last() =~= Seq::<Event>::empty());
    assert(one.last() == e);
    assert(render_all(f, one.drop_last()) == (Seq::<u8>::empty(), f));
    assert(Seq::<u8>::empty() + f.rendered(e) =~= f.rendered(e));
}

/// The bytes that `events` come to on the wire.
pub open spec fn binary_all(events: Seq<Event>) -> Seq<u8> {
    render_all(BinaryFormatter, events).0
}

/// The number of open containers after `events`, where `depth` were open
/// before them.
pub open spec fn depth_all(events: Seq<Event>, depth: usize) -> usize
    decreases events.len(),
{
    if events.len() == 0 {
        depth
    } else {
        depth_after(events.last(), depth_all(events.drop_last(), depth))
    }
}

/// The transcript of `events`, indented by steps of `indent`, where `depth`
/// containers are open before them.
pub open spec fn transcript_all(events: Seq<Event>, indent: Seq<u8>, depth: usize) -> Seq<u8>
    decreases events.len(),
{
    if events.len() == 0 {
        Seq::empty()
    } else {
        transcript_all(events.drop_last(), indent, depth) + transcript(
            events.last(),
            indent,
            depth_all(events.drop_last(), depth),
        )
    }
}

/// What a transcript formatter renders is the transcript.
pub proof fn lemma_render_transcript(f: TranscriptFormatter<'_>, events: Seq<Event>)
    ensures
        render_all(f, events).0 == transcript_all(events, f.indent@, f.current_indent),
        render_all(f, events).1 == (TranscriptFormatter {
            current_indent: depth_all(events, f.current_indent),
            indent: f.indent,
        }),
    decreases events.len(),
{
    if events.len() > 0 {
        lemma_render_transcript(f, events.drop_last());
    }
}

/// The bytes of the root tag that `value` makes under the name `name`, or
/// the failure of encoding it.
pub open spec fn encoding(value: Data, name: Seq<char>) -> core::result::Result<
    Seq<u8>,
    ErrorCode,
> {
    match emit(value, name, true) {
        Ok(em) => Ok(binary_all(em.events)),
        Err(f) => Err(f.code),
    }
}

/// `n` steps of indentation, as text.
pub open spec fn margin_text(step: Seq<char>, n: nat) -> Seq<char>
    decreases n,
{
    if n == 0 {
        Seq::empty()
    } else {
        margin_text(step, (n - 1) as nat) + step
    }
}

/// The text of the transcript of `events`, indented by steps of `step`,
/// where `depth` containers are open before them: for each formatter call
/// one line, indented, and ended by a newline unless it is a named tag or a
/// closing line at depth 0.
pub open spec fn transcript_text(events: Seq<Event>, step: Seq<char>, depth: usize) -> Seq<char>
    decreases events.len(),
{
    if events.len() == 0 {
        Seq::empty()
    } else {
        let at = depth_all(events.drop_last(), depth);
        transcript_text(events.drop_last(), step, depth) + (margin_text(
            step,
            line_depth(events.last(), at) as nat,
        ) + (transcript_line(events.last()) + line_end(ends_line(events.last(), at))))
    }
}

/// The bytes of indentation are the bytes of its text.
pub proof fn lemma_margin_text(step: Seq<char>, n: nat)
    ensures
        encode_utf8(margin_text(step, n)) == margin(encode_utf8(step), n),
    decreases n,
{
    if n > 0 {
        lemma_margin_text(step, (n - 1) as nat);
        lemma_encode_concat(margin_text(step, (n - 1) as nat), step);
    }
}

/// The bytes of a transcript are the bytes of its text.
pub proof fn lemma_transcript_text(events: Seq<Event>, step: Seq<char>, depth: usize)
    ensures
        encode_utf8(transcript_text(events, step, depth)) == transcript_all(
            events,
            encode_utf8(step),
            depth,
        ),
    decreases events.len(),
{
    if events.len() > 0 {
        let at = depth_all(events.drop_last(), depth);
        let before = transcript_text(events.drop_last(), step, depth);
        let pad = margin_text(step, line_depth(events.last(), at) as nat);
        let line = transcript_line(events.last()) + line_end(ends_line(events.last(), at));
        lemma_transcript_text(events.drop_last(), step, depth);
        lemma_margin_text(step, line_depth(events.last(), at) as nat);
        lemma_encode_concat(pad, line);
        lemma_encode_concat(before, pad + line);
    }
}

/// The transcript of the root tag that `value` makes under the name `name`,
/// indented by two spaces, or the failure of encoding it.
pub open spec fn transcription(value: Data, name: Seq<char>) -> core::result::Result<
    Seq<char>,
    ErrorCode,
> {
    match emit(value, name, true) {
        Ok(em) => Ok(transcript_text(em.events, "  "@, 0)),
        Err(f) => Err(f.code),
    }
}

} // verus!
